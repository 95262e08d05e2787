//! The command lines of the tools that know about Xcode projects.

use crate::text::{same_text, split_words, words};
use crate::vars::BuildVars;
use vstd::prelude::*;

verus! {

/// An argument of a command.
#[derive(Debug)]
pub enum Arg {
    /// A text.
    Text(String),
    /// The path of the file or directory that the command is about.
    Path,
}

/// An argument of a command, as its text.
pub enum ArgView {
    /// A text.
    Text(Seq<char>),
    /// The path of the file or directory that the command is about.
    Path,
}

impl View for Arg {
    type V = ArgView;

    open spec fn view(&self) -> ArgView {
        match self {
            Arg::Text(text) => ArgView::Text(text@),
            Arg::Path => ArgView::Path,
        }
    }
}

/// The arguments of a list.
pub open spec fn args(list: Seq<Arg>) -> Seq<ArgView> {
    list.map_values(|arg: Arg| arg@)
}

/// The arguments of `xcodebuild` that have it describe a project as JSON.
pub fn list_args() -> (list: Vec<Arg>)
    ensures
        args(list@) == seq![
            ArgView::Text("-list"@),
            ArgView::Text("-json"@),
            ArgView::Text("-project"@),
            ArgView::Path,
        ],
{
    let list = vec![
        Arg::Text("-list".to_owned()),
        Arg::Text("-json".to_owned()),
        Arg::Text("-project".to_owned()),
        Arg::Path,
    ];
    assert(args(list@) =~= seq![
        ArgView::Text("-list"@),
        ArgView::Text("-json"@),
        ArgView::Text("-project"@),
        ArgView::Path,
    ]);
    list
}

/// The arguments of `xcodebuild` that have it print the settings with which it builds a
/// target of a project in a configuration.
pub open spec fn show_args(target: Seq<char>, configuration: Seq<char>) -> Seq<ArgView> {
    seq![
        ArgView::Text("-showBuildSettings"@),
        ArgView::Text("-project"@),
        ArgView::Path,
        ArgView::Text("-target"@),
        ArgView::Text(target),
        ArgView::Text("-configuration"@),
        ArgView::Text(configuration),
    ]
}

/// The arguments of `xcodebuild` that have it print the settings with which it builds a
/// target of a project in a configuration.
pub fn build_settings_args(target: &str, configuration: &str) -> (list: Vec<Arg>)
    ensures
        args(list@) == show_args(target@, configuration@),
{
    let list = vec![
        Arg::Text("-showBuildSettings".to_owned()),
        Arg::Text("-project".to_owned()),
        Arg::Path,
        Arg::Text("-target".to_owned()),
        Arg::Text(target.to_owned()),
        Arg::Text("-configuration".to_owned()),
        Arg::Text(configuration.to_owned()),
    ];
    assert(args(list@) =~= show_args(target@, configuration@));
    list
}

/// The words of the variable `name`; none where it has no value.
pub open spec fn var_words(vars: Map<Seq<char>, Seq<char>>, name: Seq<char>) -> Seq<Seq<char>> {
    if vars.contains_key(name) {
        words(vars[name])
    } else {
        seq![]
    }
}

/// Whether a property list is to go through the C preprocessor first.
pub open spec fn preprocessed(vars: Map<Seq<char>, Seq<char>>) -> bool {
    vars.contains_key("INFOPLIST_PREPROCESS"@) && vars["INFOPLIST_PREPROCESS"@] == "YES"@
}

/// `prefix` before each word.
pub open spec fn prefixed(prefix: Seq<char>, list: Seq<Seq<char>>) -> Seq<ArgView> {
    list.map_values(|word: Seq<char>| ArgView::Text(prefix + word))
}

/// The arguments with which `cc` preprocesses a property list: the flags that are set
/// for it, then the definitions.
pub open spec fn cc_args(vars: Map<Seq<char>, Seq<char>>) -> Seq<ArgView> {
    seq![ArgView::Text("-xc"@), ArgView::Text("-P"@), ArgView::Text("-E"@)] + prefixed(
        seq![],
        var_words(vars, "INFOPLIST_OTHER_PREPROCESSOR_FLAGS"@),
    ) + prefixed("-D"@, var_words(vars, "INFOPLIST_PREPROCESSOR_DEFINITIONS"@)) + seq![
        ArgView::Path,
    ]
}

/// Adds the words of the variable `name` to a list, each behind `prefix`.
fn push_words(list: &mut Vec<Arg>, prefix: &str, vars: &BuildVars, name: &str)
    ensures
        args(final(list)@) == args(old(list)@) + prefixed(prefix@, var_words(vars@, name@)),
{
    let found = match vars.get(name) {
        Some(value) => split_words(value.as_str()),
        None => Vec::new(),
    };
    let ghost all = var_words(vars@, name@);
    assert(found@.map_values(|word: String| word@) =~= all);
    let ghost start = args(list@);
    assert(start + prefixed(prefix@, all.take(0)) =~= start);
    let mut i: usize = 0;
    while i < found.len()
        invariant
            i <= found@.len(),
            all == found@.map_values(|word: String| word@),
            args(list@) == start + prefixed(prefix@, all.take(i as int)),
        decreases found@.len() - i,
    {
        let mut text = prefix.to_owned();
        text.append(found[i].as_str());
        let ghost before = list@;
        list.push(Arg::Text(text));
        proof {
            assert(all[i as int] == found@[i as int]@);
            assert(all.take(i as int + 1) =~= all.take(i as int).push(all[i as int]));
            assert(args(list@) =~= args(before).push(ArgView::Text(prefix@ + all[i as int])));
            assert(args(list@) =~= start + prefixed(prefix@, all.take(i as int + 1)));
        }
        i = i + 1;
    }
    assert(all.take(i as int) =~= all);
}

/// The arguments with which `cc` preprocesses a property list, where it is to.
pub fn preprocess_args(vars: &BuildVars) -> (list: Option<Vec<Arg>>)
    ensures
        match list {
            Some(list) => preprocessed(vars@) && args(list@) == cc_args(vars@),
            None => !preprocessed(vars@),
        },
{
    match vars.get("INFOPLIST_PREPROCESS") {
        Some(value) => {
            if !same_text(value.as_str(), "YES") {
                return None;
            }
        },
        None => {
            return None;
        },
    }
    let mut list = vec![
        Arg::Text("-xc".to_owned()),
        Arg::Text("-P".to_owned()),
        Arg::Text("-E".to_owned()),
    ];
    assert(args(list@) =~= seq![
        ArgView::Text("-xc"@),
        ArgView::Text("-P"@),
        ArgView::Text("-E"@),
    ]);
    proof {
        reveal_strlit("");
        assert(""@ =~= seq![]);
    }
    push_words(&mut list, "", vars, "INFOPLIST_OTHER_PREPROCESSOR_FLAGS");
    push_words(&mut list, "-D", vars, "INFOPLIST_PREPROCESSOR_DEFINITIONS");
    let ghost before = list@;
    list.push(Arg::Path);
    assert(args(list@) =~= args(before) + seq![ArgView::Path]);
    Some(list)
}

/// The arguments of a list stand in the same order, and there are as many.
pub proof fn law_args(list: Seq<Arg>)
    ensures
        args(list).len() == list.len(),
        forall|i: int|
            0 <= i < list.len() ==> #[trigger] args(list)[i] == match list[i] {
                Arg::Text(text) => ArgView::Text(text@),
                Arg::Path => ArgView::Path,
            },
{
}

/// `xcodebuild` is asked for the settings of exactly this project, target and configuration,
/// each behind the option that names it.
pub proof fn law_show_args(target: Seq<char>, configuration: Seq<char>)
    ensures
        ({
            let list = show_args(target, configuration);
            &&& list.len() == 7
            &&& list[0] == ArgView::Text("-showBuildSettings"@)
            &&& list[1] == ArgView::Text("-project"@) && list[2] == ArgView::Path
            &&& list[3] == ArgView::Text("-target"@) && list[4] == ArgView::Text(target)
            &&& list[5] == ArgView::Text("-configuration"@) && list[6] == ArgView::Text(
                configuration,
            )
        }),
{
}

/// A property list is preprocessed exactly if `INFOPLIST_PREPROCESS` is `YES`.
pub proof fn law_preprocessed(vars: Map<Seq<char>, Seq<char>>)
    ensures
        preprocessed(vars) <==> vars.contains_key("INFOPLIST_PREPROCESS"@)
            && vars["INFOPLIST_PREPROCESS"@] == "YES"@,
{
}

/// The preprocessor gets three options, then each word of the flags that are set for it as it
/// is, then each word of the definitions behind `-D`, and at last the file.
pub proof fn law_cc_args(
    vars: Map<Seq<char>, Seq<char>>,
    flags: Seq<Seq<char>>,
    definitions: Seq<Seq<char>>,
)
    requires
        flags == if vars.contains_key("INFOPLIST_OTHER_PREPROCESSOR_FLAGS"@) {
            words(vars["INFOPLIST_OTHER_PREPROCESSOR_FLAGS"@])
        } else {
            seq![]
        },
        definitions == if vars.contains_key("INFOPLIST_PREPROCESSOR_DEFINITIONS"@) {
            words(vars["INFOPLIST_PREPROCESSOR_DEFINITIONS"@])
        } else {
            seq![]
        },
    ensures
        ({
            let list = cc_args(vars);
            let n = flags.len() as int;
            &&& list.len() == n + definitions.len() + 4
            &&& list[0] == ArgView::Text("-xc"@)
            &&& list[1] == ArgView::Text("-P"@)
            &&& list[2] == ArgView::Text("-E"@)
            &&& forall|i: int|
                #![trigger flags[i]]
                0 <= i < n ==> list[3 + i] == ArgView::Text(flags[i])
            &&& forall|i: int|
                #![trigger definitions[i]]
                0 <= i < definitions.len() ==> list[3 + n + i] == ArgView::Text(
                    seq!['-', 'D'] + definitions[i],
                )
            &&& list.last() == ArgView::Path
        }),
{
    reveal_strlit("-D");
    assert("-D"@ =~= seq!['-', 'D']);
    let list = cc_args(vars);
    assert forall|i: int| #![trigger flags[i]] 0 <= i < flags.len() implies list[3 + i]
        == ArgView::Text(flags[i]) by {
        assert(seq![] + flags[i] =~= flags[i]);
    }
}

} // verus!
