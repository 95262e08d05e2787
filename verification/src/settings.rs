//! The build settings that `xcodebuild -showBuildSettings` prints.

use crate::text::{
    from_chars, lemma_prefix_len, lemma_prefix_len_is, other_than, position_of, prefix_len,
    same_chars, to_chars,
};
use crate::vars::BuildVars;
use crate::xcode::XcodeProjectInfo;
use vstd::prelude::*;
use vstd::slice::slice_subrange;
use vstd::utf8::{decode_utf8, valid_utf8};

verus! {

/// `std::str::Utf8Error`, where a text is not UTF-8.
#[verifier::external_type_specification]
#[verifier::external_body]
pub struct ExUtf8Error(std::str::Utf8Error);

/// `std::str::from_utf8` gives the text whose bytes these are, if they are UTF-8.
pub assume_specification<'a>[ std::str::from_utf8 ](v: &'a [u8]) -> (text: Result<
    &'a str,
    std::str::Utf8Error,
>)
    ensures
        match text {
            Ok(s) => valid_utf8(v@) && s@ == decode_utf8(v@),
            Err(_) => !valid_utf8(v@),
        },
;

/// Why an output could not be read.
#[derive(Debug, Clone, Copy, PartialEq, Eq, Structural)]
pub enum OutputError {
    /// It is not UTF-8.
    NotUtf8,
}

/// `line` without a carriage return at its end.
pub open spec fn without_return(line: Seq<char>) -> Seq<char> {
    if line.len() > 0 && line.last() == '\r' {
        line.drop_last()
    } else {
        line
    }
}

/// The lines of a text. Each but the last ends in a line feed or in a carriage return
/// and a line feed, which do not belong to it. What follows the last line feed is a
/// line where it is not empty.
pub open spec fn lines(s: Seq<char>) -> Seq<Seq<char>>
    decreases s.len(),
{
    let n = prefix_len(s, other_than('\n')) as int;
    if s.len() == 0 {
        seq![]
    } else if n >= s.len() {
        seq![s]
    } else {
        seq![without_return(s.take(n))] + lines(s.skip(n + 1))
    }
}

/// Whether `part` stands in `s` at `i`.
pub open spec fn stands_at(s: Seq<char>, part: Seq<char>, i: int) -> bool {
    0 <= i && i + part.len() <= s.len() && s.subrange(i, i + part.len()) == part
}

/// Whether `part` first stands in `s` at `i`.
pub open spec fn first_stands_at(s: Seq<char>, part: Seq<char>, i: int) -> bool {
    stands_at(s, part, i) && forall|j: int| 0 <= j < i ==> !#[trigger] stands_at(s, part, j)
}

/// The setting of a line: behind four spaces, its name and its value, with the first
/// ` = ` between.
pub open spec fn is_setting(line: Seq<char>, name: Seq<char>, value: Seq<char>) -> bool {
    &&& stands_at(line, "    "@, 0)
    &&& line.skip(4) == name + " = "@ + value
    &&& first_stands_at(line.skip(4), " = "@, name.len() as int)
}

/// `vars` after the setting of `line`, if it has one.
pub open spec fn with_line(
    vars: Map<Seq<char>, Seq<char>>,
    line: Seq<char>,
) -> Map<Seq<char>, Seq<char>> {
    if exists|name: Seq<char>, value: Seq<char>| is_setting(line, name, value) {
        let (name, value) = choose|name: Seq<char>, value: Seq<char>|
            is_setting(line, name, value);
        vars.insert(name, value)
    } else {
        vars
    }
}

/// The settings of the lines. Where a name is set more than once, the last one counts.
pub open spec fn settings(lines: Seq<Seq<char>>) -> Map<Seq<char>, Seq<char>>
    decreases lines.len(),
{
    if lines.len() == 0 {
        Map::empty()
    } else {
        with_line(settings(lines.drop_last()), lines.last())
    }
}

/// A line has at most one setting.
proof fn lemma_one_setting(
    line: Seq<char>,
    name: Seq<char>,
    value: Seq<char>,
    other_name: Seq<char>,
    other_value: Seq<char>,
)
    requires
        is_setting(line, name, value),
        is_setting(line, other_name, other_value),
    ensures
        name == other_name,
        value == other_value,
{
    let s = line.skip(4);
    let n = name.len() as int;
    let m = other_name.len() as int;
    if n < m {
        assert(!stands_at(s, " = "@, n));
    }
    if m < n {
        assert(!stands_at(s, " = "@, m));
    }
    assert(name =~= s.take(n));
    assert(other_name =~= s.take(n));
    assert(value =~= s.skip(n + " = "@.len()));
    assert(other_value =~= s.skip(n + " = "@.len()));
}

/// A line that sets `name` to `value` gives `name` that value, whatever it had before,
/// and leaves the other names alone.
pub proof fn law_setting_read_back(
    vars: Map<Seq<char>, Seq<char>>,
    line: Seq<char>,
    name: Seq<char>,
    value: Seq<char>,
)
    requires
        is_setting(line, name, value),
    ensures
        with_line(vars, line) == vars.insert(name, value),
{
    let (n, v) = choose|n: Seq<char>, v: Seq<char>| is_setting(line, n, v);
    lemma_one_setting(line, name, value, n, v);
}

/// Whether `part` stands in `chars` at `i`.
fn standing(chars: &[char], part: &[char], i: usize) -> (found: bool)
    requires
        i <= chars@.len(),
    ensures
        found == stands_at(chars@, part@, i as int),
{
    if part.len() > chars.len() - i {
        return false;
    }
    let there = slice_subrange(chars, i, i + part.len());
    same_chars(there, part)
}

/// The setting of a line, if it has one.
fn parse_setting(line: &[char]) -> (setting: Option<(String, String)>)
    ensures
        match setting {
            Some((name, value)) => is_setting(line@, name@, value@),
            None => forall|name: Seq<char>, value: Seq<char>| !is_setting(line@, name, value),
        },
{
    let indent = to_chars("    ");
    let equals = to_chars(" = ");
    proof {
        reveal_strlit("    ");
        reveal_strlit(" = ");
    }
    if !standing(line, indent.as_slice(), 0) {
        return None;
    }
    let suffix = slice_subrange(line, 4, line.len());
    assert(suffix@ =~= line@.skip(4));
    let mut i: usize = 0;
    while i < suffix.len()
        invariant
            i <= suffix@.len(),
            equals@ == " = "@,
            " = "@.len() == 3,
            suffix@ == line@.skip(4),
            stands_at(line@, "    "@, 0),
            forall|j: int| 0 <= j < i ==> !#[trigger] stands_at(suffix@, " = "@, j),
        decreases suffix@.len() - i,
    {
        if standing(suffix, equals.as_slice(), i) {
            let name = slice_subrange(suffix, 0, i);
            let value = slice_subrange(suffix, i + 3, suffix.len());
            assert(suffix@ =~= name@ + suffix@.subrange(i as int, i + 3) + value@);
            assert(is_setting(line@, name@, value@));
            return Some((from_chars(name), from_chars(value)));
        }
        i = i + 1;
    }
    assert forall|name: Seq<char>, value: Seq<char>| !is_setting(line@, name, value) by {
        if is_setting(line@, name, value) {
            assert(stands_at(suffix@, " = "@, name.len() as int));
            assert(name.len() < suffix@.len());
        }
    }
    None
}

impl XcodeProjectInfo {
    /// The build settings of a target in a configuration, as `xcodebuild
    /// -showBuildSettings` put them out.
    pub fn get_build_vars(output: &[u8]) -> (vars: Result<BuildVars, OutputError>)
        ensures
            match vars {
                Ok(vars) => valid_utf8(output@) && vars@ == settings(lines(decode_utf8(output@))),
                Err(OutputError::NotUtf8) => !valid_utf8(output@),
            },
    {
        let chars = match std::str::from_utf8(output) {
            Ok(text) => to_chars(text),
            Err(_) => {
                return Err(OutputError::NotUtf8);
            },
        };
        let chars = chars.as_slice();
        let mut vars = BuildVars::new();
        let mut start: usize = 0;
        let ghost mut seen: Seq<Seq<char>> = seq![];
        assert(chars@.skip(0) =~= chars@);
        assert(seen + lines(chars@) =~= lines(chars@));
        while start < chars.len()
            invariant
                start <= chars@.len(),
                lines(chars@) == seen + lines(chars@.skip(start as int)),
                vars@ == settings(seen),
            decreases chars@.len() - start,
        {
            let ghost rest = chars@.skip(start as int);
            let end = position_of(chars, start, '\n');
            let mut stop: usize = end;
            let mut next: usize = end;
            if end < chars.len() {
                next = end + 1;
                if end > start && chars[end - 1] == '\r' {
                    stop = end - 1;
                }
            }
            let line = slice_subrange(chars, start, stop);
            proof {
                let n = end - start;
                if end == chars@.len() {
                    assert(line@ =~= rest);
                    assert(lines(rest) == seq![line@]);
                } else {
                    assert(rest.take(n) =~= chars@.subrange(start as int, end as int));
                    assert(line@ =~= without_return(rest.take(n)));
                    assert(rest.skip(n + 1) =~= chars@.skip(next as int));
                    assert(lines(rest) == seq![line@] + lines(chars@.skip(next as int)));
                }
                if end == chars@.len() {
                    assert(chars@.skip(next as int) =~= seq![]);
                    assert(lines(chars@.skip(next as int)) =~= seq![]);
                }
                assert(lines(chars@) =~= seen.push(line@) + lines(chars@.skip(next as int)));
                assert(seen.push(line@).drop_last() =~= seen);
            }
            match parse_setting(line) {
                Some((name, value)) => {
                    proof {
                        law_setting_read_back(vars@, line@, name@, value@);
                    }
                    vars.insert(name, value);
                },
                None => {},
            }
            proof {
                seen = seen.push(line@);
            }
            start = next;
        }
        assert(chars@.skip(start as int) =~= seq![]);
        assert(seen + lines(chars@.skip(start as int)) =~= seen);
        Ok(vars)
    }
}

/// Where a line sets a name, and no line behind it does, the name has the value of that
/// line.
pub proof fn law_last_setting_counts(
    lines: Seq<Seq<char>>,
    i: int,
    name: Seq<char>,
    value: Seq<char>,
)
    requires
        0 <= i < lines.len(),
        is_setting(lines[i], name, value),
        forall|j: int, v: Seq<char>|
            i < j < lines.len() ==> !#[trigger] is_setting(lines[j], name, v),
    ensures
        settings(lines).contains_key(name),
        settings(lines)[name] == value,
    decreases lines.len(),
{
    let init = lines.drop_last();
    let last = lines.last();
    if i == lines.len() - 1 {
        law_setting_read_back(settings(init), last, name, value);
    } else {
        assert forall|j: int, v: Seq<char>| i < j < init.len() implies !#[trigger] is_setting(
            init[j],
            name,
            v,
        ) by {
            assert(init[j] == lines[j]);
        }
        law_last_setting_counts(init, i, name, value);
        if exists|n: Seq<char>, v: Seq<char>| is_setting(last, n, v) {
            let (n, v) = choose|n: Seq<char>, v: Seq<char>| is_setting(last, n, v);
            assert(!is_setting(lines[lines.len() - 1], name, v));
        }
    }
}

/// The lines of a text make up the whole text: what stands before a line feed is a line,
/// without a carriage return at its end and even where it is empty, and the other lines
/// are those of what stands behind.
pub proof fn law_lines(line: Seq<char>, rest: Seq<char>)
    requires
        !line.contains('\n'),
    ensures
        line.len() == 0 || line.last() != '\r' ==> lines(line + seq!['\n'] + rest) == seq![line]
            + lines(rest),
        lines(line + seq!['\r', '\n'] + rest) == seq![line] + lines(rest),
        line.len() > 0 ==> lines(line) == seq![line],
        lines(Seq::<char>::empty()) == Seq::<Seq<char>>::empty(),
{
    assert forall|i: int| 0 <= i < line.len() implies other_than('\n')(#[trigger] line[i]) by {
        assert(line.contains(line[i]));
    }
    let s = line + seq!['\n'] + rest;
    let n = line.len() as int;
    assert forall|i: int| 0 <= i < n implies other_than('\n')(#[trigger] s[i]) by {
        assert(s[i] == line[i]);
    }
    lemma_prefix_len_is(s, other_than('\n'), n);
    assert(s.take(n) =~= line);
    assert(s.skip(n + 1) =~= rest);
    let t = line + seq!['\r', '\n'] + rest;
    assert forall|i: int| 0 <= i < n + 1 implies other_than('\n')(#[trigger] t[i]) by {
        if i < n {
            assert(t[i] == line[i]);
        }
    }
    lemma_prefix_len_is(t, other_than('\n'), n + 1);
    assert(t.take(n + 1).drop_last() =~= line);
    assert(t.skip(n + 2) =~= rest);
    lemma_prefix_len_is(line, other_than('\n'), n);
}

/// How many line feeds a text holds.
pub open spec fn line_feeds(s: Seq<char>) -> nat
    decreases s.len(),
{
    if s.len() == 0 {
        0
    } else if s.last() == '\n' {
        line_feeds(s.drop_last()) + 1
    } else {
        line_feeds(s.drop_last())
    }
}

proof fn lemma_line_feeds(a: Seq<char>, b: Seq<char>)
    ensures
        line_feeds(a + b) == line_feeds(a) + line_feeds(b),
        !a.contains('\n') ==> line_feeds(a) == 0,
    decreases a.len() + b.len(),
{
    if b.len() > 0 {
        assert((a + b).drop_last() =~= a + b.drop_last());
        lemma_line_feeds(a, b.drop_last());
    } else {
        assert(a + b =~= a);
        if a.len() > 0 {
            lemma_line_feeds(a.drop_last(), b);
            assert(a.contains(a.last()));
            if a.drop_last().contains('\n') {
                let i = choose|i: int| 0 <= i < a.len() - 1 && a.drop_last()[i] == '\n';
                assert(a[i] == '\n');
            }
        }
    }
}

/// A text has as many lines as line feeds, and one more where it does not end in one.
pub proof fn law_line_count(s: Seq<char>)
    ensures
        lines(s).len() == line_feeds(s) + if s.len() > 0 && s.last() != '\n' {
            1nat
        } else {
            0
        },
    decreases s.len(),
{
    let n = prefix_len(s, other_than('\n')) as int;
    lemma_prefix_len(s, other_than('\n'));
    if s.len() > 0 {
        let line = s.take(n);
        assert(!line.contains('\n')) by {
            if line.contains('\n') {
                let i = choose|i: int| 0 <= i < n && line[i] == '\n';
                assert(other_than('\n')(s[i]));
            }
        }
        if n >= s.len() {
            assert(line =~= s);
            assert(other_than('\n')(s[n - 1]));
            lemma_line_feeds(line, seq![]);
        } else {
            let rest = s.skip(n + 1);
            assert(s =~= line + seq!['\n'] + rest);
            law_line_count(rest);
            lemma_line_feeds(line + seq!['\n'], rest);
            lemma_line_feeds(line, seq!['\n']);
            assert(seq!['\n'].drop_last() =~= Seq::<char>::empty());
            assert(line_feeds(seq!['\n']) == 1) by {
                reveal_with_fuel(line_feeds, 2);
            }
            if rest.len() > 0 {
                assert(s.last() == rest.last());
            } else {
                assert(s.last() == s[n]);
            }
        }
    }
}

/// The lines of two texts, of which the first ends in a line feed, are those of the one and
/// then those of the other.
pub proof fn law_lines_joined(before: Seq<char>, after: Seq<char>)
    requires
        before.len() == 0 || before.last() == '\n',
    ensures
        lines(before + after) == lines(before) + lines(after),
    decreases before.len(),
{
    if before.len() == 0 {
        assert(before + after =~= after);
        assert(lines(before) + lines(after) =~= lines(after));
    } else {
        let p = other_than('\n');
        let n = prefix_len(before, p) as int;
        lemma_prefix_len(before, p);
        if n >= before.len() {
            assert(p(before[before.len() - 1]));
        }
        let whole = before + after;
        assert forall|i: int| 0 <= i < n implies p(#[trigger] whole[i]) by {
            assert(p(before[i]));
        }
        assert(whole[n] == before[n]);
        lemma_prefix_len_is(whole, p, n);
        let rest = before.skip(n + 1);
        assert(whole.skip(n + 1) =~= rest + after);
        assert(whole.take(n) =~= before.take(n));
        law_lines_joined(rest, after);
        assert(lines(whole) =~= lines(before) + lines(after));
    }
}

/// ` = ` stands at `j` exactly if its three characters do.
proof fn lemma_equals_at(s: Seq<char>, j: int)
    ensures
        stands_at(s, " = "@, j) <==> 0 <= j && j + 3 <= s.len() && s[j] == ' ' && s[j + 1] == '='
            && s[j + 2] == ' ',
        " = "@ == seq![' ', '=', ' '],
{
    reveal_strlit(" = ");
    assert(" = "@ =~= seq![' ', '=', ' ']);
    if 0 <= j && j + 3 <= s.len() {
        let there = s.subrange(j, j + 3);
        assert(there[0] == s[j] && there[1] == s[j + 1] && there[2] == s[j + 2]);
        if s[j] == ' ' && s[j + 1] == '=' && s[j + 2] == ' ' {
            assert(there =~= " = "@);
        }
    }
}

/// A line starts with four spaces exactly if it is four spaces and what follows them.
proof fn lemma_indent(line: Seq<char>)
    ensures
        stands_at(line, "    "@, 0) <==> line.len() >= 4 && line == seq![' ', ' ', ' ', ' ']
            + line.skip(4),
{
    reveal_strlit("    ");
    let indent = seq![' ', ' ', ' ', ' '];
    assert("    "@ =~= indent);
    if line.len() >= 4 {
        assert(line =~= line.subrange(0, 4) + line.skip(4));
        if line == indent + line.skip(4) {
            assert((indent + line.skip(4)).subrange(0, 4) =~= indent);
        }
    }
}

/// A line sets a name to a value exactly if it is four spaces, the name, ` = ` and the
/// value, and no ` = ` stands earlier.
pub proof fn law_setting_text(line: Seq<char>, name: Seq<char>, value: Seq<char>)
    ensures
        is_setting(line, name, value) <==> {
            let text = name + seq![' ', '=', ' '] + value;
            &&& line == seq![' ', ' ', ' ', ' '] + text
            &&& forall|j: int|
                #![trigger text[j]]
                0 <= j < name.len() ==> !(text[j] == ' ' && text[j + 1] == '=' && text[j + 2]
                    == ' ')
        },
{
    let indent = seq![' ', ' ', ' ', ' '];
    let text = name + seq![' ', '=', ' '] + value;
    let n = name.len() as int;
    lemma_indent(line);
    lemma_equals_at(text, n);
    assert(text[n] == ' ' && text[n + 1] == '=' && text[n + 2] == ' ');
    assert((indent + text).skip(4) =~= text);
    assert forall|j: int| #![trigger text[j]] 0 <= j < n implies stands_at(text, " = "@, j) == (
    text[j] == ' ' && text[j + 1] == '=' && text[j + 2] == ' ') by {
        lemma_equals_at(text, j);
    }
    if is_setting(line, name, value) {
        assert(line.skip(4) == text);
        assert forall|j: int| #![trigger text[j]] 0 <= j < n implies !(text[j] == ' ' && text[j + 1]
            == '=' && text[j + 2] == ' ') by {
            assert(!stands_at(text, " = "@, j));
        }
    }
    if line == indent + text && (forall|j: int|
        #![trigger text[j]]
        0 <= j < n ==> !(text[j] == ' ' && text[j + 1] == '=' && text[j + 2] == ' ')) {
        assert(line.skip(4) == text);
        assert forall|j: int| 0 <= j < n implies !#[trigger] stands_at(text, " = "@, j) by {
            assert(!(text[j] == ' ' && text[j + 1] == '=' && text[j + 2] == ' '));
        }
        assert(first_stands_at(text, " = "@, n));
    }
}

/// A line that is not four spaces, a text, ` = ` and another text sets nothing.
pub proof fn law_other_lines_ignored(vars: Map<Seq<char>, Seq<char>>, line: Seq<char>)
    requires
        forall|name: Seq<char>, value: Seq<char>|
            line != #[trigger] ("    "@ + (name + " = "@ + value)),
    ensures
        with_line(vars, line) == vars,
{
    if exists|name: Seq<char>, value: Seq<char>| is_setting(line, name, value) {
        let (name, value) = choose|name: Seq<char>, value: Seq<char>|
            is_setting(line, name, value);
        law_setting_text(line, name, value);
        reveal_strlit("    ");
        reveal_strlit(" = ");
        assert("    "@ =~= seq![' ', ' ', ' ', ' ']);
        assert(" = "@ =~= seq![' ', '=', ' ']);
        assert(line == "    "@ + (name + " = "@ + value));
    }
}

/// A name that no line sets has no value, and so without lines none has.
pub proof fn law_nothing_else_is_set(lines: Seq<Seq<char>>, name: Seq<char>)
    requires
        forall|j: int, v: Seq<char>|
            0 <= j < lines.len() ==> !#[trigger] is_setting(lines[j], name, v),
    ensures
        !settings(lines).contains_key(name),
    decreases lines.len(),
{
    if lines.len() > 0 {
        let init = lines.drop_last();
        let last = lines.last();
        assert forall|j: int, v: Seq<char>| 0 <= j < init.len() implies !#[trigger] is_setting(
            init[j],
            name,
            v,
        ) by {
            assert(init[j] == lines[j]);
        }
        law_nothing_else_is_set(init, name);
        if exists|n: Seq<char>, v: Seq<char>| is_setting(last, n, v) {
            let (n, v) = choose|n: Seq<char>, v: Seq<char>| is_setting(last, n, v);
            assert(!is_setting(lines[lines.len() - 1], name, v));
        }
    }
}

/// A setting is read wherever it stands in an output: behind whole lines of any kind, and
/// before others that do not set its name again.
pub proof fn law_setting_in_output(
    before: Seq<char>,
    name: Seq<char>,
    value: Seq<char>,
    after: Seq<char>,
)
    requires
        before.len() == 0 || before.last() == '\n',
        !name.contains('\n'),
        !value.contains('\n'),
        value.len() == 0 || value.last() != '\r',
        !name.contains('='),
        forall|j: int, v: Seq<char>|
            0 <= j < lines(after).len() ==> !#[trigger] is_setting(lines(after)[j], name, v),
    ensures
        ({
            let line = seq![' ', ' ', ' ', ' '] + (name + seq![' ', '=', ' '] + value);
            let vars = settings(lines(before + (line + seq!['\n'] + after)));
            vars.contains_key(name) && vars[name] == value
        }),
{
    let text = name + seq![' ', '=', ' '] + value;
    let line = seq![' ', ' ', ' ', ' '] + text;
    assert(!line.contains('\n')) by {
        if line.contains('\n') {
            let i = choose|i: int| 0 <= i < line.len() && line[i] == '\n';
            let n = name.len() as int;
            if 4 <= i < n + 4 {
                assert(name.contains(name[i - 4]));
            } else if i >= n + 7 {
                assert(value.contains(value[i - n - 7]));
            }
        }
    }
    law_lines(line, after);
    law_lines_joined(before, line + seq!['\n'] + after);
    let all = lines(before + (line + seq!['\n'] + after));
    let i = lines(before).len() as int;
    assert(all =~= lines(before) + (seq![line] + lines(after)));
    assert(all[i] == line);
    assert forall|j: int|
        #![trigger text[j]]
        0 <= j < name.len() implies !(text[j] == ' ' && text[j + 1] == '=' && text[j + 2]
        == ' ') by {
        if j + 1 < name.len() {
            assert(name.contains(name[j + 1]));
        }
    }
    law_setting_text(line, name, value);
    assert forall|j: int, v: Seq<char>| i < j < all.len() implies !#[trigger] is_setting(
        all[j],
        name,
        v,
    ) by {
        assert(all[j] == lines(after)[j - i - 1]);
    }
    law_last_setting_counts(all, i, name, value);
}

} // verus!
