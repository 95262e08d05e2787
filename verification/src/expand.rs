//! Replacing the variables that a text refers to by their values.

use crate::text::{
    from_chars, law_white_space, lemma_prefix_len, lemma_prefix_len_is, other_than, position_of,
    prefix_len, same_chars, to_chars, white_space,
};
use crate::vars::BuildVars;
use regex::Regex;
use vstd::prelude::*;

verus! {

/// Characters that are replaced where a value has to be an identifier.
pub open spec fn separator(c: char) -> bool {
    white_space(c) || c == '/'
}

/// The separators, as a predicate.
pub open spec fn separators() -> spec_fn(char) -> bool {
    |c: char| separator(c)
}

/// `s` with every longest run of separators replaced by `replacement`.
pub open spec fn separators_replaced(s: Seq<char>, replacement: Seq<char>) -> Seq<char>
    decreases s.len(),
{
    let run = prefix_len(s, separators());
    if s.len() == 0 {
        seq![]
    } else if run == 0 {
        seq![s[0]] + separators_replaced(s.skip(1), replacement)
    } else {
        proof {
            lemma_prefix_len(s, separators());
        }
        replacement + separators_replaced(s.skip(run as int), replacement)
    }
}

/// The pattern of a run of separators.
pub const SEPARATORS: &'static str = r"[\s/]+";

/// `Regex::new` followed by `Regex::replace_all`, on the pattern of a run of
/// separators. `\s` is a character with the property White_Space, so that a match
/// is a longest run of separators; all matches are replaced, from left to right.
/// A replacement without `$` is taken as it is.
#[verifier::external_body]
fn replace_all(pattern: &str, text: &str, replacement: &str) -> (replaced: String)
    requires
        pattern@ == SEPARATORS@,
        !replacement@.contains('$'),
    ensures
        replaced@ == separators_replaced(text@, replacement@),
{
    Regex::new(pattern).unwrap().replace_all(text, replacement).into_owned()
}

/// The characters of a variable's name that needs no brackets.
pub open spec fn word_char(c: char) -> bool {
    'a' <= c <= 'z' || 'A' <= c <= 'Z' || '0' <= c <= '9' || c == '_'
}

/// The word characters, as a predicate.
pub open spec fn word_chars() -> spec_fn(char) -> bool {
    |c: char| word_char(c)
}

/// What stands between an opening bracket at the start of `t` and the first
/// `close` after it, if there is such a `close` and something stands between.
pub open spec fn bracketed(t: Seq<char>, close: char) -> Option<Seq<char>> {
    let inner = t.skip(1);
    let n = prefix_len(inner, other_than(close));
    if 0 < n < inner.len() {
        Some(inner.take(n as int))
    } else {
        None
    }
}

/// The reference to a variable that stands behind a `$`, at the start of `t`: the
/// key that it looks up, and how many characters it takes.
pub open spec fn reference(t: Seq<char>) -> Option<(Seq<char>, int)> {
    let n = prefix_len(t, word_chars());
    if n > 0 {
        Some((t.take(n as int), n as int))
    } else if t.len() > 0 && t[0] == '(' {
        match bracketed(t, ')') {
            Some(key) => Some((key, key.len() as int + 2)),
            None => None,
        }
    } else if t.len() > 0 && t[0] == '{' {
        match bracketed(t, '}') {
            Some(key) => Some((key, key.len() as int + 2)),
            None => None,
        }
    } else {
        None
    }
}

/// A reference takes at least one character, and its key is part of the text.
pub proof fn lemma_reference(t: Seq<char>)
    ensures
        match reference(t) {
            Some((key, n)) => 0 < n <= t.len() && 0 < key.len() <= n,
            None => true,
        },
{
    lemma_prefix_len(t, word_chars());
    lemma_prefix_len(t.skip(1), other_than(')'));
    lemma_prefix_len(t.skip(1), other_than('}'));
}

/// The value of a key: a name, or a name and a modifier with a `:` between. A
/// variable without a value counts as empty.
pub open spec fn key_value(key: Seq<char>, vars: Map<Seq<char>, Seq<char>>) -> Seq<char> {
    let n = prefix_len(key, other_than(':')) as int;
    let name = key.take(n);
    let value = if key.len() > 0 && vars.contains_key(name) {
        vars[name]
    } else {
        seq![]
    };
    if n < key.len() && key.skip(n + 1) == "rfc1034identifier"@ {
        separators_replaced(value, "-"@)
    } else if n < key.len() && key.skip(n + 1) == "identifier"@ {
        separators_replaced(value, "_"@)
    } else {
        value
    }
}

/// `s` with its references to variables replaced by their values. `$$` stands for
/// `$`; a `$` that is followed by neither stays.
pub open spec fn expanded(s: Seq<char>, vars: Map<Seq<char>, Seq<char>>) -> Seq<char>
    decreases s.len(),
{
    if s.len() == 0 {
        seq![]
    } else if s[0] != '$' {
        seq![s[0]] + expanded(s.skip(1), vars)
    } else if s.len() > 1 && s[1] == '$' {
        seq!['$'] + expanded(s.skip(2), vars)
    } else {
        match reference(s.skip(1)) {
            Some((key, n)) => {
                proof {
                    lemma_reference(s.skip(1));
                }
                key_value(key, vars) + expanded(s.skip(n + 1), vars)
            },
            None => seq!['$'] + expanded(s.skip(1), vars),
        }
    }
}

/// The end of the run of word characters that starts at `from`.
fn word_end(chars: &[char], from: usize) -> (end: usize)
    requires
        from <= chars@.len(),
    ensures
        from <= end <= chars@.len(),
        end - from == prefix_len(chars@.skip(from as int), word_chars()),
{
    let mut end: usize = from;
    while end < chars.len() && (('a' <= chars[end] && chars[end] <= 'z') || ('A' <= chars[end]
        && chars[end] <= 'Z') || ('0' <= chars[end] && chars[end] <= '9') || chars[end] == '_')
        invariant
            from <= end <= chars@.len(),
            forall|i: int| from <= i < end ==> word_char(#[trigger] chars@[i]),
        decreases chars@.len() - end,
    {
        end = end + 1;
    }
    proof {
        lemma_prefix_len_is(chars@.skip(from as int), word_chars(), end - from);
    }
    end
}

/// The reference that starts at `at`, behind a `$`: where its key starts and ends,
/// and where the reference ends.
fn find_reference(chars: &[char], at: usize) -> (found: Option<(usize, usize, usize)>)
    requires
        at <= chars@.len(),
    ensures
        match found {
            Some((start, end, next)) => {
                &&& at <= start <= end <= next <= chars@.len()
                &&& reference(chars@.skip(at as int)) == Some(
                    (chars@.subrange(start as int, end as int), next - at),
                )
            },
            None => reference(chars@.skip(at as int)) is None,
        },
{
    let ghost t = chars@.skip(at as int);
    let end = word_end(chars, at);
    if end > at {
        assert(t.take(end - at) =~= chars@.subrange(at as int, end as int));
        return Some((at, end, end));
    }
    if at == chars.len() {
        return None;
    }
    let close = if chars[at] == '(' {
        ')'
    } else if chars[at] == '{' {
        '}'
    } else {
        return None;
    };
    let end = position_of(chars, at + 1, close);
    assert(t.skip(1) =~= chars@.skip(at as int + 1));
    if end > at + 1 && end < chars.len() {
        assert(t.skip(1).take(end - at - 1) =~= chars@.subrange(at as int + 1, end as int));
        Some((at + 1, end, end + 1))
    } else {
        None
    }
}

/// The value of a key.
fn resolve(key: &[char], vars: &BuildVars) -> (value: String)
    ensures
        value@ == key_value(key@, vars@),
{
    let end = position_of(key, 0, ':');
    assert(key@.skip(0) =~= key@);
    if key.len() == 0 {
        return String::new();
    }
    let name = from_chars(vstd::slice::slice_subrange(key, 0, end));
    assert(name@ =~= key@.take(end as int));
    let value = match vars.get(name.as_str()) {
        Some(value) => value.clone(),
        None => String::new(),
    };
    if end == key.len() {
        return value;
    }
    let modifier = vstd::slice::slice_subrange(key, end + 1, key.len());
    assert(modifier@ =~= key@.skip(end as int + 1));
    if same_chars(modifier, to_chars("rfc1034identifier").as_slice()) {
        proof {
            reveal_strlit("-");
        }
        replace_all(SEPARATORS, value.as_str(), "-")
    } else if same_chars(modifier, to_chars("identifier").as_slice()) {
        proof {
            reveal_strlit("_");
        }
        replace_all(SEPARATORS, value.as_str(), "_")
    } else {
        value
    }
}

/// Replaces the variables that `s` refers to by their values. A reference is a name
/// behind a `$`, bare or in round or curly brackets; a key in brackets may end in
/// `:identifier` or `:rfc1034identifier`, which turns the value into an identifier.
pub fn expand_xcodevars(s: &str, vars: &BuildVars) -> (text: String)
    ensures
        text@ == expanded(s@, vars@),
{
    let chars = to_chars(s);
    let chars = chars.as_slice();
    let mut text = String::new();
    let mut i: usize = 0;
    assert(chars@.skip(0) =~= chars@);
    while i < chars.len()
        invariant
            i <= chars@.len(),
            expanded(chars@, vars@) == text@ + expanded(chars@.skip(i as int), vars@),
        decreases chars@.len() - i,
    {
        let ghost rest = chars@.skip(i as int);
        let ghost before = text@;
        if chars[i] != '$' {
            text.push(chars[i]);
            assert(rest.skip(1) =~= chars@.skip(i as int + 1));
            assert(text@ =~= before + seq![rest[0]]);
            i = i + 1;
        } else if i + 1 < chars.len() && chars[i + 1] == '$' {
            text.push('$');
            assert(rest.skip(2) =~= chars@.skip(i as int + 2));
            assert(text@ =~= before + seq!['$']);
            i = i + 2;
        } else {
            assert(rest.skip(1) =~= chars@.skip(i as int + 1));
            match find_reference(chars, i + 1) {
                Some((start, end, next)) => {
                    let value = resolve(vstd::slice::slice_subrange(chars, start, end), vars);
                    text.append(value.as_str());
                    proof {
                        lemma_reference(rest.skip(1));
                    }
                    assert(rest.skip(next - i) =~= chars@.skip(next as int));
                    i = next;
                },
                None => {
                    text.push('$');
                    assert(text@ =~= before + seq!['$']);
                    i = i + 1;
                },
            }
        }
        assert(expanded(chars@, vars@) =~= text@ + expanded(chars@.skip(i as int), vars@));
    }
    assert(chars@.skip(i as int) =~= Seq::<char>::empty());
    assert(text@ + expanded(chars@.skip(i as int), vars@) =~= text@);
    text
}

/// A text without `$` stays as it is, and so does what stands before the first `$`.
pub proof fn law_plain_text_kept(
    plain: Seq<char>,
    rest: Seq<char>,
    vars: Map<Seq<char>, Seq<char>>,
)
    requires
        !plain.contains('$'),
    ensures
        expanded(plain, vars) == plain,
        expanded(plain + rest, vars) == plain + expanded(rest, vars),
    decreases plain.len(),
{
    if plain.len() == 0 {
        assert(plain + rest =~= rest);
        assert(plain + expanded(rest, vars) =~= expanded(rest, vars));
    } else {
        let tail = plain.skip(1);
        assert(plain.contains(plain[0]));
        assert(!tail.contains('$')) by {
            if tail.contains('$') {
                let i = choose|i: int| 0 <= i < tail.len() && tail[i] == '$';
                assert(plain[i + 1] == '$');
            }
        }
        law_plain_text_kept(tail, rest, vars);
        assert((plain + rest).skip(1) =~= tail + rest);
        assert(seq![plain[0]] + tail =~= plain);
        assert(seq![plain[0]] + (tail + expanded(rest, vars)) =~= plain + expanded(rest, vars));
    }
}

/// A key in round brackets and the same key in curly brackets are replaced by the
/// same value, which is not expanded again.
pub proof fn law_brackets_alike(
    key: Seq<char>,
    rest: Seq<char>,
    vars: Map<Seq<char>, Seq<char>>,
)
    requires
        key.len() > 0,
        !key.contains(')'),
        !key.contains('}'),
    ensures
        expanded(seq!['$', '('] + key + seq![')'] + rest, vars) == key_value(key, vars) + expanded(
            rest,
            vars,
        ),
        expanded(seq!['$', '{'] + key + seq!['}'] + rest, vars) == key_value(key, vars) + expanded(
            rest,
            vars,
        ),
{
    lemma_bracketed('(', ')', key, rest);
    lemma_bracketed('{', '}', key, rest);
    let round = seq!['$', '('] + key + seq![')'] + rest;
    let curly = seq!['$', '{'] + key + seq!['}'] + rest;
    assert(prefix_len(round.skip(1), word_chars()) == 0);
    assert(prefix_len(curly.skip(1), word_chars()) == 0);
    assert(round.skip(key.len() as int + 3) =~= rest);
    assert(curly.skip(key.len() as int + 3) =~= rest);
}

/// The key of a reference in brackets is what stands between them.
proof fn lemma_bracketed(open: char, close: char, key: Seq<char>, rest: Seq<char>)
    requires
        key.len() > 0,
        !key.contains(close),
    ensures
        bracketed((seq!['$', open] + key + seq![close] + rest).skip(1), close) == Some(key),
{
    let t = (seq!['$', open] + key + seq![close] + rest).skip(1);
    let inner = t.skip(1);
    assert(inner =~= key + seq![close] + rest);
    assert forall|i: int| 0 <= i < key.len() implies other_than(close)(#[trigger] inner[i]) by {
        assert(key.contains(key[i]));
    }
    lemma_prefix_len_is(inner, other_than(close), key.len() as int);
    assert(inner.take(key.len() as int) =~= key);
}

/// A name behind a `$` is replaced by its value, up to the first character that cannot
/// belong to it.
pub proof fn law_bare_name(
    name: Seq<char>,
    rest: Seq<char>,
    vars: Map<Seq<char>, Seq<char>>,
)
    requires
        name.len() > 0,
        forall|i: int| 0 <= i < name.len() ==> word_char(#[trigger] name[i]),
        rest.len() > 0 ==> !word_char(rest[0]),
    ensures
        expanded(seq!['$'] + name + rest, vars) == key_value(name, vars) + expanded(rest, vars),
{
    let s = seq!['$'] + name + rest;
    let t = s.skip(1);
    assert(t =~= name + rest);
    lemma_prefix_len_is(t, word_chars(), name.len() as int);
    assert(t.take(name.len() as int) =~= name);
    assert(s[1] == name[0]);
    assert(s.skip(name.len() as int + 1) =~= rest);
}

/// A key is a name, whose value it stands for, or a name with a modifier. The modifiers
/// `rfc1034identifier` and `identifier` replace separators, and any other does nothing. A
/// name without a value counts as empty.
pub proof fn law_modifiers(
    name: Seq<char>,
    modifier: Seq<char>,
    vars: Map<Seq<char>, Seq<char>>,
)
    requires
        !name.contains(':'),
    ensures
        ({
            let value = if vars.contains_key(name) {
                vars[name]
            } else {
                seq![]
            };
            let key = name + seq![':'] + modifier;
            &&& name.len() > 0 ==> key_value(name, vars) == value
            &&& modifier == "rfc1034identifier"@ ==> key_value(key, vars) == separators_replaced(
                value,
                "-"@,
            )
            &&& modifier == "identifier"@ ==> key_value(key, vars) == separators_replaced(
                value,
                "_"@,
            )
            &&& modifier != "rfc1034identifier"@ && modifier != "identifier"@ ==> key_value(
                key,
                vars,
            ) == value
        }),
{
    let key = name + seq![':'] + modifier;
    assert forall|i: int| 0 <= i < name.len() implies other_than(':')(#[trigger] name[i]) by {
        assert(name.contains(name[i]));
    }
    assert forall|i: int| 0 <= i < name.len() implies other_than(':')(#[trigger] key[i]) by {
        assert(key[i] == name[i]);
    }
    lemma_prefix_len_is(name, other_than(':'), name.len() as int);
    lemma_prefix_len_is(key, other_than(':'), name.len() as int);
    assert(name.take(name.len() as int) =~= name);
    assert(key.take(name.len() as int) =~= name);
    assert(key.skip(name.len() as int + 1) =~= modifier);
    reveal_strlit("rfc1034identifier");
    reveal_strlit("identifier");
}

/// `$$` stands for one `$`.
pub proof fn law_dollar_escaped(rest: Seq<char>, vars: Map<Seq<char>, Seq<char>>)
    ensures
        expanded(seq!['$', '$'] + rest, vars) == seq!['$'] + expanded(rest, vars),
{
    assert((seq!['$', '$'] + rest).skip(2) =~= rest);
}

/// A value that was turned into an identifier holds no separator, and turning it
/// into an identifier once more changes nothing.
pub proof fn law_identifier_has_no_separator(value: Seq<char>, replacement: Seq<char>)
    requires
        forall|i: int| 0 <= i < replacement.len() ==> !separator(#[trigger] replacement[i]),
    ensures
        forall|i: int|
            0 <= i < separators_replaced(value, replacement).len() ==> !separator(
                #[trigger] separators_replaced(value, replacement)[i],
            ),
        separators_replaced(separators_replaced(value, replacement), replacement)
            == separators_replaced(value, replacement),
    decreases value.len(),
{
    lemma_no_separator(value, replacement);
    lemma_nothing_to_replace(separators_replaced(value, replacement), replacement);
}

proof fn lemma_no_separator(value: Seq<char>, replacement: Seq<char>)
    requires
        forall|i: int| 0 <= i < replacement.len() ==> !separator(#[trigger] replacement[i]),
    ensures
        forall|i: int|
            0 <= i < separators_replaced(value, replacement).len() ==> !separator(
                #[trigger] separators_replaced(value, replacement)[i],
            ),
    decreases value.len(),
{
    lemma_prefix_len(value, separators());
    let run = prefix_len(value, separators()) as int;
    if value.len() > 0 {
        let (head, tail) = if run == 0 {
            assert(!separators()(value[0]));
            lemma_no_separator(value.skip(1), replacement);
            (seq![value[0]], separators_replaced(value.skip(1), replacement))
        } else {
            lemma_no_separator(value.skip(run), replacement);
            (replacement, separators_replaced(value.skip(run), replacement))
        };
        let whole = separators_replaced(value, replacement);
        assert(whole == head + tail);
        assert forall|i: int| 0 <= i < whole.len() implies !separator(#[trigger] whole[i]) by {
            if i < head.len() {
                assert(whole[i] == head[i]);
            } else {
                assert(whole[i] == tail[i - head.len()]);
            }
        }
    }
}

proof fn lemma_nothing_to_replace(value: Seq<char>, replacement: Seq<char>)
    requires
        forall|i: int| 0 <= i < value.len() ==> !separator(#[trigger] value[i]),
    ensures
        separators_replaced(value, replacement) == value,
    decreases value.len(),
{
    if value.len() > 0 {
        lemma_nothing_to_replace(value.skip(1), replacement);
        assert(seq![value[0]] + value.skip(1) =~= value);
    }
}

/// A separator is a slash or a character with the Unicode property White_Space.
pub proof fn law_separator(c: char)
    ensures
        separator(c) <==> {
            let n = c as u32;
            ||| c == '/'
            ||| 9 <= n <= 13
            ||| n == 32
            ||| n == 0x85
            ||| n == 0xa0
            ||| n == 0x1680
            ||| 0x2000 <= n <= 0x200a
            ||| n == 0x2028
            ||| n == 0x2029
            ||| n == 0x202f
            ||| n == 0x205f
            ||| n == 0x3000
        },
{
    law_white_space(c);
}

/// A run of separators between other characters becomes the replacement, once however long
/// it is; what stands before it stays, and the rest is treated in the same way.
pub proof fn law_run_replaced(
    plain: Seq<char>,
    run: Seq<char>,
    rest: Seq<char>,
    replacement: Seq<char>,
)
    requires
        forall|i: int| 0 <= i < plain.len() ==> !separator(#[trigger] plain[i]),
        run.len() > 0,
        forall|i: int| 0 <= i < run.len() ==> separator(#[trigger] run[i]),
        rest.len() > 0 ==> !separator(rest[0]),
    ensures
        separators_replaced(plain, replacement) == plain,
        separators_replaced(plain + run + rest, replacement) == plain + replacement
            + separators_replaced(rest, replacement),
    decreases plain.len(),
{
    let s = plain + run + rest;
    if plain.len() == 0 {
        lemma_prefix_len_is(s, separators(), run.len() as int);
        assert(s.skip(run.len() as int) =~= rest);
        assert(separators_replaced(plain, replacement) =~= plain);
        assert(replacement + separators_replaced(rest, replacement) =~= plain + replacement
            + separators_replaced(rest, replacement));
    } else {
        let tail = plain.skip(1);
        assert forall|i: int| 0 <= i < tail.len() implies !separator(#[trigger] tail[i]) by {
            assert(tail[i] == plain[i + 1]);
        }
        law_run_replaced(tail, run, rest, replacement);
        assert(s[0] == plain[0]);
        lemma_prefix_len_is(s, separators(), 0);
        lemma_prefix_len_is(plain, separators(), 0);
        assert(s.skip(1) =~= tail + run + rest);
        assert(seq![plain[0]] + tail =~= plain);
        assert(seq![plain[0]] + (tail + replacement + separators_replaced(rest, replacement))
            =~= plain + replacement + separators_replaced(rest, replacement));
    }
}

/// A name without brackets is made of ASCII letters, digits and underscores.
pub proof fn law_word_char(c: char)
    ensures
        word_char(c) <==> {
            let n = c as u32;
            ||| 48 <= n <= 57
            ||| 65 <= n <= 90
            ||| n == 95
            ||| 97 <= n <= 122
        },
{
}

/// A reference in round brackets ends at the first closing round bracket, whatever other
/// characters its key holds.
pub proof fn law_round_brackets(
    key: Seq<char>,
    rest: Seq<char>,
    vars: Map<Seq<char>, Seq<char>>,
)
    requires
        key.len() > 0,
        !key.contains(')'),
    ensures
        expanded(seq!['$', '('] + key + seq![')'] + rest, vars) == key_value(key, vars) + expanded(
            rest,
            vars,
        ),
{
    lemma_bracketed('(', ')', key, rest);
    let s = seq!['$', '('] + key + seq![')'] + rest;
    assert(prefix_len(s.skip(1), word_chars()) == 0);
    assert(s.skip(key.len() as int + 3) =~= rest);
}

/// A reference in curly brackets ends at the first closing curly bracket, whatever other
/// characters its key holds.
pub proof fn law_curly_brackets(
    key: Seq<char>,
    rest: Seq<char>,
    vars: Map<Seq<char>, Seq<char>>,
)
    requires
        key.len() > 0,
        !key.contains('}'),
    ensures
        expanded(seq!['$', '{'] + key + seq!['}'] + rest, vars) == key_value(key, vars) + expanded(
            rest,
            vars,
        ),
{
    lemma_bracketed('{', '}', key, rest);
    let s = seq!['$', '{'] + key + seq!['}'] + rest;
    assert(prefix_len(s.skip(1), word_chars()) == 0);
    assert(s.skip(key.len() as int + 3) =~= rest);
}

/// A text that is nothing but a reference to a variable becomes that variable's value, in
/// round brackets, in curly ones, and without brackets where the name needs none.
pub proof fn law_variable(name: Seq<char>, vars: Map<Seq<char>, Seq<char>>)
    requires
        name.len() > 0,
        !name.contains(':'),
        vars.contains_key(name),
    ensures
        !name.contains(')') ==> expanded(seq!['$', '('] + name + seq![')'], vars) == vars[name],
        !name.contains('}') ==> expanded(seq!['$', '{'] + name + seq!['}'], vars) == vars[name],
        (forall|i: int| 0 <= i < name.len() ==> word_char(#[trigger] name[i])) ==> expanded(
            seq!['$'] + name,
            vars,
        ) == vars[name],
{
    let none = Seq::<char>::empty();
    law_modifiers(name, none, vars);
    assert(vars[name] + expanded(none, vars) =~= vars[name]);
    if !name.contains(')') {
        law_round_brackets(name, none, vars);
        assert(seq!['$', '('] + name + seq![')'] + none =~= seq!['$', '('] + name + seq![')']);
    }
    if !name.contains('}') {
        law_curly_brackets(name, none, vars);
        assert(seq!['$', '{'] + name + seq!['}'] + none =~= seq!['$', '{'] + name + seq!['}']);
    }
    if forall|i: int| 0 <= i < name.len() ==> word_char(#[trigger] name[i]) {
        law_bare_name(name, none, vars);
        assert(seq!['$'] + name + none =~= seq!['$'] + name);
    }
}

/// A `$` that no reference follows stays: at the end of a text, before a character that
/// starts none, before brackets with nothing between, and before a bracket that is not
/// closed.
pub proof fn law_lone_dollar(rest: Seq<char>, vars: Map<Seq<char>, Seq<char>>)
    ensures
        rest.len() == 0 || (!word_char(rest[0]) && rest[0] != '$' && rest[0] != '(' && rest[0]
            != '{') ==> expanded(seq!['$'] + rest, vars) == seq!['$'] + expanded(rest, vars),
        expanded(seq!['$', '(', ')'] + rest, vars) == seq!['$', '(', ')'] + expanded(rest, vars),
        expanded(seq!['$', '{', '}'] + rest, vars) == seq!['$', '{', '}'] + expanded(rest, vars),
        !rest.contains(')') ==> expanded(seq!['$', '('] + rest, vars) == seq!['$', '('] + expanded(
            rest,
            vars,
        ),
        !rest.contains('}') ==> expanded(seq!['$', '{'] + rest, vars) == seq!['$', '{'] + expanded(
            rest,
            vars,
        ),
{
    assert((seq!['$'] + rest).skip(1) =~= rest);
    lemma_stray_brackets('(', ')', rest, vars);
    lemma_stray_brackets('{', '}', rest, vars);
}

proof fn lemma_stray_brackets(
    open: char,
    close: char,
    rest: Seq<char>,
    vars: Map<Seq<char>, Seq<char>>,
)
    requires
        (open == '(' && close == ')') || (open == '{' && close == '}'),
    ensures
        expanded(seq!['$', open, close] + rest, vars) == seq!['$', open, close] + expanded(
            rest,
            vars,
        ),
        !rest.contains(close) ==> expanded(seq!['$', open] + rest, vars) == seq!['$', open]
            + expanded(rest, vars),
{
    let s = seq!['$', open, close] + rest;
    law_plain_text_kept(seq![open, close], rest, vars);
    assert(s.skip(1) =~= seq![open, close] + rest);
    assert(s.skip(1).skip(1) =~= seq![close] + rest);
    assert(bracketed(s.skip(1), close) is None);
    assert(seq!['$'] + (seq![open, close] + expanded(rest, vars)) =~= seq!['$', open, close]
        + expanded(rest, vars));
    if !rest.contains(close) {
        let s = seq!['$', open] + rest;
        law_plain_text_kept(seq![open], rest, vars);
        assert(s.skip(1) =~= seq![open] + rest);
        assert(s.skip(1).skip(1) =~= rest);
        assert forall|i: int| 0 <= i < rest.len() implies other_than(close)(#[trigger] rest[i]) by {
            assert(rest.contains(rest[i]));
        }
        lemma_prefix_len_is(rest, other_than(close), rest.len() as int);
        assert(bracketed(s.skip(1), close) is None);
        assert(seq!['$'] + (seq![open] + expanded(rest, vars)) =~= seq!['$', open] + expanded(
            rest,
            vars,
        ));
    }
}

} // verus!
