//! Text as a sequence of characters: conversions, comparison, white space.

use vstd::prelude::*;

verus! {

/// `String::push` appends one character to the end of the text.
pub assume_specification[ String::push ](s: &mut String, c: char)
    ensures
        final(s)@ == old(s)@.push(c),
;

/// The characters of a text, in order.
pub fn to_chars(s: &str) -> (chars: Vec<char>)
    ensures
        chars@ == s@,
{
    let mut chars: Vec<char> = Vec::new();
    for c in it: s.chars()
        invariant
            it.seq() == s@,
            chars@ == s@.take(it.index() as int),
    {
        chars.push(c);
        assert(s@.take(it.index() as int + 1) =~= s@.take(it.index() as int).push(c));
    }
    assert(s@.take(s@.len() as int) =~= s@);
    chars
}

/// The text made of the given characters.
pub fn from_chars(chars: &[char]) -> (s: String)
    ensures
        s@ == chars@,
{
    let mut s = String::new();
    let mut i: usize = 0;
    while i < chars.len()
        invariant
            i <= chars@.len(),
            s@ == chars@.take(i as int),
        decreases chars@.len() - i,
    {
        s.push(chars[i]);
        assert(chars@.take(i as int + 1) =~= chars@.take(i as int).push(chars@[i as int]));
        i = i + 1;
    }
    assert(chars@.take(chars@.len() as int) =~= chars@);
    s
}

/// Whether two runs of characters are the same.
pub fn same_chars(a: &[char], b: &[char]) -> (same: bool)
    ensures
        same == (a@ == b@),
{
    if a.len() != b.len() {
        return false;
    }
    let mut i: usize = 0;
    while i < a.len()
        invariant
            i <= a@.len(),
            a@.len() == b@.len(),
            forall|j: int| 0 <= j < i ==> a@[j] == b@[j],
        decreases a@.len() - i,
    {
        if a[i] != b[i] {
            return false;
        }
        i = i + 1;
    }
    assert(a@ =~= b@);
    true
}

/// Whether two texts are the same, character by character.
pub fn same_text(a: &str, b: &str) -> (same: bool)
    ensures
        same == (a@ == b@),
{
    let a = to_chars(a);
    let b = to_chars(b);
    same_chars(a.as_slice(), b.as_slice())
}

/// The characters with the Unicode property White_Space.
pub open spec fn white_space(c: char) -> bool {
    ||| '\t' <= c <= '\r'
    ||| c == ' '
    ||| c == '\u{85}'
    ||| c == '\u{a0}'
    ||| c == '\u{1680}'
    ||| '\u{2000}' <= c <= '\u{200a}'
    ||| '\u{2028}' <= c <= '\u{2029}'
    ||| c == '\u{202f}'
    ||| c == '\u{205f}'
    ||| c == '\u{3000}'
}

/// Whether a character has the Unicode property White_Space.
pub fn is_white_space(c: char) -> (white: bool)
    ensures
        white == white_space(c),
{
    ('\t' <= c && c <= '\r') || c == ' ' || c == '\u{85}' || c == '\u{a0}' || c == '\u{1680}' || (
    '\u{2000}' <= c && c <= '\u{200a}') || ('\u{2028}' <= c && c <= '\u{2029}') || c == '\u{202f}'
        || c == '\u{205f}' || c == '\u{3000}'
}

/// Every character but `stop`.
pub open spec fn other_than(stop: char) -> spec_fn(char) -> bool {
    |c: char| c != stop
}

/// How many characters at the start of `s` satisfy `p`, one after the other.
pub open spec fn prefix_len(s: Seq<char>, p: spec_fn(char) -> bool) -> nat
    decreases s.len(),
{
    if s.len() == 0 || !p(s[0]) {
        0
    } else {
        1 + prefix_len(s.skip(1), p)
    }
}

/// The prefix that `prefix_len` measures is the longest one that satisfies `p`.
pub proof fn lemma_prefix_len(s: Seq<char>, p: spec_fn(char) -> bool)
    ensures
        prefix_len(s, p) <= s.len(),
        forall|i: int| 0 <= i < prefix_len(s, p) ==> p(#[trigger] s[i]),
        prefix_len(s, p) < s.len() ==> !p(s[prefix_len(s, p) as int]),
    decreases s.len(),
{
    if s.len() > 0 && p(s[0]) {
        let t = s.skip(1);
        lemma_prefix_len(t, p);
        assert forall|i: int| 0 <= i < prefix_len(s, p) implies p(#[trigger] s[i]) by {
            if i > 0 {
                assert(s[i] == t[i - 1]);
            }
        }
    }
}

/// A prefix that satisfies `p` and ends where `p` fails is the longest one.
pub proof fn lemma_prefix_len_is(s: Seq<char>, p: spec_fn(char) -> bool, n: int)
    requires
        0 <= n <= s.len(),
        forall|i: int| 0 <= i < n ==> p(#[trigger] s[i]),
        n < s.len() ==> !p(s[n]),
    ensures
        prefix_len(s, p) == n,
{
    lemma_prefix_len(s, p);
    let m = prefix_len(s, p) as int;
    if m < n {
        assert(p(s[m]));
    }
    if n < m {
        assert(p(s[n]));
    }
}

/// Where `stop` first stands at or after `from`; the end of the text if nowhere.
pub fn position_of(chars: &[char], from: usize, stop: char) -> (end: usize)
    requires
        from <= chars@.len(),
    ensures
        from <= end <= chars@.len(),
        end - from == prefix_len(chars@.skip(from as int), other_than(stop)),
{
    let mut end: usize = from;
    while end < chars.len() && chars[end] != stop
        invariant
            from <= end <= chars@.len(),
            forall|i: int| from <= i < end ==> #[trigger] chars@[i] != stop,
        decreases chars@.len() - end,
    {
        end = end + 1;
    }
    proof {
        lemma_prefix_len_is(chars@.skip(from as int), other_than(stop), end - from);
    }
    end
}

/// White space, as a predicate.
pub open spec fn white() -> spec_fn(char) -> bool {
    |c: char| white_space(c)
}

/// Everything but white space, as a predicate.
pub open spec fn black() -> spec_fn(char) -> bool {
    |c: char| !white_space(c)
}

/// The words of a text: its longest runs of characters that are no white space.
pub open spec fn words(s: Seq<char>) -> Seq<Seq<char>>
    decreases s.len(),
{
    let t = s.skip(prefix_len(s, white()) as int);
    let n = prefix_len(t, black()) as int;
    if n == 0 {
        seq![]
    } else {
        proof {
            lemma_prefix_len(s, white());
            lemma_prefix_len(t, black());
        }
        seq![t.take(n)] + words(t.skip(n))
    }
}

/// The words of a text, in order.
pub fn split_words(s: &str) -> (list: Vec<String>)
    ensures
        list@.map_values(|word: String| word@) == words(s@),
{
    let chars = to_chars(s);
    let chars = chars.as_slice();
    let mut list: Vec<String> = Vec::new();
    let mut i: usize = 0;
    let ghost mut seen: Seq<Seq<char>> = seq![];
    assert(chars@.skip(0) =~= chars@);
    assert(seen + words(chars@) =~= words(chars@));
    loop
        invariant
            i <= chars@.len(),
            chars@ == s@,
            list@.map_values(|word: String| word@) =~= seen,
            words(s@) == seen + words(chars@.skip(i as int)),
        decreases chars@.len() - i,
    {
        let ghost rest = chars@.skip(i as int);
        let mut start: usize = i;
        while start < chars.len() && is_white_space(chars[start])
            invariant
                i <= start <= chars@.len(),
                forall|j: int| i <= j < start ==> white_space(#[trigger] chars@[j]),
            decreases chars@.len() - start,
        {
            start = start + 1;
        }
        proof {
            lemma_prefix_len_is(rest, white(), start - i);
        }
        let ghost t = chars@.skip(start as int);
        assert(rest.skip(start - i) =~= t);
        let mut end: usize = start;
        while end < chars.len() && !is_white_space(chars[end])
            invariant
                start <= end <= chars@.len(),
                forall|j: int| start <= j < end ==> !white_space(#[trigger] chars@[j]),
            decreases chars@.len() - end,
        {
            end = end + 1;
        }
        proof {
            lemma_prefix_len_is(t, black(), end - start);
        }
        if end == start {
            assert(seen + words(rest) =~= seen);
            return list;
        }
        let word = vstd::slice::slice_subrange(chars, start, end);
        list.push(from_chars(word));
        proof {
            assert(word@ =~= t.take(end - start));
            assert(t.skip(end - start) =~= chars@.skip(end as int));
            assert(seen + words(rest) =~= seen.push(word@) + words(chars@.skip(end as int)));
            seen = seen.push(word@);
        }
        i = end;
    }
}

/// Whether `s` ends in `suffix`.
pub open spec fn ends_with(s: Seq<char>, suffix: Seq<char>) -> bool {
    suffix.len() <= s.len() && s.skip(s.len() - suffix.len()) == suffix
}

/// Whether `s` ends in `suffix`.
pub fn has_suffix(s: &str, suffix: &str) -> (found: bool)
    ensures
        found == ends_with(s@, suffix@),
{
    let s = to_chars(s);
    let suffix = to_chars(suffix);
    if suffix.len() > s.len() {
        return false;
    }
    let end = vstd::slice::slice_subrange(s.as_slice(), s.len() - suffix.len(), s.len());
    assert(end@ =~= s@.skip(s@.len() - suffix@.len()));
    same_chars(end, suffix.as_slice())
}

/// White space is what Unicode lists under the property White_Space: five control
/// characters, the space, and spaces and separators of other scripts.
pub proof fn law_white_space(c: char)
    ensures
        white_space(c) <==> {
            let n = c as u32;
            ||| 9 <= n <= 13
            ||| n == 32
            ||| n == 0x85
            ||| n == 0xa0
            ||| n == 0x1680
            ||| 0x2000 <= n <= 0x200a
            ||| n == 0x2028
            ||| n == 0x2029
            ||| n == 0x202f
            ||| n == 0x205f
            ||| n == 0x3000
        },
{
}

/// The first word of a text is what stands behind white space, up to the next white space,
/// and the other words are those of the rest. White space alone has no words.
pub proof fn law_first_word(gap: Seq<char>, word: Seq<char>, rest: Seq<char>)
    requires
        forall|i: int| 0 <= i < gap.len() ==> white_space(#[trigger] gap[i]),
        word.len() > 0,
        forall|i: int| 0 <= i < word.len() ==> !white_space(#[trigger] word[i]),
        rest.len() > 0 ==> white_space(rest[0]),
    ensures
        words(gap + word + rest) == seq![word] + words(rest),
        words(gap) == Seq::<Seq<char>>::empty(),
{
    let s = gap + word + rest;
    let t = word + rest;
    lemma_prefix_len_is(s, white(), gap.len() as int);
    assert(s.skip(gap.len() as int) =~= t);
    lemma_prefix_len_is(t, black(), word.len() as int);
    assert(t.take(word.len() as int) =~= word);
    assert(t.skip(word.len() as int) =~= rest);
    lemma_prefix_len_is(gap, white(), gap.len() as int);
    assert(gap.skip(gap.len() as int) =~= seq![]);
}

/// A text ends in another one exactly if it is some text followed by that one.
pub proof fn law_ends_with(s: Seq<char>, suffix: Seq<char>)
    ensures
        ends_with(s, suffix) <==> exists|stem: Seq<char>| s == #[trigger] (stem + suffix),
{
    if ends_with(s, suffix) {
        assert(s =~= s.take(s.len() - suffix.len()) + suffix);
    }
    assert forall|stem: Seq<char>| s == #[trigger] (stem + suffix) implies ends_with(
        s,
        suffix,
    ) by {
        assert(s.skip(s.len() - suffix.len()) =~= suffix);
    }
}

} // verus!
