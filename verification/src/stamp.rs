//! Dates and times at the start of a log line, as far as their numbers go.
//!
//! A log line may start with a date, a time, or both, in one of several shapes. The
//! numbers in them are free in length; here it is told which lines hold one that is too
//! large to be part of a date.

use crate::calendar::CivilTime;
use crate::text::{lemma_prefix_len, lemma_prefix_len_is, prefix_len, to_chars};
use vstd::prelude::*;

verus! {

/// Whether `c` stands at `i`.
pub open spec fn at(s: Seq<char>, i: int, c: char) -> bool {
    0 <= i < s.len() && s[i] == c
}

/// A decimal digit.
pub open spec fn digit(c: char) -> bool {
    '0' <= c <= '9'
}

/// The digits, as a predicate.
pub open spec fn digits() -> spec_fn(char) -> bool {
    |c: char| digit(c)
}

/// Where the run of digits that starts at `i` ends.
pub open spec fn run_end(s: Seq<char>, i: int) -> int {
    if 0 <= i <= s.len() {
        i + prefix_len(s.skip(i), digits())
    } else {
        i
    }
}

/// Whether `n` digits stand from `i` on.
pub open spec fn digits_at(s: Seq<char>, i: int, n: int) -> bool {
    0 <= i && i + n <= s.len() && forall|j: int| i <= j < i + n ==> digit(#[trigger] s[j])
}

/// The number that a sequence of digits stands for.
pub open spec fn number(s: Seq<char>) -> nat
    decreases s.len(),
{
    if s.len() == 0 {
        0
    } else {
        10 * number(s.drop_last()) + (s.last() as nat - '0' as nat) as nat
    }
}

/// Whether the number between `i` and `j` is larger than `max`.
pub open spec fn exceeds(s: Seq<char>, i: int, j: int, max: nat) -> bool {
    number(s.subrange(i, j)) > max
}

/// Whether a time of day, as in `12:34:56`, stands at `i`.
pub open spec fn clock_at(s: Seq<char>, i: int) -> bool {
    &&& digits_at(s, i, 2)
    &&& at(s, i + 2, ':')
    &&& digits_at(s, i + 3, 2)
    &&& at(s, i + 5, ':')
    &&& digits_at(s, i + 6, 2)
}

/// Where the fraction of a second that may stand at `i` ends.
pub open spec fn fraction_end(s: Seq<char>, i: int) -> int {
    if at(s, i, '.') && run_end(s, i + 1) > i + 1 {
        run_end(s, i + 1)
    } else {
        i
    }
}

/// Whether the date or time ends at `i`: a closing bracket may stand there, and then
/// comes a tab or a space.
pub open spec fn closes_at(s: Seq<char>, i: int) -> bool {
    let j = if at(s, i, ']') {
        i + 1
    } else {
        i
    };
    at(s, j, '\t') || at(s, j, ' ')
}

/// Whether the three characters of `name` stand at `i`.
pub open spec fn name_at(s: Seq<char>, i: int, name: (char, char, char)) -> bool {
    at(s, i, name.0) && at(s, i + 1, name.1) && at(s, i + 2, name.2)
}

/// Whether the name of a weekday and a space stand at `i`.
pub open spec fn weekday_at(s: Seq<char>, i: int) -> bool {
    &&& at(s, i + 3, ' ')
    &&& {
        ||| name_at(s, i, ('M', 'o', 'n'))
        ||| name_at(s, i, ('T', 'u', 'e'))
        ||| name_at(s, i, ('W', 'e', 'd'))
        ||| name_at(s, i, ('T', 'h', 'u'))
        ||| name_at(s, i, ('F', 'r', 'i'))
        ||| name_at(s, i, ('S', 'a', 't'))
        ||| name_at(s, i, ('S', 'u', 'n'))
    }
}

/// Whether the name of a month and a space stand at `i`.
pub open spec fn month_at(s: Seq<char>, i: int) -> bool {
    &&& at(s, i + 3, ' ')
    &&& {
        ||| name_at(s, i, ('J', 'a', 'n'))
        ||| name_at(s, i, ('F', 'e', 'b'))
        ||| name_at(s, i, ('M', 'a', 'r'))
        ||| name_at(s, i, ('A', 'p', 'r'))
        ||| name_at(s, i, ('M', 'a', 'y'))
        ||| name_at(s, i, ('J', 'u', 'n'))
        ||| name_at(s, i, ('J', 'u', 'l'))
        ||| name_at(s, i, ('A', 'u', 'g'))
        ||| name_at(s, i, ('S', 'e', 'p'))
        ||| name_at(s, i, ('O', 'c', 't'))
        ||| name_at(s, i, ('N', 'o', 'v'))
        ||| name_at(s, i, ('D', 'e', 'c'))
    }
}

/// The space, as a predicate.
pub open spec fn spaces() -> spec_fn(char) -> bool {
    |c: char| c == ' '
}

/// Where the run of spaces that starts at `i` ends.
pub open spec fn spaces_end(s: Seq<char>, i: int) -> int {
    if 0 <= i <= s.len() {
        i + prefix_len(s.skip(i), spaces())
    } else {
        i
    }
}

/// Where a line starts, but for an opening bracket.
pub open spec fn start_of(s: Seq<char>) -> int {
    if at(s, 0, '[') {
        1
    } else {
        0
    }
}

/// Whether a clock time follows a day that ends at `e`, as in `Nov 20 21:56:01`, and
/// nothing else of the date.
pub open spec fn clock_follows(s: Seq<char>, e: int) -> bool {
    at(s, e, ' ') && clock_at(s, e + 1) && closes_at(s, fraction_end(s, e + 9))
}

/// Whether a clock time and a year of four digits follow a day that ends at `e`.
pub open spec fn clock_and_year_follow(s: Seq<char>, e: int) -> bool {
    let f = fraction_end(s, e + 9);
    at(s, e, ' ') && clock_at(s, e + 1) && at(s, f, ' ') && digits_at(s, f + 1, 4) && closes_at(
        s,
        f + 5,
    )
}

/// Whether a year of four digits and a clock time follow a day that ends at `e`.
pub open spec fn year_and_clock_follow(s: Seq<char>, e: int) -> bool {
    let g = if at(s, e, ',') {
        e + 1
    } else {
        e
    };
    at(s, g, ' ') && digits_at(s, g + 1, 4) && at(s, g + 5, ' ') && clock_at(s, g + 6)
        && closes_at(s, fraction_end(s, g + 14))
}

/// Where the day of a date whose month stands at `m` starts.
pub open spec fn day_start(s: Seq<char>, m: int) -> int {
    spaces_end(s, m + 3)
}

/// Where the day of a date whose month stands at `m` ends.
pub open spec fn day_end(s: Seq<char>, m: int) -> int {
    run_end(s, day_start(s, m))
}

/// Whether a date with its month at `m` stands there: the month's name, the day, and a
/// clock time, with a year or without.
pub open spec fn date_at(s: Seq<char>, m: int) -> bool {
    let d = day_start(s, m);
    let e = day_end(s, m);
    &&& month_at(s, m)
    &&& e > d
    &&& {
        ||| d == m + 4 && clock_follows(s, e)
        ||| clock_and_year_follow(s, e)
        ||| year_and_clock_follow(s, e)
    }
}

/// Whether a date with its month at `m` has a day that is too large.
pub open spec fn day_overflows(s: Seq<char>, m: int) -> bool {
    date_at(s, m) && exceeds(s, day_start(s, m), day_end(s, m), u32::MAX as nat)
}

/// Whether a date with a weekday, and its month at `m`, has a year that is too large.
pub open spec fn year_overflows(s: Seq<char>, m: int) -> bool {
    let d = day_start(s, m);
    let e = day_end(s, m);
    let f = fraction_end(s, e + 9);
    let y = run_end(s, f + 1);
    &&& month_at(s, m)
    &&& e > d
    &&& d == m + 4
    &&& at(s, e, ' ')
    &&& clock_at(s, e + 1)
    &&& at(s, f, ' ')
    &&& y > f + 1
    &&& closes_at(s, y)
    &&& exceeds(s, f + 1, y, i32::MAX as nat)
}

/// Whether three numbers with `mark` between them stand at `i`, and where the last one
/// ends.
pub open spec fn triple_end(s: Seq<char>, i: int, mark: char) -> Option<int> {
    let a = run_end(s, i);
    let b = run_end(s, a + 1);
    let c = run_end(s, b + 1);
    if a > i && at(s, a, mark) && b > a + 1 && at(s, b, mark) && c > b + 1 {
        Some(c)
    } else {
        None
    }
}

/// Whether one of the three numbers with a mark between them that stand at `i` is too
/// large.
pub open spec fn triple_overflows(s: Seq<char>, i: int) -> bool {
    let a = run_end(s, i);
    let b = run_end(s, a + 1);
    let c = run_end(s, b + 1);
    exceeds(s, i, a, u32::MAX as nat) || exceeds(s, a + 1, b, u32::MAX as nat) || exceeds(
        s,
        b + 1,
        c,
        u32::MAX as nat,
    )
}

/// Whether a time such as `22:07:10` at the start of a line has a number that is too
/// large.
pub open spec fn time_overflows(s: Seq<char>) -> bool {
    match triple_end(s, start_of(s), ':') {
        Some(c) => closes_at(s, c) && triple_overflows(s, start_of(s)),
        None => false,
    }
}

/// Whether the number of a month in two digits stands at `i`.
pub open spec fn month_number_at(s: Seq<char>, i: int) -> bool {
    digits_at(s, i, 2) && (s[i] == '0' && s[i + 1] != '0' || s[i] == '1' && s[i + 1] <= '2')
}

/// Whether the number of a day in two digits stands at `i`.
pub open spec fn day_number_at(s: Seq<char>, i: int) -> bool {
    digits_at(s, i, 2) && (s[i] == '0' && s[i + 1] != '0' || s[i] == '1' || s[i] == '2' || s[i]
        == '3' && s[i + 1] <= '1')
}

/// Whether the mark of a frame, such as `:542][  0]`, stands at `i`.
pub open spec fn frame_at(s: Seq<char>, i: int) -> bool {
    let r = run_end(s, i + 1);
    let n = spaces_end(s, r + 2);
    let e = run_end(s, n);
    at(s, i, ':') && r > i + 1 && at(s, r, ']') && at(s, r + 1, '[') && e > n && at(s, e, ']')
}

/// Whether a date such as `[2018.10.29-16.56.37:542][  0]` at the start of a line has a
/// number that is too large.
pub open spec fn frame_date_overflows(s: Seq<char>) -> bool {
    &&& at(s, 0, '[')
    &&& digits_at(s, 1, 4)
    &&& at(s, 5, '.')
    &&& month_number_at(s, 6)
    &&& at(s, 8, '.')
    &&& day_number_at(s, 9)
    &&& at(s, 11, '-')
    &&& match triple_end(s, 12, '.') {
        Some(c) => frame_at(s, c) && triple_overflows(s, 12),
        None => false,
    }
}

/// Whether a line starts with a date or a time that does not say in which zone it is, as
/// in `Nov 20 21:56:01` or `22:07:10`.
pub open spec fn local_time(s: Seq<char>) -> bool {
    let i = start_of(s);
    ||| date_at(s, i)
    ||| weekday_at(s, i) && date_at(s, i + 4)
    ||| match triple_end(s, i, ':') {
        Some(c) => closes_at(s, c),
        None => false,
    }
}

/// Where the text behind a date or time that ends at `i` starts.
pub open spec fn text_start(s: Seq<char>, i: int) -> int {
    if at(s, i, ']') {
        i + 2
    } else {
        i + 1
    }
}

/// The number of the month whose name stands at `m`, from 1 on.
pub open spec fn month_number(s: Seq<char>, m: int) -> int {
    if name_at(s, m, ('J', 'a', 'n')) {
        1
    } else if name_at(s, m, ('F', 'e', 'b')) {
        2
    } else if name_at(s, m, ('M', 'a', 'r')) {
        3
    } else if name_at(s, m, ('A', 'p', 'r')) {
        4
    } else if name_at(s, m, ('M', 'a', 'y')) {
        5
    } else if name_at(s, m, ('J', 'u', 'n')) {
        6
    } else if name_at(s, m, ('J', 'u', 'l')) {
        7
    } else if name_at(s, m, ('A', 'u', 'g')) {
        8
    } else if name_at(s, m, ('S', 'e', 'p')) {
        9
    } else if name_at(s, m, ('O', 'c', 't')) {
        10
    } else if name_at(s, m, ('N', 'o', 'v')) {
        11
    } else {
        12
    }
}

/// The number between `i` and `j`.
pub open spec fn number_at(s: Seq<char>, i: int, j: int) -> int {
    number(s.subrange(i, j)) as int
}

/// The date with its month at `m`, in the year `year`, and the time of day at `c`.
pub open spec fn civil_at(s: Seq<char>, m: int, c: int, year: int) -> CivilTime {
    CivilTime {
        year,
        month: month_number(s, m),
        day: number_at(s, day_start(s, m), day_end(s, m)),
        hour: number_at(s, c, c + 2),
        minute: number_at(s, c + 3, c + 5),
        second: number_at(s, c + 6, c + 8),
    }
}

/// Whether a date with its month at `m` may be read as `secs` seconds after the start of
/// 1970, with the text behind it at `k`. Where it names no year, the year is left open.
pub open spec fn date_reads_as(s: Seq<char>, m: int, k: int, secs: int) -> bool {
    let d = day_start(s, m);
    let e = day_end(s, m);
    let f = fraction_end(s, e + 9);
    let g = if at(s, e, ',') {
        e + 1
    } else {
        e
    };
    &&& month_at(s, m)
    &&& e > d
    &&& {
        ||| d == m + 4 && clock_follows(s, e) && k == text_start(s, f) && exists|year: int|
            (#[trigger] civil_at(s, m, e + 1, year)).near(secs)
        ||| clock_and_year_follow(s, e) && k == text_start(s, f + 5) && civil_at(
            s,
            m,
            e + 1,
            number_at(s, f + 1, f + 5),
        ).near(secs)
        ||| year_and_clock_follow(s, e) && k == text_start(s, fraction_end(s, g + 14)) && civil_at(
            s,
            m,
            g + 6,
            number_at(s, g + 1, g + 5),
        ).near(secs)
    }
}

/// Whether a date with a weekday, its month at `m`, and a year of any length at its end may
/// be read as `secs` seconds after the start of 1970, with the text behind it at `k`.
pub open spec fn long_date_reads_as(s: Seq<char>, m: int, k: int, secs: int) -> bool {
    let d = day_start(s, m);
    let e = day_end(s, m);
    let f = fraction_end(s, e + 9);
    let y = run_end(s, f + 1);
    &&& month_at(s, m)
    &&& e > d
    &&& d == m + 4
    &&& at(s, e, ' ')
    &&& clock_at(s, e + 1)
    &&& at(s, f, ' ')
    &&& y > f + 1
    &&& closes_at(s, y)
    &&& k == text_start(s, y)
    &&& civil_at(s, m, e + 1, number_at(s, f + 1, y)).near(secs)
}

/// Whether a time such as `22:07:10` at the start of a line is one of a day, and the text
/// behind it stands at `k`. The day is left open.
pub open spec fn time_reads_as(s: Seq<char>, k: int) -> bool {
    let i = start_of(s);
    let a = run_end(s, i);
    let b = run_end(s, a + 1);
    match triple_end(s, i, ':') {
        Some(c) => closes_at(s, c) && k == text_start(s, c) && number_at(s, i, a) < 24
            && number_at(s, a + 1, b) < 60 && number_at(s, b + 1, c) < 60,
        None => false,
    }
}

/// Whether a line that starts with a date or a time without a zone may be read as `secs`
/// seconds after the start of 1970, with the text behind the date or time at `k`. A date may
/// be read in more than one way: what follows the time of day can be a year, or the start
/// of the text.
pub open spec fn local_reads_as(s: Seq<char>, k: int, secs: int) -> bool {
    let i = start_of(s);
    ||| date_reads_as(s, i, k, secs)
    ||| weekday_at(s, i) && (date_reads_as(s, i + 4, k, secs) || long_date_reads_as(
        s,
        i + 4,
        k,
        secs,
    ))
    ||| time_reads_as(s, k)
}

/// Whether a line starts with a date or a time in which a number is too large: a year
/// above 2147483647, or another number above 4294967295.
pub open spec fn stamp_overflows(s: Seq<char>) -> bool {
    let i = start_of(s);
    ||| day_overflows(s, i)
    ||| weekday_at(s, i) && (day_overflows(s, i + 4) || year_overflows(s, i + 4))
    ||| time_overflows(s)
    ||| frame_date_overflows(s)
}

/// Whether `c` stands at `i`.
fn is_at(s: &[char], i: u128, c: char) -> (found: bool)
    ensures
        found == at(s@, i as int, c),
{
    i < s.len() as u128 && s[i as usize] == c
}

/// Whether `c` is a decimal digit.
fn is_digit(c: char) -> (found: bool)
    ensures
        found == digit(c),
{
    '0' <= c && c <= '9'
}

/// Where the run of digits that starts at `i` ends.
fn find_run_end(s: &[char], i: u128) -> (end: u128)
    ensures
        end == run_end(s@, i as int),
        i <= end,
        end <= i || (end <= s@.len() && end <= u64::MAX),
        forall|j: int| i <= j < end ==> 0 <= j < s@.len() && digit(#[trigger] s@[j]),
{
    if i > s.len() as u128 {
        return i;
    }
    let start = i as usize;
    let mut end: usize = start;
    while end < s.len() && is_digit(s[end])
        invariant
            start <= end <= s@.len(),
            forall|j: int| start <= j < end ==> digit(#[trigger] s@[j]),
        decreases s@.len() - end,
    {
        end = end + 1;
    }
    proof {
        lemma_prefix_len_is(s@.skip(start as int), digits(), end - start);
    }
    end as u128
}

/// Where the run of spaces that starts at `i` ends.
fn find_spaces_end(s: &[char], i: u128) -> (end: u128)
    ensures
        end == spaces_end(s@, i as int),
        i <= end,
        end <= i || (end <= s@.len() && end <= u64::MAX),
{
    if i > s.len() as u128 {
        return i;
    }
    let start = i as usize;
    let mut end: usize = start;
    while end < s.len() && s[end] == ' '
        invariant
            start <= end <= s@.len(),
            forall|j: int| start <= j < end ==> #[trigger] s@[j] == ' ',
        decreases s@.len() - end,
    {
        end = end + 1;
    }
    proof {
        lemma_prefix_len_is(s@.skip(start as int), spaces(), end - start);
    }
    end as u128
}

/// Whether `n` digits stand from `i` on.
fn are_digits_at(s: &[char], i: u128, n: usize) -> (found: bool)
    requires
        i <= u64::MAX + 100,
    ensures
        found == digits_at(s@, i as int, n as int),
{
    let len = s.len();
    if i + n as u128 > len as u128 {
        return false;
    }
    let start = i as usize;
    let mut k: usize = 0;
    while k < n
        invariant
            k <= n,
            start == i,
            start + n <= len,
            len == s@.len(),
            forall|j: int| start <= j < start + k ==> digit(#[trigger] s@[j]),
        decreases n - k,
    {
        if !is_digit(s[start + k]) {
            return false;
        }
        k = k + 1;
    }
    true
}

/// Whether the number between `i` and `j` is larger than `max`.
fn is_above(s: &[char], i: u128, j: u128, max: u64) -> (above: bool)
    requires
        i <= j <= s@.len(),
        max <= u32::MAX,
        forall|k: int| i <= k < j ==> digit(#[trigger] s@[k]),
    ensures
        above == exceeds(s@, i as int, j as int, max as nat),
{
    let len = s.len();
    let mut value: u64 = 0;
    let mut above = false;
    let mut k: usize = i as usize;
    let end: usize = j as usize;
    while k < end
        invariant
            i <= k <= j <= len,
            len == s@.len(),
            end == j,
            max <= u32::MAX,
            forall|k: int| i <= k < j ==> digit(#[trigger] s@[k]),
            above == (number(s@.subrange(i as int, k as int)) > max),
            !above ==> value == number(s@.subrange(i as int, k as int)),
        decreases j - k,
    {
        let ghost done = s@.subrange(i as int, k as int);
        let c = s[k];
        assert(s@.subrange(i as int, k as int + 1) =~= done.push(c));
        assert(done.push(c).drop_last() =~= done);
        if !above {
            value = 10 * value + (c as u64 - '0' as u64);
            above = value > max;
        }
        k = k + 1;
    }
    above
}

/// Whether a time of day stands at `i`.
fn is_clock_at(s: &[char], i: u128) -> (found: bool)
    requires
        i <= u64::MAX + 50,
    ensures
        found == clock_at(s@, i as int),
{
    are_digits_at(s, i, 2) && is_at(s, i + 2, ':') && are_digits_at(s, i + 3, 2) && is_at(
        s,
        i + 5,
        ':',
    ) && are_digits_at(s, i + 6, 2)
}

/// Where the fraction of a second that may stand at `i` ends.
fn find_fraction_end(s: &[char], i: u128) -> (end: u128)
    requires
        i <= u64::MAX + 50,
    ensures
        end == fraction_end(s@, i as int),
        i <= end <= u64::MAX + 50,
{
    if is_at(s, i, '.') {
        let end = find_run_end(s, i + 1);
        if end > i + 1 {
            return end;
        }
    }
    i
}

/// Whether the date or time ends at `i`.
fn is_closed_at(s: &[char], i: u128) -> (found: bool)
    requires
        i <= u64::MAX + 100,
    ensures
        found == closes_at(s@, i as int),
{
    let j: u128 = if is_at(s, i, ']') {
        i + 1
    } else {
        i
    };
    is_at(s, j, '\t') || is_at(s, j, ' ')
}

/// Whether three characters stand at `i`.
fn is_name_at(s: &[char], i: u128, a: char, b: char, c: char) -> (found: bool)
    requires
        i <= u64::MAX,
    ensures
        found == name_at(s@, i as int, (a, b, c)),
{
    is_at(s, i, a) && is_at(s, i + 1, b) && is_at(s, i + 2, c)
}

/// Whether the name of a weekday and a space stand at `i`.
fn is_weekday_at(s: &[char], i: u128) -> (found: bool)
    requires
        i <= u64::MAX,
    ensures
        found == weekday_at(s@, i as int),
{
    is_at(s, i + 3, ' ') && (is_name_at(s, i, 'M', 'o', 'n') || is_name_at(s, i, 'T', 'u', 'e')
        || is_name_at(s, i, 'W', 'e', 'd') || is_name_at(s, i, 'T', 'h', 'u') || is_name_at(
        s,
        i,
        'F',
        'r',
        'i',
    ) || is_name_at(s, i, 'S', 'a', 't') || is_name_at(s, i, 'S', 'u', 'n'))
}

/// Whether the name of a month and a space stand at `i`.
fn is_month_at(s: &[char], i: u128) -> (found: bool)
    requires
        i <= u64::MAX,
    ensures
        found == month_at(s@, i as int),
{
    is_at(s, i + 3, ' ') && (is_name_at(s, i, 'J', 'a', 'n') || is_name_at(s, i, 'F', 'e', 'b')
        || is_name_at(s, i, 'M', 'a', 'r') || is_name_at(s, i, 'A', 'p', 'r') || is_name_at(
        s,
        i,
        'M',
        'a',
        'y',
    ) || is_name_at(s, i, 'J', 'u', 'n') || is_name_at(s, i, 'J', 'u', 'l') || is_name_at(
        s,
        i,
        'A',
        'u',
        'g',
    ) || is_name_at(s, i, 'S', 'e', 'p') || is_name_at(s, i, 'O', 'c', 't') || is_name_at(
        s,
        i,
        'N',
        'o',
        'v',
    ) || is_name_at(s, i, 'D', 'e', 'c'))
}

/// Whether a date whose month stands at `m` has a day, or a year, that is too large.
fn is_date_too_large(s: &[char], m: u128, weekday: bool) -> (found: bool)
    requires
        m <= 10,
    ensures
        found == (day_overflows(s@, m as int) || weekday && year_overflows(s@, m as int)),
{
    if !is_month_at(s, m) {
        return false;
    }
    let d = find_spaces_end(s, m + 3);
    let e = find_run_end(s, d);
    if e == d {
        return false;
    }
    let clock = is_at(s, e, ' ') && is_clock_at(s, e + 1);
    let f = find_fraction_end(s, e + 9);
    if is_above(s, d, e, u32::MAX as u64) {
        if d == m + 4 && clock && is_closed_at(s, f) {
            return true;
        }
        if clock && is_at(s, f, ' ') && are_digits_at(s, f + 1, 4) && is_closed_at(s, f + 5) {
            return true;
        }
        let g: u128 = if is_at(s, e, ',') {
            e + 1
        } else {
            e
        };
        if is_at(s, g, ' ') && are_digits_at(s, g + 1, 4) && is_at(s, g + 5, ' ') && is_clock_at(
            s,
            g + 6,
        ) {
            let h = find_fraction_end(s, g + 14);
            if is_closed_at(s, h) {
                return true;
            }
        }
    }
    if weekday && d == m + 4 && clock && is_at(s, f, ' ') {
        let y = find_run_end(s, f + 1);
        return y > f + 1 && is_closed_at(s, y) && is_above(s, f + 1, y, i32::MAX as u64);
    }
    false
}

/// Where the three numbers with `mark` between them that stand at `i` end, and whether
/// one of them is too large.
fn find_triple(s: &[char], i: u128, mark: char) -> (found: Option<(u128, bool)>)
    requires
        i <= 20,
    ensures
        match found {
            Some((end, large)) => {
                &&& triple_end(s@, i as int, mark) == Some(end as int)
                &&& end <= s@.len()
                &&& large == triple_overflows(s@, i as int)
            },
            None => triple_end(s@, i as int, mark) is None,
        },
{
    let a = find_run_end(s, i);
    if a == i || !is_at(s, a, mark) {
        return None;
    }
    let b = find_run_end(s, a + 1);
    if b == a + 1 || !is_at(s, b, mark) {
        return None;
    }
    let c = find_run_end(s, b + 1);
    if c == b + 1 {
        return None;
    }
    let large = is_above(s, i, a, u32::MAX as u64) || is_above(s, a + 1, b, u32::MAX as u64)
        || is_above(s, b + 1, c, u32::MAX as u64);
    Some((c, large))
}

/// Whether a date with a frame at the start of a line has a number that is too large.
fn is_frame_date_too_large(s: &[char]) -> (found: bool)
    ensures
        found == frame_date_overflows(s@),
{
    if !(is_at(s, 0, '[') && are_digits_at(s, 1, 4) && is_at(s, 5, '.') && are_digits_at(s, 6, 2)
        && is_at(s, 8, '.') && are_digits_at(s, 9, 2) && is_at(s, 11, '-')) {
        return false;
    }
    if !(s[6] == '0' && s[7] != '0' || s[6] == '1' && s[7] <= '2') {
        return false;
    }
    if !(s[9] == '0' && s[10] != '0' || s[9] == '1' || s[9] == '2' || s[9] == '3' && s[10]
        <= '1') {
        return false;
    }
    match find_triple(s, 12, '.') {
        Some((c, large)) => {
            if !large || !is_at(s, c, ':') {
                return false;
            }
            let r = find_run_end(s, c + 1);
            let n = find_spaces_end(s, r + 2);
            let e = find_run_end(s, n);
            r > c + 1 && is_at(s, r, ']') && is_at(s, r + 1, '[') && e > n && is_at(s, e, ']')
        },
        None => false,
    }
}

/// Whether the numbers in the date or time that a line may start with are small enough
/// to be part of one.
pub fn stamp_fits(line: &str) -> (fits: bool)
    ensures
        fits == !stamp_overflows(line@),
{
    let chars = to_chars(line);
    let s = chars.as_slice();
    let i: u128 = if is_at(s, 0, '[') {
        1
    } else {
        0
    };
    if is_date_too_large(s, i, false) {
        return false;
    }
    if is_weekday_at(s, i) && is_date_too_large(s, i + 4, true) {
        return false;
    }
    match find_triple(s, i, ':') {
        Some((end, large)) => {
            if large && is_closed_at(s, end) {
                return false;
            }
        },
        None => {},
    }
    !is_frame_date_too_large(s)
}

/// A run of digits ends where no digit follows.
pub proof fn lemma_run_end(s: Seq<char>, i: int, n: int)
    requires
        0 <= i,
        0 <= n,
        i + n <= s.len(),
        forall|j: int| i <= j < i + n ==> digit(#[trigger] s[j]),
        i + n < s.len() ==> !digit(s[i + n]),
    ensures
        run_end(s, i) == i + n,
{
    let t = s.skip(i);
    assert forall|j: int| 0 <= j < n implies digits()(#[trigger] t[j]) by {
        assert(t[j] == s[i + j]);
    }
    lemma_prefix_len_is(t, digits(), n);
}

/// What stands up to the end of a run of digits is digits.
proof fn lemma_run(s: Seq<char>, i: int)
    requires
        0 <= i <= s.len(),
    ensures
        i <= run_end(s, i) <= s.len(),
        forall|j: int| i <= j < run_end(s, i) ==> digit(#[trigger] s[j]),
{
    let t = s.skip(i);
    lemma_prefix_len(t, digits());
    assert forall|j: int| i <= j < run_end(s, i) implies digit(#[trigger] s[j]) by {
        assert(digits()(t[j - i]));
    }
}

/// A run of spaces that is followed by something else ends there.
proof fn lemma_spaces_end(s: Seq<char>, i: int, n: int)
    requires
        0 <= i,
        0 <= n,
        i + n <= s.len(),
        forall|j: int| i <= j < i + n ==> #[trigger] s[j] == ' ',
        i + n < s.len() ==> s[i + n] != ' ',
    ensures
        spaces_end(s, i) == i + n,
{
    let t = s.skip(i);
    assert forall|j: int| 0 <= j < n implies spaces()(#[trigger] t[j]) by {
        assert(t[j] == s[i + j]);
    }
    lemma_prefix_len_is(t, spaces(), n);
}

/// Another digit behind a number makes it ten times as large, and adds its own value.
pub proof fn law_number(s: Seq<char>, c: char)
    requires
        '0' <= c <= '9',
    ensures
        number(Seq::<char>::empty()) == 0,
        number(s.push(c)) == 10 * number(s) + (c as int - '0' as int),
{
    assert(s.push(c).drop_last() =~= s);
}

/// Ten to the power of `n`.
spec fn power_of_ten(n: nat) -> nat
    decreases n,
{
    if n == 0 {
        1
    } else {
        10 * power_of_ten((n - 1) as nat)
    }
}

proof fn lemma_number_bound(s: Seq<char>)
    requires
        forall|i: int| 0 <= i < s.len() ==> digit(#[trigger] s[i]),
    ensures
        number(s) < power_of_ten(s.len()),
    decreases s.len(),
{
    if s.len() > 0 {
        assert(digit(s[s.len() - 1]));
        lemma_number_bound(s.drop_last());
    }
}

proof fn lemma_short_number(s: Seq<char>, i: int, j: int, max: nat)
    requires
        0 <= i <= j <= s.len(),
        j - i < 10,
        forall|k: int| i <= k < j ==> digit(#[trigger] s[k]),
        max >= 2147483647,
    ensures
        !exceeds(s, i, j, max),
{
    let t = s.subrange(i, j);
    assert forall|k: int| 0 <= k < t.len() implies digit(#[trigger] t[k]) by {
        assert(t[k] == s[i + k]);
    }
    lemma_number_bound(t);
    assert(power_of_ten(t.len()) <= 1000000000) by {
        reveal_with_fuel(power_of_ten, 10);
    }
}

/// In a text without ten digits in a row, a run of digits is no number that is too large.
proof fn lemma_short_run(s: Seq<char>, i: int, max: nat)
    requires
        forall|k: int| 0 <= k <= s.len() - 10 ==> !#[trigger] digits_at(s, k, 10),
        0 <= i <= s.len(),
        max >= 2147483647,
    ensures
        i <= run_end(s, i) <= s.len(),
        !exceeds(s, i, run_end(s, i), max),
{
    lemma_run(s, i);
    if run_end(s, i) - i >= 10 {
        assert(digits_at(s, i, 10));
    }
    lemma_short_number(s, i, run_end(s, i), max);
}

/// A line without ten digits in a row holds no number that is too large, whatever shape it
/// has.
pub proof fn law_short_numbers_fit(s: Seq<char>)
    requires
        forall|k: int| 0 <= k <= s.len() - 10 ==> !decimal((#[trigger] s.skip(k)).take(10)),
    ensures
        !stamp_overflows(s),
{
    assert forall|k: int| 0 <= k <= s.len() - 10 implies !#[trigger] digits_at(s, k, 10) by {
        let t = s.skip(k).take(10);
        if digits_at(s, k, 10) {
            assert forall|j: int| 0 <= j < 10 implies '0' <= #[trigger] t[j] <= '9' by {
                assert(digit(s[k + j]));
            }
            assert(decimal(t));
        }
    }
    let i = start_of(s);
    lemma_short_date(s, i);
    lemma_short_date(s, i + 4);
    lemma_short_triple(s, i, ':');
    lemma_short_triple(s, 12, '.');
}

proof fn lemma_short_date(s: Seq<char>, m: int)
    requires
        forall|k: int| 0 <= k <= s.len() - 10 ==> !#[trigger] digits_at(s, k, 10),
        0 <= m,
    ensures
        !day_overflows(s, m),
        !year_overflows(s, m),
{
    if month_at(s, m) {
        lemma_prefix_len(s.skip(m + 3), spaces());
        let d = day_start(s, m);
        lemma_short_run(s, d, u32::MAX as nat);
        let e = day_end(s, m);
        if year_overflows(s, m) {
            let f = fraction_end(s, e + 9);
            lemma_short_run(s, f + 1, i32::MAX as nat);
        }
    }
}

proof fn lemma_short_triple(s: Seq<char>, i: int, mark: char)
    requires
        forall|k: int| 0 <= k <= s.len() - 10 ==> !#[trigger] digits_at(s, k, 10),
        0 <= i,
    ensures
        triple_end(s, i, mark) is Some ==> !triple_overflows(s, i),
{
    if triple_end(s, i, mark) is Some {
        lemma_short_run(s, i, u32::MAX as nat);
        let a = run_end(s, i);
        lemma_short_run(s, a + 1, u32::MAX as nat);
        let b = run_end(s, a + 1);
        lemma_short_run(s, b + 1, u32::MAX as nat);
    }
}

/// Whether a text is a decimal number: one or more digits.
pub open spec fn decimal(s: Seq<char>) -> bool {
    s.len() > 0 && forall|i: int| 0 <= i < s.len() ==> '0' <= #[trigger] s[i] <= '9'
}

/// Numbers with a mark between them, from `i` on, end where they are said to.
proof fn lemma_triple(
    s: Seq<char>,
    i: int,
    a: Seq<char>,
    b: Seq<char>,
    c: Seq<char>,
    mark: char,
)
    requires
        decimal(a),
        decimal(b),
        decimal(c),
        !digit(mark),
        0 <= i,
        i + a.len() + b.len() + c.len() + 2 < s.len(),
        s.subrange(i, i + a.len() + b.len() + c.len() + 2) == a + seq![mark] + b + seq![mark] + c,
        !digit(s[i + a.len() + b.len() + c.len() + 2]),
    ensures
        triple_end(s, i, mark) == Some((i + a.len() + b.len() + c.len() + 2) as int),
        triple_overflows(s, i) == (number(a) > 4294967295 || number(b) > 4294967295 || number(c)
            > 4294967295),
        run_end(s, i) == i + a.len(),
{
    let n = a.len() + b.len() + c.len() + 2;
    let text = a + seq![mark] + b + seq![mark] + c;
    let t = s.subrange(i, i + n);
    assert forall|j: int| 0 <= j < n implies s[i + j] == #[trigger] text[j] by {
        assert(t[j] == s[i + j]);
    }
    let p = i + a.len();
    let q = p + 1 + b.len();
    assert forall|j: int| i <= j < p implies digit(#[trigger] s[j]) by {
        assert(s[j] == text[j - i] && text[j - i] == a[j - i]);
    }
    assert(s[p] == text[a.len() as int]);
    lemma_run_end(s, i, a.len() as int);
    assert forall|j: int| p + 1 <= j < q implies digit(#[trigger] s[j]) by {
        assert(s[j] == text[j - i] && text[j - i] == b[j - p - 1]);
    }
    assert(s[q] == text[q - i]);
    lemma_run_end(s, p + 1, b.len() as int);
    assert forall|j: int| q + 1 <= j < i + n implies digit(#[trigger] s[j]) by {
        assert(s[j] == text[j - i] && text[j - i] == c[j - q - 1]);
    }
    lemma_run_end(s, q + 1, c.len() as int);
    assert(s.subrange(i, p) =~= t.subrange(0, p - i));
    assert(text.subrange(0, p - i) =~= a);
    assert(s.subrange(p + 1, q) =~= t.subrange(p + 1 - i, q - i));
    assert(text.subrange(p + 1 - i, q - i) =~= b);
    assert(s.subrange(q + 1, i + n) =~= t.subrange(q + 1 - i, n as int));
    assert(text.subrange(q + 1 - i, n as int) =~= c);
}

/// A line that starts with three numbers, colons between them and a space behind, is one
/// with a time without its zone. One of its numbers is too large exactly if it is above
/// 4294967295.
pub proof fn law_time_of_day(a: Seq<char>, b: Seq<char>, c: Seq<char>, rest: Seq<char>)
    requires
        decimal(a),
        decimal(b),
        decimal(c),
    ensures
        ({
            let line = a + seq![':'] + b + seq![':'] + c + seq![' '] + rest;
            &&& local_time(line)
            &&& stamp_overflows(line) <==> number(a) > 4294967295 || number(b) > 4294967295
                || number(c) > 4294967295
        }),
{
    let line = a + seq![':'] + b + seq![':'] + c + seq![' '] + rest;
    let n = (a.len() + b.len() + c.len() + 2) as int;
    assert(line[0] == a[0]);
    assert(line.subrange(0, n) =~= a + seq![':'] + b + seq![':'] + c);
    assert(line[n] == ' ');
    lemma_triple(line, 0, a, b, c, ':');
}

/// The same time in square brackets.
pub proof fn law_bracketed_time_of_day(a: Seq<char>, b: Seq<char>, c: Seq<char>, rest: Seq<char>)
    requires
        decimal(a),
        decimal(b),
        decimal(c),
    ensures
        ({
            let line = seq!['['] + a + seq![':'] + b + seq![':'] + c + seq![']', ' '] + rest;
            &&& local_time(line)
            &&& stamp_overflows(line) <==> number(a) > 4294967295 || number(b) > 4294967295
                || number(c) > 4294967295
        }),
{
    let line = seq!['['] + a + seq![':'] + b + seq![':'] + c + seq![']', ' '] + rest;
    let n = (a.len() + b.len() + c.len() + 2) as int;
    assert(line[1] == a[0]);
    assert(line.subrange(1, 1 + n) =~= a + seq![':'] + b + seq![':'] + c);
    assert(line[n + 1] == ']');
    assert(line[n + 2] == ' ');
    lemma_triple(line, 1, a, b, c, ':');
    assert(!frame_date_overflows(line)) by {
        let k = a.len() as int;
        assert(line[k + 1] == ':');
        if k < 4 {
            assert(!digit(line[k + 1]));
        } else if k > 4 {
            assert(line[5] == a[4]);
        }
    }
}

/// Whether a text is a time of day such as `12:34:56`.
pub open spec fn clock(s: Seq<char>) -> bool {
    &&& s.len() == 8
    &&& decimal(s.subrange(0, 2))
    &&& s[2] == ':'
    &&& decimal(s.subrange(3, 5))
    &&& s[5] == ':'
    &&& decimal(s.subrange(6, 8))
}

/// Whether a text is the short name of a month.
pub open spec fn month_name(s: Seq<char>) -> bool {
    ||| s == seq!['J', 'a', 'n']
    ||| s == seq!['F', 'e', 'b']
    ||| s == seq!['M', 'a', 'r']
    ||| s == seq!['A', 'p', 'r']
    ||| s == seq!['M', 'a', 'y']
    ||| s == seq!['J', 'u', 'n']
    ||| s == seq!['J', 'u', 'l']
    ||| s == seq!['A', 'u', 'g']
    ||| s == seq!['S', 'e', 'p']
    ||| s == seq!['O', 'c', 't']
    ||| s == seq!['N', 'o', 'v']
    ||| s == seq!['D', 'e', 'c']
}

/// Whether a text is the short name of a weekday.
pub open spec fn weekday_name(s: Seq<char>) -> bool {
    ||| s == seq!['M', 'o', 'n']
    ||| s == seq!['T', 'u', 'e']
    ||| s == seq!['W', 'e', 'd']
    ||| s == seq!['T', 'h', 'u']
    ||| s == seq!['F', 'r', 'i']
    ||| s == seq!['S', 'a', 't']
    ||| s == seq!['S', 'u', 'n']
}

/// A date from `m` on: where its month, its day and its clock stand.
proof fn lemma_date(s: Seq<char>, m: int, month: Seq<char>, day: Seq<char>, time: Seq<char>)
    requires
        month_name(month),
        decimal(day),
        clock(time),
        0 <= m,
        m + day.len() + 13 < s.len(),
        s.subrange(m, m + day.len() + 14) == month + seq![' '] + day + seq![' '] + time + seq![' '],
    ensures
        month_at(s, m),
        !weekday_at(s, m),
        day_start(s, m) == m + 4,
        day_end(s, m) == m + 4 + day.len(),
        clock_follows(s, m + 4 + day.len()),
        fraction_end(s, m + day.len() + 13) == m + day.len() + 13,
        at(s, m + day.len() + 13, ' '),
        at(s, m + day.len() + 4, ' '),
        clock_at(s, m + day.len() + 5),
        date_at(s, m),
        s.subrange(m + 4, m + 4 + day.len()) == day,
{
    let n = day.len() as int;
    let text = month + seq![' '] + day + seq![' '] + time + seq![' '];
    let t = s.subrange(m, m + n + 14);
    assert(month.len() == 3);
    assert forall|j: int| 0 <= j < n + 14 implies s[m + j] == #[trigger] text[j] by {
        assert(t[j] == s[m + j]);
    }
    assert(s[m] == text[0] && s[m + 1] == text[1] && s[m + 2] == text[2] && s[m + 3] == text[3]);
    assert(text[0] == month[0] && text[1] == month[1] && text[2] == month[2] && text[3] == ' ');
    let e = m + 4 + n;
    assert forall|j: int| m + 4 <= j < e implies digit(#[trigger] s[j]) by {
        assert(s[j] == text[j - m] && text[j - m] == day[j - m - 4]);
    }
    assert(digit(s[m + 4]));
    lemma_spaces_end(s, m + 3, 1);
    assert(s[e] == text[n + 4]);
    lemma_run_end(s, m + 4, n);
    let u = s.subrange(e + 1, e + 9);
    assert(u =~= t.subrange(n + 5, n + 13));
    assert(text.subrange(n + 5, n + 13) =~= time);
    assert(time.subrange(0, 2)[0] == time[0] && time.subrange(0, 2)[1] == time[1]);
    assert(time.subrange(3, 5)[0] == time[3] && time.subrange(3, 5)[1] == time[4]);
    assert(time.subrange(6, 8)[0] == time[6] && time.subrange(6, 8)[1] == time[7]);
    assert(s[e + 1] == u[0] && s[e + 2] == u[1] && s[e + 3] == u[2] && s[e + 4] == u[3] && s[e + 5]
        == u[4] && s[e + 6] == u[5] && s[e + 7] == u[6] && s[e + 8] == u[7]);
    assert(s[e + 9] == text[n + 13]);
    assert(s.subrange(m + 4, e) =~= t.subrange(4, n + 4));
    assert(text.subrange(4, n + 4) =~= day);
}

/// A line that starts with a weekday, a month, a day, a time of day and a year is one with a
/// time without its zone. It holds a number that is too large exactly if the day is above
/// 4294967295 or the year above 2147483647.
pub proof fn law_date_with_year(
    weekday: Seq<char>,
    month: Seq<char>,
    day: Seq<char>,
    time: Seq<char>,
    year: Seq<char>,
    rest: Seq<char>,
)
    requires
        weekday_name(weekday),
        month_name(month),
        decimal(day),
        clock(time),
        decimal(year),
    ensures
        ({
            let line = weekday + seq![' '] + (month + seq![' '] + day + seq![' '] + time + seq![' '])
                + year + seq![' '] + rest;
            &&& local_time(line)
            &&& stamp_overflows(line) <==> number(day) > 4294967295 || number(year) > 2147483647
        }),
{
    let date = month + seq![' '] + day + seq![' '] + time + seq![' '];
    let line = weekday + seq![' '] + date + year + seq![' '] + rest;
    assert(weekday.len() == 3);
    assert(month.len() == 3);
    assert(date.len() == day.len() + 14);
    assert(line.subrange(4, day.len() as int + 18) =~= date);
    lemma_date(line, 4, month, day, time);
    assert(line[0] == weekday[0] && line[1] == weekday[1] && line[2] == weekday[2] && line[3]
        == ' ');
    assert(!month_at(line, 0));
    assert(weekday_at(line, 0));
    lemma_run_end(line, 0, 0);
    let f = day.len() as int + 17;
    let y = f + 1 + year.len();
    assert forall|j: int| f + 1 <= j < y implies digit(#[trigger] line[j]) by {
        assert(line[j] == year[j - f - 1]);
    }
    assert(line[y] == ' ');
    lemma_run_end(line, f + 1, year.len() as int);
    assert(line.subrange(f + 1, y) =~= year);
}

/// A line whose first number, perhaps behind an opening bracket, is not followed by a colon
/// holds no time without its zone.
pub proof fn law_number_without_colon(bracket: bool, a: Seq<char>, rest: Seq<char>)
    requires
        decimal(a),
        rest.len() > 0 ==> !('0' <= rest[0] <= '9') && rest[0] != ':',
    ensures
        ({
            let line = if bracket {
                seq!['['] + a + rest
            } else {
                a + rest
            };
            !local_time(line)
        }),
{
    let line = if bracket {
        seq!['['] + a + rest
    } else {
        a + rest
    };
    let i = if bracket {
        1int
    } else {
        0
    };
    assert(line[i] == a[0]);
    assert forall|j: int| i <= j < i + a.len() implies digit(#[trigger] line[j]) by {
        assert(line[j] == a[j - i]);
    }
    if rest.len() > 0 {
        assert(line[i + a.len()] == rest[0]);
    }
    lemma_run_end(line, i, a.len() as int);
}

/// The date before the time of day of a line with the mark of a frame.
proof fn lemma_frame_head(s: Seq<char>, year: Seq<char>, month: Seq<char>, day: Seq<char>)
    requires
        decimal(year) && year.len() == 4,
        decimal(month) && month.len() == 2 && 1 <= number(month) <= 12,
        decimal(day) && day.len() == 2 && 1 <= number(day) <= 31,
        s.len() >= 12,
        s.take(12) == seq!['['] + year + seq!['.'] + month + seq!['.'] + day + seq!['-'],
    ensures
        at(s, 0, '['),
        digits_at(s, 1, 4),
        at(s, 5, '.'),
        month_number_at(s, 6),
        at(s, 8, '.'),
        day_number_at(s, 9),
        at(s, 11, '-'),
{
    let head = seq!['['] + year + seq!['.'] + month + seq!['.'] + day + seq!['-'];
    assert forall|j: int| 0 <= j < 12 implies s[j] == #[trigger] head[j] by {
        assert(s.take(12)[j] == s[j]);
    }
    assert(s[0] == head[0] && s[5] == head[5] && s[8] == head[8] && s[11] == head[11]);
    assert(s[1] == head[1] && s[2] == head[2] && s[3] == head[3] && s[4] == head[4]);
    assert(head[1] == year[0] && head[2] == year[1] && head[3] == year[2] && head[4] == year[3]);
    assert(s[6] == head[6] && s[7] == head[7] && s[9] == head[9] && s[10] == head[10]);
    assert(head[6] == month[0] && head[7] == month[1]);
    assert(head[9] == day[0] && head[10] == day[1]);
    lemma_two_digits(month);
    lemma_two_digits(day);
}

/// The mark of a frame at `e`.
proof fn lemma_frame(s: Seq<char>, e: int, fraction: Seq<char>, frame: Seq<char>)
    requires
        decimal(fraction),
        decimal(frame),
        0 <= e,
        e + fraction.len() + frame.len() + 4 <= s.len(),
        s.subrange(e, e + fraction.len() + frame.len() + 4) == seq![':'] + fraction + seq![']', '[']
            + frame + seq![']'],
    ensures
        frame_at(s, e),
        s[e] == ':',
{
    let mark = seq![':'] + fraction + seq![']', '['] + frame + seq![']'];
    let n = fraction.len() + frame.len() + 4;
    let t = s.subrange(e, e + n);
    assert forall|j: int| 0 <= j < n implies s[e + j] == #[trigger] mark[j] by {
        assert(t[j] == s[e + j]);
    }
    let k = fraction.len() as int;
    let l = frame.len() as int;
    let r = e + 1 + k;
    assert(s[e] == mark[0]);
    assert forall|j: int| e + 1 <= j < r implies digit(#[trigger] s[j]) by {
        assert(s[j] == mark[j - e] && mark[j - e] == fraction[j - e - 1]);
    }
    assert(s[r] == mark[k + 1] && s[r + 1] == mark[k + 2]);
    lemma_run_end(s, e + 1, k);
    assert forall|j: int| r + 2 <= j < r + 2 + l implies digit(#[trigger] s[j]) by {
        assert(s[j] == mark[j - e] && mark[j - e] == frame[j - r - 2]);
    }
    assert(digit(s[r + 2]));
    lemma_spaces_end(s, r + 2, 0);
    assert(s[r + 2 + l] == mark[k + l + 3]);
    lemma_run_end(s, r + 2, l);
}

/// A line that starts with a date and the mark of a frame, such as
/// `[2018.10.29-16.56.37:542][0]`, is one with a zone. It holds a number that is too large
/// exactly if the hour, the minute or the second is above 4294967295.
pub proof fn law_frame_date(
    year: Seq<char>,
    month: Seq<char>,
    day: Seq<char>,
    a: Seq<char>,
    b: Seq<char>,
    c: Seq<char>,
    fraction: Seq<char>,
    frame: Seq<char>,
    rest: Seq<char>,
)
    requires
        decimal(year) && year.len() == 4,
        decimal(month) && month.len() == 2 && 1 <= number(month) <= 12,
        decimal(day) && day.len() == 2 && 1 <= number(day) <= 31,
        decimal(a) && decimal(b) && decimal(c) && decimal(fraction) && decimal(frame),
    ensures
        ({
            let date = seq!['['] + year + seq!['.'] + month + seq!['.'] + day + seq!['-'];
            let time = a + seq!['.'] + b + seq!['.'] + c;
            let mark = seq![':'] + fraction + seq![']', '['] + frame + seq![']'];
            let line = date + time + mark + rest;
            &&& !local_time(line)
            &&& stamp_overflows(line) <==> number(a) > 4294967295 || number(b) > 4294967295
                || number(c) > 4294967295
        }),
{
    let date = seq!['['] + year + seq!['.'] + month + seq!['.'] + day + seq!['-'];
    let time = a + seq!['.'] + b + seq!['.'] + c;
    let mark = seq![':'] + fraction + seq![']', '['] + frame + seq![']'];
    let line = date + time + mark + rest;
    assert(date.len() == 12);
    assert(line.take(12) =~= date);
    lemma_frame_head(line, year, month, day);
    let n = time.len() as int;
    assert(line.subrange(12, 12 + n) =~= time);
    assert(line.subrange(12 + n, 12 + n + mark.len()) =~= mark);
    lemma_frame(line, 12 + n, fraction, frame);
    lemma_triple(line, 12, a, b, c, '.');
    assert(digit(line[1]));
    assert(!digit(line[5]));
    lemma_run_end(line, 1, 4);
}

proof fn lemma_two_digits(s: Seq<char>)
    requires
        decimal(s),
        s.len() == 2,
    ensures
        number(s) == 10 * (s[0] as int - '0' as int) + (s[1] as int - '0' as int),
{
    reveal_with_fuel(number, 3);
    assert(digit(s[0]) && digit(s[1]));
    assert(s.drop_last().drop_last() =~= Seq::<char>::empty());
}

/// What stands before the month of a date: perhaps an opening bracket, perhaps a weekday and
/// a space.
pub open spec fn date_head(open: bool, weekday: Seq<char>) -> Seq<char> {
    (if open {
        seq!['[']
    } else {
        seq![]
    }) + (if weekday.len() > 0 {
        weekday + seq![' ']
    } else {
        seq![]
    })
}

/// Whether a text is what may stand behind a date: a tab or a space, perhaps behind a closing
/// bracket.
pub open spec fn closing(s: Seq<char>) -> bool {
    s == seq![' '] || s == seq!['\t'] || s == seq![']', ' '] || s == seq![']', '\t']
}

/// Whether a text is the fraction of a second: nothing, or a point and digits.
pub open spec fn fraction(s: Seq<char>) -> bool {
    s.len() == 0 || s[0] == '.' && decimal(s.skip(1))
}

/// Whether a text is one space or more.
pub open spec fn gap(s: Seq<char>) -> bool {
    s.len() > 0 && forall|i: int| 0 <= i < s.len() ==> #[trigger] s[i] == ' '
}

/// What is read of a line whose month stands behind `date_head`.
proof fn lemma_head(s: Seq<char>, open: bool, weekday: Seq<char>, m: int)
    requires
        weekday.len() == 0 || weekday_name(weekday),
        m == date_head(open, weekday).len(),
        m <= s.len(),
        s.take(m) == date_head(open, weekday),
        month_at(s, m),
    ensures
        date_at(s, m) ==> local_time(s),
        stamp_overflows(s) <==> day_overflows(s, m) || (weekday.len() > 0 && year_overflows(s, m)),
{
    let head = date_head(open, weekday);
    assert forall|j: int| 0 <= j < m implies s[j] == #[trigger] head[j] by {
        assert(s.take(m)[j] == s[j]);
    }
    let i = if open {
        1int
    } else {
        0
    };
    if open {
        assert(s[0] == head[0]);
    }
    if weekday.len() > 0 {
        assert(weekday.len() == 3);
        assert(m == i + 4);
        assert(head[i] == weekday[0] && head[i + 1] == weekday[1] && head[i + 2] == weekday[2]
            && head[i + 3] == ' ');
        assert(s[i] == head[i] && s[i + 1] == head[i + 1] && s[i + 2] == head[i + 2] && s[i + 3]
            == head[i + 3]);
        assert(weekday_at(s, i));
        assert(!month_at(s, i));
    } else {
        assert(m == i);
        assert(!weekday_at(s, i));
    }
    assert(start_of(s) == i);
    assert(!digit(s[i]));
    lemma_run_end(s, i, 0);
    assert(triple_end(s, i, ':') is None);
    assert(!frame_date_overflows(s)) by {
        if open && digits_at(s, 1, 4) {
            assert(digit(s[1]));
        }
    }
}

/// The month and the day of a date whose month stands at `m`.
proof fn lemma_day(s: Seq<char>, m: int, month: Seq<char>, space: Seq<char>, day: Seq<char>)
    requires
        month_name(month),
        gap(space),
        decimal(day),
        0 <= m,
        m + 3 + space.len() + day.len() < s.len(),
        s.subrange(m, m + 3 + space.len() + day.len()) == month + space + day,
        !digit(s[m + 3 + space.len() + day.len()]),
    ensures
        month_at(s, m),
        day_start(s, m) == m + 3 + space.len(),
        day_end(s, m) == m + 3 + space.len() + day.len(),
        s.subrange(day_start(s, m), day_end(s, m)) == day,
{
    let g = space.len() as int;
    let n = day.len() as int;
    let text = month + space + day;
    let t = s.subrange(m, m + 3 + g + n);
    assert(month.len() == 3);
    assert forall|j: int| 0 <= j < 3 + g + n implies s[m + j] == #[trigger] text[j] by {
        assert(t[j] == s[m + j]);
    }
    assert(text[0] == month[0] && text[1] == month[1] && text[2] == month[2]);
    assert(s[m] == text[0] && s[m + 1] == text[1] && s[m + 2] == text[2]);
    assert forall|j: int| m + 3 <= j < m + 3 + g implies #[trigger] s[j] == ' ' by {
        assert(s[j] == text[j - m] && text[j - m] == space[j - m - 3]);
    }
    assert(s[m + 3] == ' ');
    assert forall|j: int| m + 3 + g <= j < m + 3 + g + n implies digit(#[trigger] s[j]) by {
        assert(s[j] == text[j - m] && text[j - m] == day[j - m - 3 - g]);
    }
    assert(digit(s[m + 3 + g]));
    lemma_spaces_end(s, m + 3, g);
    lemma_run_end(s, m + 3 + g, n);
    assert(s.subrange(m + 3 + g, m + 3 + g + n) =~= t.subrange(3 + g, 3 + g + n));
    assert(text.subrange(3 + g, 3 + g + n) =~= day);
}

/// A clock, a fraction of a second and a closing at `c`.
proof fn lemma_clock_and_fraction(
    s: Seq<char>,
    c: int,
    time: Seq<char>,
    part: Seq<char>,
)
    requires
        clock(time),
        fraction(part),
        0 <= c,
        c + 8 + part.len() < s.len(),
        s.subrange(c, c + 8 + part.len()) == time + part,
        !digit(s[c + 8 + part.len()]),
        s[c + 8 + part.len()] != '.',
    ensures
        clock_at(s, c),
        fraction_end(s, c + 8) == c + 8 + part.len(),
{
    let k = part.len() as int;
    let text = time + part;
    let t = s.subrange(c, c + 8 + k);
    assert forall|j: int| 0 <= j < 8 + k implies s[c + j] == #[trigger] text[j] by {
        assert(t[j] == s[c + j]);
    }
    assert(time.subrange(0, 2)[0] == time[0] && time.subrange(0, 2)[1] == time[1]);
    assert(time.subrange(3, 5)[0] == time[3] && time.subrange(3, 5)[1] == time[4]);
    assert(time.subrange(6, 8)[0] == time[6] && time.subrange(6, 8)[1] == time[7]);
    assert(text[0] == time[0] && text[1] == time[1] && text[2] == time[2] && text[3] == time[3]
        && text[4] == time[4] && text[5] == time[5] && text[6] == time[6] && text[7] == time[7]);
    assert(s[c] == text[0] && s[c + 1] == text[1] && s[c + 2] == text[2] && s[c + 3] == text[3]
        && s[c + 4] == text[4] && s[c + 5] == text[5] && s[c + 6] == text[6] && s[c + 7]
        == text[7]);
    if k > 0 {
        assert(s[c + 8] == text[8] && text[8] == part[0]);
        assert forall|j: int| c + 9 <= j < c + 8 + k implies digit(#[trigger] s[j]) by {
            assert(s[j] == text[j - c] && text[j - c] == part[j - c - 8]);
            assert(part.skip(1)[j - c - 9] == part[j - c - 8]);
        }
        lemma_run_end(s, c + 9, k - 1);
    }
}

/// A closing at `x`.
proof fn lemma_closing(s: Seq<char>, x: int, end: Seq<char>)
    requires
        closing(end),
        0 <= x,
        x + end.len() <= s.len(),
        s.subrange(x, x + end.len()) == end,
    ensures
        closes_at(s, x),
        !digit(s[x]),
        s[x] != '.',
        s[x] == end[0],
{
    let t = s.subrange(x, x + end.len());
    assert(t[0] == s[x]);
    if end.len() == 2 {
        assert(t[1] == s[x + 1]);
    }
}

/// A date without a year behind `head`.
#[verifier::rlimit(40)]
#[verifier::spinoff_prover]
proof fn lemma_short_date_at(
    head: Seq<char>,
    month: Seq<char>,
    day: Seq<char>,
    time: Seq<char>,
    part: Seq<char>,
    end: Seq<char>,
    rest: Seq<char>,
)
    requires
        month_name(month),
        decimal(day),
        clock(time),
        fraction(part),
        closing(end),
    ensures
        ({
            let line = head + (month + seq![' '] + day) + seq![' '] + (time + part) + end + rest;
            let m = head.len() as int;
            &&& month_at(line, m)
            &&& date_at(line, m)
            &&& day_overflows(line, m) <==> number(day) > 4294967295
            &&& end != seq![' '] || rest.len() == 0 || !digit(rest[0]) ==> !year_overflows(line, m)
        }),
{
    let line = head + (month + seq![' '] + day) + seq![' '] + (time + part) + end + rest;
    let m = head.len() as int;
    let n = day.len() as int;
    let e = m + 4 + n;
    let f = e + 9 + part.len();
    assert(month.len() == 3);
    assert(line.subrange(m, e) =~= month + seq![' '] + day);
    assert(line[e] == ' ');
    lemma_day(line, m, month, seq![' '], day);
    assert(line.subrange(f, f + end.len()) =~= end);
    lemma_closing(line, f, end);
    assert(line.subrange(e + 1, f) =~= time + part);
    lemma_clock_and_fraction(line, e + 1, time, part);
    assert(clock_follows(line, e));
    assert(date_at(line, m));
    if end[0] == ' ' {
        assert(end =~= seq![' ']);
        if rest.len() > 0 {
            assert(line[f + 1] == rest[0]);
        }
        if rest.len() == 0 || !digit(rest[0]) {
            lemma_run_end(line, f + 1, 0);
        }
    }
}

/// A date without a year, in each of its shapes: in brackets or not, with a weekday or not,
/// with a fraction of a second or not. A line that starts with it has a time without its
/// zone. Its day is too large exactly if it is above 4294967295, where no number that may be
/// a year follows.
pub proof fn law_short_date(
    open: bool,
    weekday: Seq<char>,
    month: Seq<char>,
    day: Seq<char>,
    time: Seq<char>,
    part: Seq<char>,
    end: Seq<char>,
    rest: Seq<char>,
)
    requires
        weekday.len() == 0 || weekday_name(weekday),
        month_name(month),
        decimal(day),
        clock(time),
        fraction(part),
        closing(end),
    ensures
        ({
            let line = date_head(open, weekday) + (month + seq![' '] + day) + seq![' '] + (time
                + part) + end + rest;
            &&& local_time(line)
            &&& number(day) > 4294967295 ==> stamp_overflows(line)
            &&& weekday.len() == 0 || end != seq![' '] || rest.len() == 0 || !('0' <= rest[0]
                <= '9') ==> (stamp_overflows(line) ==> number(day) > 4294967295)
        }),
{
    let head = date_head(open, weekday);
    let line = head + (month + seq![' '] + day) + seq![' '] + (time + part) + end + rest;
    let m = head.len() as int;
    lemma_short_date_at(head, month, day, time, part, end, rest);
    assert(line.take(m) =~= head);
    lemma_head(line, open, weekday, m);
}

/// A date with a year at its end behind `head`.
#[verifier::rlimit(40)]
#[verifier::spinoff_prover]
proof fn lemma_date_before_year_at(
    head: Seq<char>,
    month: Seq<char>,
    space: Seq<char>,
    day: Seq<char>,
    time: Seq<char>,
    part: Seq<char>,
    year: Seq<char>,
    end: Seq<char>,
    rest: Seq<char>,
)
    requires
        month_name(month),
        gap(space),
        decimal(day),
        clock(time),
        fraction(part),
        decimal(year) && year.len() == 4,
        closing(end),
    ensures
        ({
            let line = head + (month + space + day) + seq![' '] + (time + part) + seq![' '] + year
                + end + rest;
            let m = head.len() as int;
            &&& month_at(line, m)
            &&& date_at(line, m)
            &&& day_overflows(line, m) <==> number(day) > 4294967295
            &&& !year_overflows(line, m)
        }),
{
    let line = head + (month + space + day) + seq![' '] + (time + part) + seq![' '] + year + end
        + rest;
    let m = head.len() as int;
    let e = m + 3 + space.len() + day.len();
    let f = e + 9 + part.len();
    assert(month.len() == 3);
    assert(line.subrange(m, e) =~= month + space + day);
    assert(line[e] == ' ');
    lemma_day(line, m, month, space, day);
    assert(line[f] == ' ');
    assert(line.subrange(e + 1, f) =~= time + part);
    lemma_clock_and_fraction(line, e + 1, time, part);
    assert forall|j: int| f + 1 <= j < f + 5 implies digit(#[trigger] line[j]) by {
        assert(line[j] == year[j - f - 1]);
    }
    assert(line.subrange(f + 5, f + 5 + end.len()) =~= end);
    lemma_closing(line, f + 5, end);
    lemma_run_end(line, f + 1, 4);
    assert(clock_and_year_follow(line, e));
    assert(date_at(line, m));
    lemma_short_number(line, f + 1, f + 5, i32::MAX as nat);
}

/// A date with a year of four digits at its end, in each of its shapes. Its day is too large
/// exactly if it is above 4294967295.
pub proof fn law_date_before_year(
    open: bool,
    weekday: Seq<char>,
    month: Seq<char>,
    space: Seq<char>,
    day: Seq<char>,
    time: Seq<char>,
    part: Seq<char>,
    year: Seq<char>,
    end: Seq<char>,
    rest: Seq<char>,
)
    requires
        weekday.len() == 0 || weekday_name(weekday),
        month_name(month),
        gap(space),
        decimal(day),
        clock(time),
        fraction(part),
        decimal(year) && year.len() == 4,
        closing(end),
    ensures
        ({
            let line = date_head(open, weekday) + (month + space + day) + seq![' '] + (time + part)
                + seq![' '] + year + end + rest;
            &&& local_time(line)
            &&& stamp_overflows(line) <==> number(day) > 4294967295
        }),
{
    let head = date_head(open, weekday);
    let line = head + (month + space + day) + seq![' '] + (time + part) + seq![' '] + year + end
        + rest;
    let m = head.len() as int;
    lemma_date_before_year_at(head, month, space, day, time, part, year, end, rest);
    assert(line.take(m) =~= head);
    lemma_head(line, open, weekday, m);
}

/// A date with a year before its time of day behind `head`.
#[verifier::rlimit(40)]
#[verifier::spinoff_prover]
proof fn lemma_date_after_year_at(
    head: Seq<char>,
    month: Seq<char>,
    space: Seq<char>,
    day: Seq<char>,
    comma: bool,
    year: Seq<char>,
    time: Seq<char>,
    part: Seq<char>,
    end: Seq<char>,
    rest: Seq<char>,
)
    requires
        month_name(month),
        gap(space),
        decimal(day),
        decimal(year) && year.len() == 4,
        clock(time),
        fraction(part),
        closing(end),
    ensures
        ({
            let between = if comma {
                seq![',', ' ']
            } else {
                seq![' ']
            };
            let line = head + (month + space + day) + between + year + seq![' '] + (time + part)
                + end + rest;
            let m = head.len() as int;
            &&& month_at(line, m)
            &&& date_at(line, m)
            &&& day_overflows(line, m) <==> number(day) > 4294967295
            &&& !year_overflows(line, m)
        }),
{
    let between = if comma {
        seq![',', ' ']
    } else {
        seq![' ']
    };
    let line = head + (month + space + day) + between + year + seq![' '] + (time + part) + end
        + rest;
    let m = head.len() as int;
    let e = m + 3 + space.len() + day.len();
    let g = e + between.len() - 1;
    let c = g + 6;
    let f = c + 8 + part.len();
    assert(month.len() == 3);
    assert(line.subrange(m, e) =~= month + space + day);
    assert(line[e] == between[0]);
    assert(line[g] == ' ');
    lemma_day(line, m, month, space, day);
    assert forall|j: int| g + 1 <= j < g + 5 implies digit(#[trigger] line[j]) by {
        assert(line[j] == year[j - g - 1]);
    }
    assert(line[g + 5] == ' ');
    assert(line.subrange(f, f + end.len()) =~= end);
    lemma_closing(line, f, end);
    assert(line.subrange(c, f) =~= time + part);
    lemma_clock_and_fraction(line, c, time, part);
    assert(year_and_clock_follow(line, e));
    assert(date_at(line, m));
    assert(!year_overflows(line, m)) by {
        if !comma {
            assert(digit(line[e + 3]));
        }
    }
}

/// A date with a year of four digits before its time of day, in each of its shapes: with a
/// comma behind the day or not. Its day is too large exactly if it is above 4294967295.
pub proof fn law_date_after_year(
    open: bool,
    weekday: Seq<char>,
    month: Seq<char>,
    space: Seq<char>,
    day: Seq<char>,
    comma: bool,
    year: Seq<char>,
    time: Seq<char>,
    part: Seq<char>,
    end: Seq<char>,
    rest: Seq<char>,
)
    requires
        weekday.len() == 0 || weekday_name(weekday),
        month_name(month),
        gap(space),
        decimal(day),
        decimal(year) && year.len() == 4,
        clock(time),
        fraction(part),
        closing(end),
    ensures
        ({
            let between = if comma {
                seq![',', ' ']
            } else {
                seq![' ']
            };
            let line = date_head(open, weekday) + (month + space + day) + between + year + seq![' ']
                + (time + part) + end + rest;
            &&& local_time(line)
            &&& stamp_overflows(line) <==> number(day) > 4294967295
        }),
{
    let between = if comma {
        seq![',', ' ']
    } else {
        seq![' ']
    };
    let head = date_head(open, weekday);
    let line = head + (month + space + day) + between + year + seq![' '] + (time + part) + end
        + rest;
    let m = head.len() as int;
    lemma_date_after_year_at(head, month, space, day, comma, year, time, part, end, rest);
    assert(line.take(m) =~= head);
    lemma_head(line, open, weekday, m);
}

} // verus!
