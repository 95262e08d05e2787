//! What is attached to an event: breadcrumbs from a log file, and who sends it.

use crate::stamp::{lemma_run_end, local_reads_as, local_time, stamp_overflows, start_of};
use crate::text::{lemma_prefix_len_is, other_than, prefix_len};
use anylog::LogEntry;
use vstd::prelude::*;

verus! {

/// A point in time: seconds since the start of 1970 in UTC, and nanoseconds.
#[derive(Debug, Clone, Copy, PartialEq, Eq, Structural)]
pub struct Timestamp {
    /// The seconds.
    pub secs: i64,
    /// The nanoseconds.
    pub nanos: u32,
}

/// What a line of a log file says.
#[derive(Debug)]
pub struct LogRecord {
    /// When it was written, if it says so.
    pub timestamp: Option<Timestamp>,
    /// What stands behind the timestamp.
    pub message: String,
    /// The component that the message starts with, if it names one.
    pub component: Option<String>,
    /// The message without the component.
    pub component_message: String,
}

/// A `LogRecord`, as the texts that it holds.
pub struct RecordView {
    /// When it was written, if it says so.
    pub timestamp: Option<Timestamp>,
    /// What stands behind the timestamp.
    pub message: Seq<char>,
    /// The component that the message starts with, if it names one.
    pub component: Option<Seq<char>>,
    /// The message without the component.
    pub component_message: Seq<char>,
}

impl View for LogRecord {
    type V = RecordView;

    open spec fn view(&self) -> RecordView {
        RecordView {
            timestamp: self.timestamp,
            message: self.message@,
            component: match self.component {
                Some(component) => Some(component@),
                None => None,
            },
            component_message: self.component_message@,
        }
    }
}

/// The component that a message starts with: what stands before the first colon, if
/// anything does.
pub open spec fn component_of(message: Seq<char>) -> Option<Seq<char>> {
    let n = prefix_len(message, other_than(':'));
    if 0 < n < message.len() {
        Some(message.take(n as int))
    } else {
        None
    }
}

/// A message without its component, the colon, and a space behind the colon.
pub open spec fn without_component(message: Seq<char>) -> Seq<char> {
    let n = prefix_len(message, other_than(':')) as int;
    if component_of(message) is None {
        message
    } else if n + 1 < message.len() && message[n + 1] == ' ' {
        message.skip(n + 2)
    } else {
        message.skip(n + 1)
    }
}

/// Whether a line may start with a date or a time: with a digit, or with the first
/// letter of a weekday or a month, perhaps in a bracket.
pub open spec fn may_be_stamped(line: Seq<char>) -> bool {
    let i = if line.len() > 0 && line[0] == '[' {
        1
    } else {
        0int
    };
    i < line.len() && ('0' <= line[i] <= '9' || seq![
        'M',
        'T',
        'W',
        'F',
        'S',
        'J',
        'A',
        'O',
        'N',
        'D',
    ].contains(line[i]))
}

/// The seconds and nanoseconds of a timestamp.
pub open spec fn seconds(timestamp: Option<Timestamp>) -> Option<(i64, u32)> {
    match timestamp {
        Some(timestamp) => Some((timestamp.secs, timestamp.nanos)),
        None => None,
    }
}

/// The timestamp and the message of a line, as `anylog` reads it where the line holds no
/// time of a zone that it does not name.
pub uninterp spec fn zoned_entry(line: Seq<char>) -> (Option<(i64, u32)>, Seq<char>);

/// What a line of a log file can be read as: a timestamp, to the second, and the text
/// behind it, or a text alone. Which of these it is depends on the date and on the time zone
/// only where the line leaves them open: a date may exist in one year or zone, and not in
/// another.
pub open spec fn reads_as(line: Seq<char>, record: RecordView) -> bool {
    let n = record.message.len();
    &&& n <= line.len()
    &&& record.message == line.skip(line.len() - n)
    &&& record.timestamp is None <==> n == line.len()
    &&& !may_be_stamped(line) ==> record.timestamp is None
    &&& local_time(line) && record.timestamp is Some ==> local_reads_as(
        line,
        line.len() - n,
        (record.timestamp->0).secs as int,
    )
    &&& record.timestamp is Some ==> (record.timestamp->0).nanos == 0
    &&& record.component == component_of(record.message)
    &&& record.component_message == without_component(record.message)
}

/// `LogEntry::parse` splits a line into a timestamp and a message, which is what stands
/// behind the timestamp, or the whole line where there is none that makes sense.
/// `LogEntry::component_and_message` splits the message further. A number in a date that
/// does not fit its type makes `LogEntry::parse` panic. A line that names a time without its
/// zone is read by the clock and the zone of the machine. Of such a line the contract says
/// that the date and the time exist, and that a date is less than a day away from the
/// timestamp, as the offset of a zone is; it leaves open the offset, the day or year that
/// the line does not name, and whether the line gets a timestamp at all. Any other line is
/// read the same way everywhere.
#[verifier::external_body]
fn parse_line(line: &str) -> (record: LogRecord)
    requires
        !line@.contains('\n'),
        !stamp_overflows(line@),
    ensures
        reads_as(line@, record@),
        !local_time(line@) ==> (seconds(record@.timestamp), record@.message) == zoned_entry(line@),
{
    let entry = LogEntry::parse(line.as_bytes());
    let (component, rest) = entry.component_and_message();
    LogRecord {
        timestamp: entry.utc_timestamp().map(
            |time| Timestamp { secs: time.timestamp(), nanos: time.timestamp_subsec_nanos() },
        ),
        message: entry.message().to_owned(),
        component: component.map(str::to_owned),
        component_message: rest.to_owned(),
    }
}

/// A step on the way to an event.
#[derive(Debug)]
pub struct Breadcrumb {
    /// When it was taken.
    pub timestamp: Timestamp,
    /// What happened.
    pub message: String,
    /// Where it happened.
    pub category: String,
}

/// A `Breadcrumb`, as the texts that it holds.
pub struct CrumbView {
    /// When it was taken.
    pub timestamp: Timestamp,
    /// What happened.
    pub message: Seq<char>,
    /// Where it happened.
    pub category: Seq<char>,
}

impl View for Breadcrumb {
    type V = CrumbView;

    open spec fn view(&self) -> CrumbView {
        CrumbView {
            timestamp: self.timestamp,
            message: self.message@,
            category: self.category@,
        }
    }
}

/// The breadcrumb of a line of a log file. Its category is the component, where that is
/// asked for and known, and else `log`. A line without a timestamp gets `fallback`.
pub open spec fn crumb_of(
    record: RecordView,
    with_component: bool,
    fallback: Timestamp,
) -> CrumbView {
    CrumbView {
        timestamp: match record.timestamp {
            Some(timestamp) => timestamp,
            None => fallback,
        },
        message: if with_component {
            record.component_message
        } else {
            record.message
        },
        category: match record.component {
            Some(component) => if with_component {
                component
            } else {
                "log"@
            },
            None => "log"@,
        },
    }
}

/// The breadcrumb of a line of a log file, by what the line says.
pub fn record_breadcrumb(record: LogRecord, with_component: bool, fallback: Timestamp) -> (crumb:
    Breadcrumb)
    ensures
        crumb@ == crumb_of(record@, with_component, fallback),
{
    let timestamp = match record.timestamp {
        Some(timestamp) => timestamp,
        None => fallback,
    };
    if with_component {
        let category = match record.component {
            Some(component) => component,
            None => "log".to_owned(),
        };
        Breadcrumb { timestamp, message: record.component_message, category }
    } else {
        Breadcrumb { timestamp, message: record.message, category: "log".to_owned() }
    }
}

/// Whether `crumb` is a breadcrumb of `line`.
pub open spec fn crumb_of_line(
    line: Seq<char>,
    with_component: bool,
    fallback: Timestamp,
    crumb: CrumbView,
) -> bool {
    exists|record: RecordView|
        {
            &&& #[trigger] reads_as(line, record)
            &&& !local_time(line) ==> (seconds(record.timestamp), record.message) == zoned_entry(
                line,
            )
            &&& crumb == crumb_of(record, with_component, fallback)
        }
}

/// The breadcrumb of a line of a log file.
pub fn line_breadcrumb(line: &str, with_component: bool, fallback: Timestamp) -> (crumb:
    Breadcrumb)
    requires
        !line@.contains('\n'),
        !stamp_overflows(line@),
    ensures
        crumb_of_line(line@, with_component, fallback, crumb@),
{
    let record = parse_line(line);
    record_breadcrumb(record, with_component, fallback)
}

/// How many breadcrumbs an event holds at most.
pub const MAX_BREADCRUMBS: usize = 100;

/// The latest items, as many as an event holds.
pub open spec fn latest<T>(items: Seq<T>) -> Seq<T> {
    if items.len() > MAX_BREADCRUMBS {
        items.skip(items.len() - MAX_BREADCRUMBS)
    } else {
        items
    }
}

/// Keeps the latest items, as many as an event holds.
pub fn keep_latest<T>(items: &mut Vec<T>)
    ensures
        final(items)@ == latest(old(items)@),
{
    let len = items.len();
    if len > MAX_BREADCRUMBS {
        let kept = items.split_off(len - MAX_BREADCRUMBS);
        *items = kept;
    }
}

/// Whether `crumbs` are breadcrumbs of the lines, one for each, in order.
pub open spec fn crumbs_of_lines(
    lines: Seq<String>,
    with_component: bool,
    fallback: Timestamp,
    crumbs: Seq<Breadcrumb>,
) -> bool {
    &&& crumbs.len() == lines.len()
    &&& forall|i: int|
        0 <= i < lines.len() ==> crumb_of_line(
            (#[trigger] lines[i])@,
            with_component,
            fallback,
            crumbs[i]@,
        )
}

/// Attaches lines of a log file as breadcrumbs to those of an event, and keeps all of them.
pub fn attach_lines(
    breadcrumbs: &mut Vec<Breadcrumb>,
    lines: &Vec<String>,
    with_component: bool,
    fallback: Timestamp,
)
    requires
        forall|i: int|
            0 <= i < lines@.len() ==> !(#[trigger] lines@[i])@.contains('\n')
                && !stamp_overflows(lines@[i]@),
    ensures
        exists|attached: Seq<Breadcrumb>|
            {
                &&& #[trigger] crumbs_of_lines(lines@, with_component, fallback, attached)
                &&& final(breadcrumbs)@ == old(breadcrumbs)@ + attached
            },
{
    let ghost before = breadcrumbs@;
    let ghost mut attached: Seq<Breadcrumb> = seq![];
    assert(breadcrumbs@ =~= before + attached);
    let mut i: usize = 0;
    while i < lines.len()
        invariant
            i <= lines@.len(),
            breadcrumbs@ == before + attached,
            forall|i: int|
                0 <= i < lines@.len() ==> !(#[trigger] lines@[i])@.contains('\n')
                    && !stamp_overflows(lines@[i]@),
            crumbs_of_lines(lines@.take(i as int), with_component, fallback, attached),
        decreases lines@.len() - i,
    {
        let crumb = line_breadcrumb(lines[i].as_str(), with_component, fallback);
        let ghost done = lines@.take(i as int);
        proof {
            attached = attached.push(crumb);
        }
        breadcrumbs.push(crumb);
        assert(breadcrumbs@ =~= before + attached);
        assert(lines@.take(i as int + 1) =~= done.push(lines@[i as int]));
        i = i + 1;
    }
    assert(lines@.take(i as int) =~= lines@);
}

/// Attaches all lines of a log file as breadcrumbs to those of an event, and keeps the
/// latest ones.
pub fn attach_logfile(
    breadcrumbs: &mut Vec<Breadcrumb>,
    lines: &Vec<String>,
    with_component: bool,
    fallback: Timestamp,
)
    requires
        forall|i: int|
            0 <= i < lines@.len() ==> !(#[trigger] lines@[i])@.contains('\n')
                && !stamp_overflows(lines@[i]@),
    ensures
        exists|attached: Seq<Breadcrumb>|
            {
                &&& #[trigger] crumbs_of_lines(lines@, with_component, fallback, attached)
                &&& final(breadcrumbs)@ == latest(old(breadcrumbs)@ + attached)
            },
{
    attach_lines(breadcrumbs, lines, with_component, fallback);
    keep_latest(breadcrumbs);
}

/// A package that a program is made of.
#[derive(Debug)]
pub struct ClientSdkPackage {
    /// Its name.
    pub name: String,
    /// Its version.
    pub version: String,
}

/// Who sends an event.
#[derive(Debug)]
pub struct ClientSdkInfo {
    /// The name of the program.
    pub name: String,
    /// Its version.
    pub version: String,
    /// The integrations that it uses.
    pub integrations: Vec<String>,
    /// The packages that it is made of.
    pub packages: Vec<ClientSdkPackage>,
}

/// The program of this name and version, without integrations and packages.
pub fn get_sdk_info(name: &str, version: &str) -> (info: ClientSdkInfo)
    ensures
        info.name@ == name@,
        info.version@ == version@,
        info.integrations@.len() == 0,
        info.packages@.len() == 0,
{
    ClientSdkInfo {
        name: name.to_owned(),
        version: version.to_owned(),
        integrations: Vec::new(),
        packages: Vec::new(),
    }
}

/// An event never holds more than so many items; they are the last ones, in order.
pub proof fn law_latest_is_bounded<T>(items: Seq<T>)
    ensures
        latest(items).len() <= MAX_BREADCRUMBS,
        latest(items) == items.skip(items.len() - latest(items).len()),
        items.len() >= MAX_BREADCRUMBS ==> latest(items).len() == MAX_BREADCRUMBS,
{
    if items.len() <= MAX_BREADCRUMBS {
        assert(items.skip(0) =~= items);
    }
}

/// Attaching items in two portions leaves the same ones as attaching them at once.
pub proof fn law_attached_in_portions<T>(items: Seq<T>, first: Seq<T>, second: Seq<T>)
    ensures
        latest(latest(items + first) + second) == latest(items + (first + second)),
{
    let all = items + (first + second);
    assert(items + first + second =~= all);
    let kept = latest(items + first) + second;
    if (items + first).len() > MAX_BREADCRUMBS {
        assert(kept =~= all.skip((items + first).len() - MAX_BREADCRUMBS));
        assert(latest(kept) =~= latest(all));
    }
}

/// Of the items that are attached, only the latest count.
pub proof fn law_earlier_ones_do_not_count<T>(items: Seq<T>, more: Seq<T>)
    ensures
        latest(items + latest(more)) == latest(items + more),
{
    assert(latest(items + latest(more)) =~= latest(items + more));
}

/// A line that leaves no date or zone open has one breadcrumb, whenever and wherever it is
/// read.
pub proof fn law_zoned_line_is_determined(
    line: Seq<char>,
    with_component: bool,
    fallback: Timestamp,
    crumb: CrumbView,
    other: CrumbView,
)
    requires
        !local_time(line),
        crumb_of_line(line, with_component, fallback, crumb),
        crumb_of_line(line, with_component, fallback, other),
    ensures
        crumb == other,
{
    let record = choose|record: RecordView|
        {
            &&& #[trigger] reads_as(line, record)
            &&& (seconds(record.timestamp), record.message) == zoned_entry(line)
            &&& crumb == crumb_of(record, with_component, fallback)
        };
    let same = choose|record: RecordView|
        {
            &&& #[trigger] reads_as(line, record)
            &&& (seconds(record.timestamp), record.message) == zoned_entry(line)
            &&& other == crumb_of(record, with_component, fallback)
        };
    assert(record.timestamp == same.timestamp);
}

/// A line with a date or a time that names no zone becomes its breadcrumb as it stands, or
/// what it says of the date and the time holds of the timestamp, but for the zone: a date
/// with a year is less than a day away from it.
pub proof fn law_local_line(line: Seq<char>, fallback: Timestamp, crumb: CrumbView)
    requires
        local_time(line),
        crumb_of_line(line, false, fallback, crumb),
    ensures
        crumb.category == "log"@,
        crumb.message.len() <= line.len(),
        crumb.message == line.skip(line.len() - crumb.message.len()),
        crumb.message.len() == line.len() ==> crumb.timestamp == fallback,
        crumb.message.len() < line.len() ==> crumb.timestamp.nanos == 0 && local_reads_as(
            line,
            line.len() - crumb.message.len(),
            crumb.timestamp.secs as int,
        ),
{
}

/// A line that cannot start with a date or a time becomes its breadcrumb as it stands:
/// with the fallback as its timestamp, and the line as its message.
pub proof fn law_unstamped_line(
    line: Seq<char>,
    with_component: bool,
    fallback: Timestamp,
    crumb: CrumbView,
)
    requires
        !may_be_stamped(line),
        crumb_of_line(line, with_component, fallback, crumb),
    ensures
        crumb.timestamp == fallback,
        !with_component ==> crumb.message == line && crumb.category == "log"@,
        with_component ==> crumb.message == without_component(line),
        with_component && component_of(line) is Some ==> crumb.category == component_of(line)->0,
        with_component && component_of(line) is None ==> crumb.category == "log"@,
{
    let record = choose|record: RecordView|
        #[trigger] reads_as(line, record) && crumb == crumb_of(record, with_component, fallback);
    assert(record.message =~= line);
}

/// A record and a breadcrumb stand for the texts that they hold.
pub proof fn law_texts_held(record: LogRecord, crumb: Breadcrumb)
    ensures
        record@.timestamp == record.timestamp,
        record@.message == record.message@,
        record.component is None ==> record@.component is None,
        record.component is Some ==> record@.component == Some((record.component->0)@),
        record@.component_message == record.component_message@,
        crumb@.timestamp == crumb.timestamp,
        crumb@.message == crumb.message@,
        crumb@.category == crumb.category@,
{
}

/// A message that starts with a text and a colon has that text as its component, and what
/// follows, without one space behind the colon, as the rest. A message without a colon, or
/// with one at its start, has none.
pub proof fn law_component(component: Seq<char>, rest: Seq<char>)
    requires
        !component.contains(':'),
    ensures
        component.len() > 0 ==> {
            &&& component_of(component + seq![':'] + rest) == Some(component)
            &&& without_component(component + seq![':', ' '] + rest) == rest
            &&& component_of(component + seq![':', ' '] + rest) == Some(component)
            &&& rest.len() == 0 || rest[0] != ' ' ==> without_component(
                component + seq![':'] + rest,
            ) == rest
        },
        component_of(component) is None && without_component(component) == component,
        component_of(seq![':'] + rest) is None && without_component(seq![':'] + rest) == seq![':']
            + rest,
{
    let p = other_than(':');
    let n = component.len() as int;
    let tight = component + seq![':'] + rest;
    let loose = component + seq![':', ' '] + rest;
    assert forall|i: int| 0 <= i < n implies p(#[trigger] component[i]) by {
        assert(component.contains(component[i]));
    }
    assert forall|i: int| 0 <= i < n implies p(#[trigger] tight[i]) by {
        assert(tight[i] == component[i]);
    }
    assert forall|i: int| 0 <= i < n implies p(#[trigger] loose[i]) by {
        assert(loose[i] == component[i]);
    }
    lemma_prefix_len_is(component, p, n);
    lemma_prefix_len_is(tight, p, n);
    lemma_prefix_len_is(loose, p, n);
    lemma_prefix_len_is(seq![':'] + rest, p, 0);
    assert(tight.take(n) =~= component);
    assert(loose.take(n) =~= component);
    assert(tight.skip(n + 1) =~= rest);
    assert(loose.skip(n + 2) =~= rest);
}

/// A breadcrumb has the timestamp of its record, or the fallback where there is none. Where
/// components are asked for, it has the component as its category and the rest as its
/// message; without a component, or where none is asked for, its category is `log`.
pub proof fn law_crumb_of_record(record: RecordView, fallback: Timestamp)
    ensures
        forall|flag: bool|
            {
                let crumb = #[trigger] crumb_of(record, flag, fallback);
                &&& record.timestamp is Some ==> crumb.timestamp == record.timestamp->0
                &&& record.timestamp is None ==> crumb.timestamp == fallback
            },
        crumb_of(record, true, fallback).message == record.component_message,
        record.component is Some ==> crumb_of(record, true, fallback).category
            == record.component->0,
        record.component is None ==> crumb_of(record, true, fallback).category == "log"@,
        crumb_of(record, false, fallback).message == record.message,
        crumb_of(record, false, fallback).category == "log"@,
{
}

/// The breadcrumbs that are attached for a list of lines are as many as the lines, and each
/// is that of the line in its place: with the component of the line's message as its
/// category and the rest as its message where components are asked for, and with `log` and
/// the whole message where they are not. The timestamp is the line's, or the fallback.
pub proof fn law_attached_in_place(
    lines: Seq<String>,
    with_component: bool,
    fallback: Timestamp,
    crumbs: Seq<Breadcrumb>,
    i: int,
)
    requires
        crumbs_of_lines(lines, with_component, fallback, crumbs),
        0 <= i < lines.len(),
    ensures
        crumbs.len() == lines.len(),
        exists|record: RecordView|
            {
                let component = component_of(record.message);
                &&& #[trigger] reads_as(lines[i]@, record)
                &&& record.timestamp is Some ==> crumbs[i].timestamp == record.timestamp->0
                &&& record.timestamp is None ==> crumbs[i].timestamp == fallback
                &&& with_component ==> crumbs[i].message@ == without_component(record.message)
                &&& with_component && component is Some ==> crumbs[i].category@ == component->0
                &&& with_component && component is None ==> crumbs[i].category@ == "log"@
                &&& !with_component ==> crumbs[i].message@ == record.message
                &&& !with_component ==> crumbs[i].category@ == "log"@
            },
{
    let line = lines[i]@;
    assert(crumb_of_line(line, with_component, fallback, crumbs[i]@));
    let record = choose|record: RecordView|
        {
            &&& #[trigger] reads_as(line, record)
            &&& crumbs[i]@ == crumb_of(record, with_component, fallback)
        };
    assert(reads_as(line, record));
}

/// A line that cannot start with a date, and is a text, a colon, a space and another text,
/// is attached with the one as its category and the other as its message where components
/// are asked for, and with `log` and the whole line where they are not. One without a colon
/// is attached with `log` and the whole line in any case.
pub proof fn law_attached_plain_lines(
    lines: Seq<String>,
    with_component: bool,
    fallback: Timestamp,
    crumbs: Seq<Breadcrumb>,
    i: int,
    component: Seq<char>,
    rest: Seq<char>,
)
    requires
        crumbs_of_lines(lines, with_component, fallback, crumbs),
        0 <= i < lines.len(),
        !may_be_stamped(lines[i]@),
        component.len() > 0,
        !component.contains(':'),
    ensures
        crumbs[i].timestamp == fallback,
        lines[i]@ == component + seq![':', ' '] + rest && with_component ==> crumbs[i].category@
            == component && crumbs[i].message@ == rest,
        lines[i]@ == component || !with_component ==> crumbs[i].category@ == "log"@
            && crumbs[i].message@ == lines[i]@,
{
    assert(crumb_of_line(lines[i]@, with_component, fallback, crumbs[i]@));
    law_unstamped_line(lines[i]@, with_component, fallback, crumbs[i]@);
    law_component(component, rest);
}

/// A line may start with a date or a time only if its first character, or the second one
/// behind an opening bracket, is a digit or starts the English name of a weekday or a month.
pub proof fn law_may_be_stamped(line: Seq<char>)
    ensures
        line.len() == 0 ==> !may_be_stamped(line),
        may_be_stamped(line) ==> {
            let c = if line[0] == '[' {
                line[1]
            } else {
                line[0]
            };
            ||| 48 <= c as u32 <= 57
            ||| c == 'M' || c == 'T' || c == 'W' || c == 'F' || c == 'S'
            ||| c == 'J' || c == 'A' || c == 'O' || c == 'N' || c == 'D'
        },
{
}

/// An event keeps all items up to a hundred, and of more it keeps the last hundred.
pub proof fn law_latest_hundred<T>(items: Seq<T>)
    ensures
        items.len() <= 100 ==> latest(items) == items,
        items.len() > 100 ==> latest(items).len() == 100,
        items.len() > 100 ==> forall|i: int|
            0 <= i < 100 ==> #[trigger] latest(items)[i] == items[items.len() - 100 + i],
{
}

/// The breadcrumb of a line that leaves no date or zone open has the timestamp and the
/// message that the line is read as having.
pub proof fn law_zoned_line(
    line: Seq<char>,
    with_component: bool,
    fallback: Timestamp,
    crumb: CrumbView,
)
    requires
        !local_time(line),
        crumb_of_line(line, with_component, fallback, crumb),
    ensures
        ({
            let (time, message) = zoned_entry(line);
            &&& time is Some ==> crumb.timestamp.secs == (time->0).0 && crumb.timestamp.nanos == (
            time->0).1
            &&& time is None ==> crumb.timestamp == fallback
            &&& !with_component ==> crumb.message == message && crumb.category == "log"@
            &&& with_component ==> crumb.message == without_component(message)
            &&& with_component && component_of(message) is Some ==> crumb.category
                == component_of(message)->0
            &&& with_component && component_of(message) is None ==> crumb.category == "log"@
        }),
{
}

/// A line that cannot start with a date or a time holds no number that is too large, and no
/// time without its zone.
pub proof fn law_unstamped_line_fits(line: Seq<char>)
    requires
        !may_be_stamped(line),
    ensures
        !stamp_overflows(line),
        !local_time(line),
{
    let i = start_of(line);
    let letters = seq!['M', 'T', 'W', 'F', 'S', 'J', 'A', 'O', 'N', 'D'];
    if i < line.len() {
        assert forall|k: int| 0 <= k < 10 implies line[i] != #[trigger] letters[k] by {
            assert(letters.contains(letters[k]));
        }
        assert(line[i] != letters[0] && line[i] != letters[1] && line[i] != letters[2] && line[i]
            != letters[3] && line[i] != letters[4] && line[i] != letters[5] && line[i]
            != letters[6] && line[i] != letters[7] && line[i] != letters[8] && line[i]
            != letters[9]);
    }
    lemma_run_end(line, i, 0);
}

} // verus!
