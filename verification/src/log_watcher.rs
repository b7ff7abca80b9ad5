//! Journal events: what a line of the Elite journal reports, and how far a
//! journal file has been read.

use vstd::prelude::*;
use vstd::string::StrSliceExecFns;
use crate::text::{seq_contains, str_contains, str_eq};

verus! {

/// A scan reported by the journal, carrying the name of the body scanned.
#[derive(Debug, Clone)]
pub enum ScanEvent {
    /// Full Spectrum Scanner (system scan) of a body.
    FSS(String),
    /// Detailed Surface Scanner (mapping) of a body.
    DSS(String),
}

/// Abstract value of a [`ScanEvent`]: the body's name, and whether the scan
/// is a DSS mapping (otherwise an FSS scan).
#[verifier::ext_equal]
pub struct ScanEventView {
    pub body_name: Seq<char>,
    pub is_dss: bool,
}

impl View for ScanEvent {
    type V = ScanEventView;

    open spec fn view(&self) -> ScanEventView {
        match self {
            ScanEvent::FSS(n) => ScanEventView { body_name: n@, is_dss: false },
            ScanEvent::DSS(n) => ScanEventView { body_name: n@, is_dss: true },
        }
    }
}

/// The views of a sequence of events.
pub open spec fn events_view(events: Seq<ScanEvent>) -> Seq<ScanEventView> {
    events.map_values(|e: ScanEvent| e@)
}


/// The string found under `key` in the JSON object that `line` holds, as
/// `serde_json` reads it: `None` where `line` is not valid JSON, is not an
/// object, lacks `key`, or holds something other than a string there.
pub uninterp spec fn json_string_field(line: Seq<char>, key: Seq<char>) -> Option<Seq<char>>;

/// Parses `line` with `serde_json::from_str` into a `serde_json::Value`,
/// indexes it by `key` and takes the string there (`Value::as_str`). The
/// contract claims only that the result is `json_string_field` of the
/// arguments; JSON itself is not stated.
#[verifier::external_body]
fn json_field(line: &str, key: &str) -> (r: Option<String>)
    ensures
        match r {
            Some(v) => json_string_field(line@, key@) == Some(v@),
            None => json_string_field(line@, key@) is None,
        },
{
    serde_json::from_str::<serde_json::Value>(line).ok().and_then(|v| v[key].as_str().map(|t| t.to_string()))
}

/// The scan that a journal line reports, from its `event` and `BodyName`
/// fields: a `Scan` of a body whose name does not contain "Belt Cluster" is
/// an FSS scan, a `SAAScanComplete` is a DSS mapping; anything else reports
/// nothing.
pub open spec fn scan_event_of(event: Option<Seq<char>>, body_name: Option<Seq<char>>) -> Option<ScanEventView> {
    match body_name {
        Some(name) => if event == Some("Scan"@) && !seq_contains(name, "Belt Cluster"@) {
            Some(ScanEventView { body_name: name, is_dss: false })
        } else if event == Some("SAAScanComplete"@) {
            Some(ScanEventView { body_name: name, is_dss: true })
        } else {
            None
        },
        None => None,
    }
}

/// The scan that the journal line `line` reports.
pub open spec fn line_event(line: Seq<char>) -> Option<ScanEventView> {
    scan_event_of(json_string_field(line, "event"@), json_string_field(line, "BodyName"@))
}

/// The view of an optional event.
pub open spec fn event_opt_view(o: Option<ScanEvent>) -> Option<ScanEventView> {
    match o {
        Some(e) => Some(e@),
        None => None,
    }
}

/// The view of an optional string slice.
pub open spec fn str_opt_view(o: Option<&str>) -> Option<Seq<char>> {
    match o {
        Some(s) => Some(s@),
        None => None,
    }
}

/// The view of an optional string.
pub open spec fn string_opt_view(o: Option<String>) -> Option<Seq<char>> {
    match o {
        Some(s) => Some(s@),
        None => None,
    }
}

fn opt_as_seq(o: &Option<String>) -> (r: Option<&str>)
    ensures
        match o {
            Some(s) => r is Some && r->0@ == s@,
            None => r is None,
        },
{
    match o {
        Some(s) => Some(s.as_str()),
        None => None,
    }
}

/// Decides which scan, if any, the `event` and `BodyName` fields of a
/// journal line report.
pub fn scan_event_from_fields(event: Option<&str>, body_name: Option<String>) -> (r: Option<ScanEvent>)
    ensures
        event_opt_view(r) == scan_event_of(str_opt_view(event), string_opt_view(body_name)),
{
    match body_name {
        Some(name) => {
            let (is_scan, is_saa) = match event {
                Some(ev) => (str_eq(ev, "Scan"), str_eq(ev, "SAAScanComplete")),
                None => (false, false),
            };
            if is_scan && !str_contains(name.as_str(), "Belt Cluster") {
                Some(ScanEvent::FSS(name))
            } else if is_saa {
                Some(ScanEvent::DSS(name))
            } else {
                proof {
                    if is_scan {
                        assert(event->0@ == "Scan"@);
                    }
                }
                None
            }
        },
        None => None,
    }
}

/// The scan that a journal line reports, if any.
pub fn scan_event_from_line(line: &str) -> (r: Option<ScanEvent>)
    ensures
        event_opt_view(r) == line_event(line@),
{
    let event = json_field(line, "event");
    let body = json_field(line, "BodyName");
    scan_event_from_fields(opt_as_seq(&event), body)
}

/// The text of a line as read from the file, without its line terminator:
/// a final `\n` is dropped, and then a `\r` before it.
pub open spec fn line_content(raw: Seq<char>) -> Seq<char> {
    if raw.len() > 0 && raw.last() == '\n' {
        let t = raw.drop_last();
        if t.len() > 0 && t.last() == '\r' {
            t.drop_last()
        } else {
            t
        }
    } else {
        raw
    }
}

/// A line as read from the file, without its line terminator.
pub fn strip_line_terminator(raw: &str) -> (r: &str)
    ensures
        r@ == line_content(raw@),
{
    let n = raw.unicode_len();
    if n > 0 && raw.get_char(n - 1) == '\n' {
        if n > 1 && raw.get_char(n - 2) == '\r' {
            let r = raw.substring_char(0, n - 2);
            assert(r@ =~= raw@.drop_last().drop_last());
            r
        } else {
            let r = raw.substring_char(0, n - 1);
            assert(r@ =~= raw@.drop_last());
            r
        }
    } else {
        raw
    }
}

/// The views of a sequence of lines.
pub open spec fn lines_view(lines: Seq<String>) -> Seq<Seq<char>> {
    lines.map_values(|l: String| l@)
}

/// The scans that the lines, as read with their terminators, report, in
/// order.
pub open spec fn scan_events(lines: Seq<Seq<char>>) -> Seq<ScanEventView>
    decreases lines.len(),
{
    if lines.len() == 0 {
        Seq::empty()
    } else {
        scan_events(lines.drop_last()) + match line_event(line_content(lines.last())) {
            Some(e) => seq![e],
            None => Seq::empty(),
        }
    }
}

/// The bytes that the lines, as read with their terminators, took in the
/// file.
pub open spec fn lines_bytes(lines: Seq<Seq<char>>) -> nat
    decreases lines.len(),
{
    if lines.len() == 0 {
        0
    } else {
        lines_bytes(lines.drop_last()) + vstd::utf8::encode_utf8(lines.last()).len()
    }
}

/// Where reading resumes in a journal file of `file_size` bytes: at the
/// stored position, unless none is stored or the file has shrunk below it
/// (a new file), in which case at its start.
pub open spec fn resume_at(stored: Option<u64>, file_size: u64) -> int {
    match stored {
        Some(p) => if p > file_size { 0 } else { p as int },
        None => 0,
    }
}

/// The position stored after reading `lines` from `start_pos` in a file of
/// `file_size` bytes: past every byte of the lines, terminators included,
/// but not past the end of the file.
pub open spec fn read_end(lines: Seq<Seq<char>>, start_pos: u64, file_size: u64) -> int {
    if start_pos + lines_bytes(lines) <= file_size {
        start_pos + lines_bytes(lines)
    } else {
        file_size as int
    }
}

/// Where reading resumes (see [`resume_at`]).
pub fn resume_position(stored: Option<u64>, file_size: u64) -> (r: u64)
    ensures
        r == resume_at(stored, file_size),
{
    let start = match stored {
        Some(p) => p,
        None => 0,
    };
    if start > file_size {
        0
    } else {
        start
    }
}

/// Reads the lines of a journal file that start at byte `start_pos` of a
/// file of `file_size` bytes, each as read from the file with its line
/// terminator (`\n` or `\r\n`; the last line may have none): returns the
/// scans they report, in order, and the position to resume from next time,
/// which is just past the bytes read but never past the end of the file.
pub fn check_for_scans(lines: &[String], start_pos: u64, file_size: u64) -> (r: (Vec<ScanEvent>, u64))
    requires
        start_pos + lines_bytes(lines_view(lines@)) <= u64::MAX,
        forall|i: int| 0 <= i < lines@.len() ==> #[trigger] vstd::utf8::encode_utf8(lines@[i]@).len() <= usize::MAX,
    ensures
        events_view(r.0@) == scan_events(lines_view(lines@)),
        r.1 == read_end(lines_view(lines@), start_pos, file_size),
{
    let mut events: Vec<ScanEvent> = Vec::new();
    let mut current: u64 = start_pos;
    let mut k: usize = 0;
    while k < lines.len()
        invariant
            k <= lines@.len(),
            start_pos + lines_bytes(lines_view(lines@)) <= u64::MAX,
            forall|i: int| 0 <= i < lines@.len() ==> #[trigger] vstd::utf8::encode_utf8(lines@[i]@).len() <= usize::MAX,
            current == start_pos + lines_bytes(lines_view(lines@).take(k as int)),
            events_view(events@) == scan_events(lines_view(lines@).take(k as int)),
        decreases lines@.len() - k,
    {
        let ghost lv = lines_view(lines@);
        assert(lv.take(k + 1).drop_last() =~= lv.take(k as int));
        proof {
            lemma_lines_bytes_prefix(lv, k + 1);
        }
        let line = lines[k].as_str();
        assert(line@ == lv[k as int]);
        assert(vstd::utf8::encode_utf8(lines@[k as int]@).len() <= usize::MAX);
        assert(lv.take(k + 1).last() == lv[k as int]);
        assert(lines_bytes(lv.take(k + 1)) == lines_bytes(lv.take(k as int)) + vstd::utf8::encode_utf8(line@).len());
        let n = line.len() as u64;
        assert(n == vstd::utf8::encode_utf8(line@).len());
        current = current + n;
        let ghost before = events_view(events@);
        match scan_event_from_line(strip_line_terminator(line)) {
            Some(e) => {
                events.push(e);
                assert(events_view(events@) =~= before.push(e@));
            },
            None => {},
        }
        assert(events_view(events@) =~= scan_events(lv.take(k + 1)));
        k = k + 1;
    }
    assert(lines_view(lines@).take(lines@.len() as int) =~= lines_view(lines@));
    let end = if current <= file_size {
        current
    } else {
        file_size
    };
    (events, end)
}

/// Lines once read are not read again: the stored position lies just past
/// every byte read (terminators included, `\n` or `\r\n` alike) unless that
/// passes the end of the file, and as long as the file does not shrink the
/// next poll resumes exactly there.
pub proof fn lemma_no_rereading(lines: Seq<Seq<char>>, start_pos: u64, file_size: u64, new_size: u64)
    requires
        file_size <= new_size,
        start_pos + lines_bytes(lines) <= u64::MAX,
    ensures
        read_end(lines, start_pos, file_size) <= file_size,
        start_pos + lines_bytes(lines) <= file_size ==> read_end(lines, start_pos, file_size)
            == start_pos + lines_bytes(lines),
        resume_at(Some(read_end(lines, start_pos, file_size) as u64), new_size) == read_end(
            lines,
            start_pos,
            file_size,
        ),
{
}

/// The journal file to read among candidates with the given modification
/// times: the most recently modified one, the first of them on a tie.
pub fn latest_log_index(modified: &[u128]) -> (r: Option<usize>)
    ensures
        modified@.len() == 0 <==> r is None,
        r matches Some(i) ==> {
            &&& i < modified@.len()
            &&& forall|k: int| 0 <= k < modified@.len() ==> modified@[k] <= modified@[i as int]
            &&& forall|k: int| 0 <= k < i ==> modified@[k] < modified@[i as int]
        },
{
    if modified.len() == 0 {
        return None;
    }
    let mut best: usize = 0;
    let mut k: usize = 1;
    while k < modified.len()
        invariant
            1 <= k <= modified@.len(),
            best < k,
            forall|m: int| 0 <= m < k ==> modified@[m] <= modified@[best as int],
            forall|m: int| 0 <= m < best ==> modified@[m] < modified@[best as int],
        decreases modified@.len() - k,
    {
        if modified[k] > modified[best] {
            best = k;
        }
        k = k + 1;
    }
    Some(best)
}

/// The bytes of a prefix of the lines are at most the bytes of all of them.
proof fn lemma_lines_bytes_prefix(lines: Seq<Seq<char>>, k: int)
    requires
        0 <= k <= lines.len(),
    ensures
        lines_bytes(lines.take(k)) <= lines_bytes(lines),
    decreases lines.len(),
{
    if k < lines.len() {
        assert(lines.drop_last().take(k) =~= lines.take(k));
        lemma_lines_bytes_prefix(lines.drop_last(), k);
    } else {
        assert(lines.take(k) =~= lines);
    }
}

} // verus!
