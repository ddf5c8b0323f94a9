//! The log file: its lines, and how it is kept short.

use vstd::prelude::*;

use crate::bytes;
use crate::clock;
use crate::text;

verus! {

/// Where the log is kept, and how large it may grow.
#[derive(Debug)]
pub struct FileLog {
    pub path: String,
    pub max_bytes: u64,
}

/// The log that is kept at `path` and cut when it reaches `max_bytes`.
pub fn init(path: &str, max_bytes: u64) -> (r: FileLog)
    ensures
        r.path@ == path@,
        r.max_bytes == max_bytes,
{
    FileLog { path: path.to_owned(), max_bytes }
}

/// A line of the log: its time in brackets, and the message.
pub open spec fn line_text(stamp: Seq<char>, msg: Seq<char>) -> Seq<char> {
    "["@ + stamp + "] "@ + msg
}

/// A line of the log.
pub fn log_line(stamp: &str, msg: &str) -> (r: String)
    ensures
        r@ == line_text(stamp@, msg@),
{
    let mut out: String = text::concat3("[", stamp, "] ");
    out.append(msg);
    out
}

/// A log of that length is to be cut.
pub open spec fn is_due(len: nat, max_bytes: nat) -> bool {
    len >= max_bytes
}

/// Whether a log of `len` bytes has to be cut before the next line.
pub fn rotation_due(log: &FileLog, len: u64) -> (r: bool)
    ensures
        r == is_due(len as nat, log.max_bytes as nat),
{
    len >= log.max_bytes
}

/// Where the part of the log starts that is kept: behind the first line feed of the second half,
/// or at the half where that holds none.
pub open spec fn kept_from(data: Seq<u8>) -> int {
    let half = data.len() as int / 2;
    let p = bytes::byte_at(data, 10, half);
    if p < data.len() {
        p + 1
    } else {
        half
    }
}

/// Where the part of the log starts that is kept.
pub fn rotation_start(data: &[u8]) -> (r: usize)
    ensures
        r == kept_from(data@),
        r <= data@.len(),
{
    let n: usize = data.len();
    let half: usize = n / 2;
    let p: usize = bytes::find_byte(data, 10, half);
    if p < n {
        p + 1
    } else {
        half
    }
}

/// Of a log that is cut, no more than the second half is kept, and what is kept starts with a
/// whole line wherever the second half holds the start of one.
pub proof fn law_rotation_keeps_whole_lines(data: Seq<u8>)
    ensures
        data.len() as int / 2 <= kept_from(data) <= data.len(),
        (exists|i: int| data.len() as int / 2 <= i < data.len() && data[i] == 10) ==> 0 < kept_from(
            data,
        ) && data[kept_from(data) - 1] == 10,
{
    bytes::lemma_byte_at(data, 10, data.len() as int / 2);
}

/// What a log line is stamped with: what `date` printed, without white space around it, or the
/// time in UTC where it printed nothing.
pub fn stamp_from(printed: &str, secs: u64) -> (r: String)
    ensures
        text::trim(printed@).len() > 0 ==> r@ == text::trim(printed@),
        text::trim(printed@).len() == 0 ==> clock::is_stamp(r@, secs as nat),
{
    let t: String = text::trimmed(printed);
    if t.as_str().is_empty() {
        clock::utc_timestamp(secs)
    } else {
        t
    }
}

/// The local time for the log. `date` is what the command `date` printed, where it succeeded;
/// `secs` is the time since 1970-01-01.
pub fn timestamp(date: Option<&[u8]>, secs: u64) -> (r: String)
    ensures
        match date {
            Some(out) => {
                let t = text::trim(bytes::lossy_text(out@));
                &&& t.len() > 0 ==> r@ == t
                &&& t.len() == 0 ==> clock::is_stamp(r@, secs as nat)
            },
            None => clock::is_stamp(r@, secs as nat),
        },
{
    match date {
        Some(out) => {
            let printed: String = bytes::lossy(out);
            stamp_from(printed.as_str(), secs)
        },
        None => clock::utc_timestamp(secs),
    }
}

/// Of the second half of a log, only the rest of the line that the middle cuts is lost: what is kept
/// starts right behind the first end of a line there, or at the middle where there is none.
pub proof fn law_rotation_loses_no_whole_line(data: Seq<u8>, i: int)
    requires
        data.len() as int / 2 <= i < data.len(),
    ensures
        data[i] == 10 ==> kept_from(data) <= i + 1,
        (forall|j: int| data.len() as int / 2 <= j < data.len() ==> #[trigger] data[j] != 10)
            ==> kept_from(data) == data.len() as int / 2,
{
    bytes::lemma_byte_at(data, 10, data.len() as int / 2);
}

/// A log is cut once it has reached its limit, and not before.
pub proof fn law_log_is_cut_at_its_limit(len: nat, max_bytes: nat)
    ensures
        len < max_bytes ==> !is_due(len, max_bytes),
        len >= max_bytes ==> is_due(len, max_bytes),
{
}

/// A line of the log has its time in brackets and ends with the whole message.
pub proof fn law_line_of_the_log(stamp: Seq<char>, msg: Seq<char>)
    ensures
        ({
            let line = line_text(stamp, msg);
            &&& line.len() == stamp.len() + msg.len() + 3
            &&& line[0] == '['
            &&& line.subrange(1, 1 + stamp.len() as int) == stamp
            &&& line[1 + stamp.len() as int] == ']'
            &&& line[2 + stamp.len() as int] == ' '
            &&& line.skip(3 + stamp.len() as int) == msg
        }),
{
    reveal_strlit("[");
    reveal_strlit("] ");
    let line = line_text(stamp, msg);
    assert(line.subrange(1, 1 + stamp.len() as int) =~= stamp);
    assert(line.skip(3 + stamp.len() as int) =~= msg);
}

}
