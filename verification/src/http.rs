//! HTTP/1.1 messages.

use vstd::prelude::*;

use crate::bytes;
use crate::number;
use crate::split;
use crate::table;
use crate::text;

verus! {

// ---------------------------------------------------------------------------
// Chunked bodies

/// The first position, from `i` on, at which a carriage return and a line feed stand.
pub open spec fn line_end(data: Seq<u8>, i: int) -> Option<int>
    decreases data.len() - i,
{
    if i < 0 || i + 2 > data.len() {
        None
    } else if data[i] == 13 && data[i + 1] == 10 {
        Some(i)
    } else {
        line_end(data, i + 1)
    }
}

/// A line ends within the data.
pub proof fn lemma_line_end(data: Seq<u8>, i: int)
    ensures
        line_end(data, i) matches Some(e) ==> 0 <= i <= e && e + 2 <= data.len(),
    decreases data.len() - i,
{
    if 0 <= i && i + 2 <= data.len() && !(data[i] == 13 && data[i + 1] == 10) {
        lemma_line_end(data, i + 1);
    }
}

/// The size that a chunk line announces: what stands before the first `;`, without white space
/// around it, read as a hexadecimal number. Bytes that are not UTF-8 are no number.
pub open spec fn chunk_size(line: Seq<u8>) -> Option<nat> {
    let head = line.take(bytes::byte_at(line, 0x3b, 0));
    if vstd::utf8::valid_utf8(head) {
        number::number(text::trim(vstd::utf8::decode_utf8(head)), 16, usize::MAX as nat)
    } else {
        None
    }
}

/// The body that the chunks from position `i` on carry. The body ends at a chunk of size zero, at
/// a line that announces no size, where no line is left, or where the data ends inside a chunk.
pub open spec fn dechunked_from(data: Seq<u8>, i: int) -> Seq<u8>
    decreases data.len() + 2 - i,
{
    match line_end(data, i) {
        None => seq![],
        Some(e) => {
            proof {
                lemma_line_end(data, i);
            }
            match chunk_size(data.subrange(i, e)) {
                None => seq![],
                Some(n) => if n == 0 {
                    seq![]
                } else if e + 2 + n > data.len() {
                    data.skip(e + 2)
                } else {
                    data.subrange(e + 2, e + 2 + n) + dechunked_from(data, e + n + 4)
                },
            }
        },
    }
}

/// The body that chunked data carries.
pub open spec fn dechunked(data: Seq<u8>) -> Seq<u8> {
    dechunked_from(data, 0)
}

fn find_line_end(data: &[u8], from: usize) -> (r: Option<usize>)
    requires
        from <= data@.len(),
    ensures
        line_end(data@, from as int) == (match r {
            Some(e) => Some(e as int),
            None => None,
        }),
        r matches Some(e) ==> from <= e && e + 2 <= data@.len(),
{
    let n: usize = data.len();
    let mut i: usize = from;
    while n - i >= 2
        invariant
            from <= i <= n == data@.len(),
            line_end(data@, from as int) == line_end(data@, i as int),
        decreases n - i,
    {
        if data[i] == 13 && data[i + 1] == 10 {
            return Some(i);
        }
        i += 1;
    }
    None
}

/// The size that a chunk line announces.
pub fn read_chunk_size(line: &[u8]) -> (r: Option<usize>)
    ensures
        chunk_size(line@) == (match r {
            Some(n) => Some(n as nat),
            None => None,
        }),
{
    let end: usize = bytes::find_byte(line, 0x3b, 0);
    let head: Vec<u8> = bytes::cut_bytes(line, 0, end);
    assert(head@ =~= line@.take(end as int));
    match bytes::strict(head.as_slice()) {
        None => None,
        Some(s) => {
            let t: String = text::trimmed(s);
            match number::parse_number(t.as_str(), 16, usize::MAX as u64) {
                Some(n) => Some(n as usize),
                None => None,
            }
        },
    }
}

/// The body that chunked data carries.
pub fn decode_chunked(data: &[u8]) -> (r: Vec<u8>)
    ensures
        r@ == dechunked(data@),
{
    let len: usize = data.len();
    let mut out: Vec<u8> = Vec::new();
    let mut i: usize = 0;
    assert(out@ + dechunked(data@) =~= dechunked(data@));
    loop
        invariant
            i <= len == data@.len(),
            out@ + dechunked_from(data@, i as int) == dechunked(data@),
        decreases len - i,
    {
        let ghost done = out@;
        assert(done + Seq::<u8>::empty() =~= done);
        let e: usize = match find_line_end(data, i) {
            Some(e) => e,
            None => {
                return out;
            },
        };
        let line: Vec<u8> = bytes::cut_bytes(data, i, e);
        let size: usize = match read_chunk_size(line.as_slice()) {
            Some(n) => n,
            None => {
                return out;
            },
        };
        if size == 0 {
            return out;
        }
        let start: usize = e + 2;
        if size > len - start {
            bytes::append_bytes(&mut out, data, start, len);
            assert(data@.subrange(start as int, len as int) =~= data@.skip(start as int));
            return out;
        }
        bytes::append_bytes(&mut out, data, start, start + size);
        proof {
            assert(out@ + dechunked_from(data@, e + size + 4) =~= done + (data@.subrange(
                start as int,
                start + size,
            ) + dechunked_from(data@, e + size + 4)));
        }
        if len - start - size < 2 {
            assert(out@ + dechunked_from(data@, e + size + 4) =~= out@);
            return out;
        }
        i = start + size + 2;
    }
}

// ---------------------------------------------------------------------------
// Responses

#[derive(Debug)]
pub struct HttpResponse {
    pub status: u16,
    /// Names are in lower case.
    pub headers: Vec<(String, String)>,
    pub body: Vec<u8>,
}

/// A response as plain values.
pub struct Response {
    pub status: nat,
    pub headers: Seq<(Seq<char>, Seq<char>)>,
    pub body: Seq<u8>,
}

impl View for HttpResponse {
    type V = Response;

    open spec fn view(&self) -> Response {
        Response {
            status: self.status as nat,
            headers: text::pairs(self.headers@),
            body: self.body@,
        }
    }
}

impl Response {
    /// The value of the first header of that name. The letter case of `name` does not matter.
    pub open spec fn header(self, name: Seq<char>) -> Option<Seq<char>> {
        table::first_value(self.headers, text::lower(name))
    }
}

impl HttpResponse {
    /// The value of the first header of that name. The letter case of `name` does not matter.
    pub fn header(&self, name: &str) -> (r: Option<&str>)
        ensures
            self@.header(name@) == (match r {
                Some(v) => Some(v@),
                None => None,
            }),
    {
        let low: String = text::to_lower(name);
        match table::first_index(&self.headers, low.as_str()) {
            Some(i) => Some(self.headers[i].1.as_str()),
            None => None,
        }
    }
}

/// The position of the empty line that ends the head.
pub open spec fn head_end(raw: Seq<u8>, i: int) -> Option<int>
    decreases raw.len() - i,
{
    if i < 0 || i + 4 > raw.len() {
        None
    } else if raw[i] == 13 && raw[i + 1] == 10 && raw[i + 2] == 13 && raw[i + 3] == 10 {
        Some(i)
    } else {
        head_end(raw, i + 1)
    }
}

fn find_head_end(raw: &[u8]) -> (r: Option<usize>)
    ensures
        head_end(raw@, 0) == (match r {
            Some(e) => Some(e as int),
            None => None,
        }),
        r matches Some(e) ==> e + 4 <= raw@.len(),
{
    let n: usize = raw.len();
    let mut i: usize = 0;
    while n - i >= 4
        invariant
            i <= n == raw@.len(),
            head_end(raw@, 0) == head_end(raw@, i as int),
        decreases n - i,
    {
        if raw[i] == 13 && raw[i + 1] == 10 && raw[i + 2] == 13 && raw[i + 3] == 10 {
            return Some(i);
        }
        i += 1;
    }
    None
}

/// The second word of a status line, `0` where there is none.
pub open spec fn status_text(line: Seq<char>) -> Seq<char> {
    if split::words(line).len() >= 2 {
        split::words(line)[1]
    } else {
        "0"@
    }
}

/// A header line as its name in lower case and its value; `None` for a line without `:`.
pub open spec fn header_of(line: Seq<char>) -> Option<(Seq<char>, Seq<char>)> {
    match text::find(line, ":"@) {
        Some(k) => Some((text::lower(text::trim(line.take(k))), text::trim(line.skip(k + 1)))),
        None => None,
    }
}

/// The headers that the lines hold, in order.
pub open spec fn headers_of(lines: Seq<Seq<char>>) -> Seq<(Seq<char>, Seq<char>)>
    decreases lines.len(),
{
    if lines.len() == 0 {
        seq![]
    } else {
        match header_of(lines.last()) {
            Some(h) => headers_of(lines.drop_last()).push(h),
            None => headers_of(lines.drop_last()),
        }
    }
}

/// The status and the headers of a response head, or what is wrong with it.
pub open spec fn parsed_head(head: Seq<char>) -> Result<
    (nat, Seq<(Seq<char>, Seq<char>)>),
    Seq<char>,
> {
    let lines = split::split(head, "\r\n"@);
    match number::number(status_text(lines[0]), 10, u16::MAX as nat) {
        Some(status) => Ok((status, headers_of(lines.skip(1)))),
        None => Err("无法解析状态行: "@ + lines[0]),
    }
}

fn read_header(line: &str) -> (r: Option<(String, String)>)
    ensures
        header_of(line@) == (match r {
            Some(h) => Some((h.0@, h.1@)),
            None => None,
        }),
{
    proof {
        reveal_strlit(":");
    }
    match text::find_text(line, ":") {
        None => None,
        Some(k) => {
            let n: usize = line.unicode_len();
            let name: String = text::cut(line, 0, k);
            let value: String = text::cut(line, k + 1, n);
            proof {
                assert(name@ =~= line@.take(k as int));
                assert(value@ =~= line@.skip(k + 1));
            }
            let short: String = text::trimmed(name.as_str());
            Some((text::to_lower(short.as_str()), text::trimmed(value.as_str())))
        },
    }
}

/// The status and the headers of a response head.
pub fn parse_head(head: &str) -> (r: Result<(u16, Vec<(String, String)>), String>)
    ensures
        parsed_head(head@) == (match r {
            Ok(h) => Ok((h.0 as nat, text::pairs(h.1@))),
            Err(e) => Err(e@),
        }),
{
    proof {
        reveal_strlit("\r\n");
    }
    let lines: Vec<String> = split::pieces(head, "\r\n");
    let ghost all = split::split(head@, "\r\n"@);
    assert(all[0] == lines@[0]@);
    let words: Vec<String> = split::words_of(lines[0].as_str());
    assert(words@.len() == split::words(all[0]).len());
    let word: String = if words.len() >= 2 {
        assert(split::words(all[0])[1] == words@[1]@);
        words[1].clone()
    } else {
        "0".to_owned()
    };
    let status: u16 = match number::parse_number(word.as_str(), 10, u16::MAX as u64) {
        Some(n) => n as u16,
        None => {
            return Err(text::concat("无法解析状态行: ", lines[0].as_str()));
        },
    };
    let mut headers: Vec<(String, String)> = Vec::new();
    let mut i: usize = 1;
    while i < lines.len()
        invariant
            text::texts(lines@) == all,
            1 <= i <= lines@.len(),
            text::pairs(headers@) == headers_of(all.skip(1).take(i - 1)),
        decreases lines@.len() - i,
    {
        let ghost done = headers@;
        proof {
            assert(all[i as int] == lines@[i as int]@);
            assert(all.skip(1).take(i as int).drop_last() =~= all.skip(1).take(i - 1));
            assert(all.skip(1).take(i as int).last() == all[i as int]);
        }
        if let Some(h) = read_header(lines[i].as_str()) {
            let ghost pair = (h.0@, h.1@);
            headers.push(h);
            assert(text::pairs(headers@) =~= text::pairs(done).push(pair));
        }
        i += 1;
    }
    assert(all.skip(1).take(i - 1) =~= all.skip(1));
    Ok((status, headers))
}

/// The headers announce a chunked body.
pub open spec fn is_chunked(headers: Seq<(Seq<char>, Seq<char>)>) -> bool {
    exists|i: int|
        0 <= i < headers.len() && (#[trigger] headers[i]).0 == "transfer-encoding"@
            && text::contains(text::lower(headers[i].1), "chunked"@)
}

fn chunked(headers: &Vec<(String, String)>) -> (r: bool)
    ensures
        r == is_chunked(text::pairs(headers@)),
{
    let ghost all = text::pairs(headers@);
    let mut i: usize = 0;
    while i < headers.len()
        invariant
            all == text::pairs(headers@),
            i <= headers@.len(),
            forall|j: int|
                0 <= j < i ==> !((#[trigger] all[j]).0 == "transfer-encoding"@ && text::contains(
                    text::lower(all[j].1),
                    "chunked"@,
                )),
        decreases headers@.len() - i,
    {
        assert(all[i as int] == (headers@[i as int].0@, headers@[i as int].1@));
        if text::same(headers[i].0.as_str(), "transfer-encoding") {
            let low: String = text::to_lower(headers[i].1.as_str());
            if text::has(low.as_str(), "chunked") {
                return true;
            }
        }
        i += 1;
    }
    false
}

/// The head, as text, of raw bytes whose head ends at `sep`.
pub open spec fn head_text(raw: Seq<u8>, sep: int) -> Seq<char> {
    bytes::lossy_text(raw.take(sep))
}

/// The response that raw bytes hold, or what is wrong with them.
pub open spec fn parsed_response(raw: Seq<u8>) -> Result<Response, Seq<char>> {
    match head_end(raw, 0) {
        None => Err("响应缺少头部分隔符"@),
        Some(sep) => match parsed_head(head_text(raw, sep)) {
            Err(e) => Err(e),
            Ok(h) => Ok(
                Response {
                    status: h.0,
                    headers: h.1,
                    body: if is_chunked(h.1) {
                        dechunked(raw.skip(sep + 4))
                    } else {
                        raw.skip(sep + 4)
                    },
                },
            ),
        },
    }
}

/// A result of reading a response, as plain values.
pub open spec fn outcome(r: Result<HttpResponse, String>) -> Result<Response, Seq<char>> {
    match r {
        Ok(p) => Ok(p@),
        Err(e) => Err(e@),
    }
}

/// Where the head ends, and what it says.
fn read_front(raw: &[u8]) -> (r: Result<(usize, u16, Vec<(String, String)>), String>)
    ensures
        match head_end(raw@, 0) {
            None => r matches Err(e) && e@ == "响应缺少头部分隔符"@,
            Some(sep) => match parsed_head(head_text(raw@, sep)) {
                Err(m) => r matches Err(e) && e@ == m,
                Ok(h) => r matches Ok(f) && f.0 == sep && sep + 4 <= raw@.len() && f.1 == h.0
                    && text::pairs(f.2@) == h.1,
            },
        },
{
    let sep: usize = match find_head_end(raw) {
        Some(e) => e,
        None => {
            return Err("响应缺少头部分隔符".to_owned());
        },
    };
    let front: Vec<u8> = bytes::cut_bytes(raw, 0, sep);
    assert(front@ =~= raw@.take(sep as int));
    let head: String = bytes::lossy(front.as_slice());
    match parse_head(head.as_str()) {
        Ok(h) => Ok((sep, h.0, h.1)),
        Err(e) => Err(e),
    }
}

/// The response that raw bytes hold.
pub fn parse_response(raw: &[u8]) -> (r: Result<HttpResponse, String>)
    ensures
        outcome(r) == parsed_response(raw@),
{
    let n: usize = raw.len();
    match read_front(raw) {
        Err(e) => Err(e),
        Ok((sep, status, headers)) => {
            let rest: Vec<u8> = bytes::cut_bytes(raw, sep + 4, n);
            assert(rest@ =~= raw@.skip(sep + 4));
            let body: Vec<u8> = if chunked(&headers) {
                decode_chunked(rest.as_slice())
            } else {
                rest
            };
            Ok(HttpResponse { status, headers, body })
        },
    }
}

// ---------------------------------------------------------------------------
// Laws

/// Chunked data: every chunk has a line that announces it, and `last` announces the end.
pub open spec fn stream(chunks: Seq<(Seq<u8>, Seq<u8>)>, last: Seq<u8>) -> Seq<u8>
    decreases chunks.len(),
{
    if chunks.len() == 0 {
        last + seq![13u8, 10, 13, 10]
    } else {
        chunks[0].0 + seq![13u8, 10] + chunks[0].1 + seq![13u8, 10] + stream(
            chunks.drop_first(),
            last,
        )
    }
}

/// What the chunks carry.
pub open spec fn carried(chunks: Seq<(Seq<u8>, Seq<u8>)>) -> Seq<u8>
    decreases chunks.len(),
{
    if chunks.len() == 0 {
        seq![]
    } else {
        chunks[0].1 + carried(chunks.drop_first())
    }
}

/// The line announces a chunk of that size.
pub open spec fn announces(line: Seq<u8>, size: nat) -> bool {
    chunk_size(line) == Some(size) && !line.contains(13)
}

/// Every chunk has content, and its line announces its size.
pub open spec fn well_chunked(chunks: Seq<(Seq<u8>, Seq<u8>)>) -> bool {
    forall|i: int|
        0 <= i < chunks.len() ==> (#[trigger] chunks[i]).1.len() > 0 && announces(
            chunks[i].0,
            chunks[i].1.len(),
        )
}

proof fn lemma_line_end_at(data: Seq<u8>, i: int, k: int)
    requires
        0 <= i <= k,
        k + 2 <= data.len(),
        forall|j: int| i <= j < k ==> data[j] != 13,
        data[k] == 13,
        data[k + 1] == 10,
    ensures
        line_end(data, i) == Some(k),
    decreases k - i,
{
    if i < k {
        lemma_line_end_at(data, i + 1, k);
    }
}

proof fn lemma_stream(front: Seq<u8>, chunks: Seq<(Seq<u8>, Seq<u8>)>, last: Seq<u8>)
    requires
        well_chunked(chunks),
        announces(last, 0),
    ensures
        dechunked_from(front + stream(chunks, last), front.len() as int) == carried(chunks),
    decreases chunks.len(),
{
    let all = front + stream(chunks, last);
    let i = front.len() as int;
    let crlf = seq![13u8, 10];
    if chunks.len() == 0 {
        let k = i + last.len();
        assert(all =~= front + last + seq![13u8, 10, 13, 10]);
        assert forall|j: int| i <= j < k implies all[j] != 13 by {
            assert(all[j] == last[j - i]);
        }
        lemma_line_end_at(all, i, k);
        assert(all.subrange(i, k) =~= last);
    } else {
        let line = chunks[0].0;
        let data = chunks[0].1;
        let rest = chunks.drop_first();
        let k = i + line.len();
        assert(all =~= front + line + crlf + data + crlf + stream(rest, last));
        assert forall|j: int| i <= j < k implies all[j] != 13 by {
            assert(all[j] == line[j - i]);
        }
        lemma_line_end_at(all, i, k);
        assert(all.subrange(i, k) =~= line);
        assert(all.subrange(k + 2, k + 2 + data.len()) =~= data);
        assert forall|j: int| 0 <= j < rest.len() implies (#[trigger] rest[j]).1.len() > 0
            && announces(rest[j].0, rest[j].1.len()) by {
            assert(rest[j] == chunks[j + 1]);
        }
        lemma_stream(front + line + crlf + data + crlf, rest, last);
    }
}

/// Chunked data gives back what the chunks carry, however the body was cut into chunks and whatever
/// extensions the lines have.
pub proof fn law_chunks_are_joined(chunks: Seq<(Seq<u8>, Seq<u8>)>, last: Seq<u8>)
    requires
        well_chunked(chunks),
        announces(last, 0),
    ensures
        dechunked(stream(chunks, last)) == carried(chunks),
{
    lemma_stream(seq![], chunks, last);
    assert(Seq::<u8>::empty() + stream(chunks, last) =~= stream(chunks, last));
}

proof fn lemma_line_end_behind(front: Seq<u8>, data: Seq<u8>, i: int)
    requires
        0 <= i,
    ensures
        line_end(front + data, front.len() + i) == (match line_end(data, i) {
            Some(e) => Some(front.len() + e),
            None => None,
        }),
    decreases data.len() + 1 - i,
{
    if i + 2 <= data.len() {
        assert((front + data)[front.len() + i] == data[i]);
        assert((front + data)[front.len() + i + 1] == data[i + 1]);
        lemma_line_end_behind(front, data, i + 1);
    }
}

/// Chunks behind a position give what they give on their own.
proof fn lemma_dechunked_behind(front: Seq<u8>, data: Seq<u8>, i: int)
    requires
        0 <= i,
    ensures
        dechunked_from(front + data, front.len() + i) == dechunked_from(data, i),
    decreases data.len() + 2 - i,
{
    let all = front + data;
    lemma_line_end_behind(front, data, i);
    lemma_line_end(data, i);
    if let Some(e) = line_end(data, i) {
        assert(all.subrange(front.len() + i, front.len() + e) =~= data.subrange(i, e));
        if let Some(n) = chunk_size(data.subrange(i, e)) {
            if n > 0 && e + 2 + n > data.len() {
                assert(all.skip(front.len() + e + 2) =~= data.skip(e + 2));
            } else if n > 0 {
                assert(all.subrange(front.len() + e + 2, front.len() + e + 2 + n) =~= data.subrange(
                    e + 2,
                    e + 2 + n,
                ));
                lemma_dechunked_behind(front, data, e + n + 4);
            }
        }
    }
}

/// A chunk in front of any data adds its bytes, whatever the data is.
pub proof fn law_chunk_adds_its_bytes(line: Seq<u8>, chunk: Seq<u8>, rest: Seq<u8>)
    requires
        chunk.len() > 0,
        announces(line, chunk.len()),
    ensures
        dechunked(line + seq![13u8, 10] + chunk + seq![13u8, 10] + rest) == chunk + dechunked(rest),
{
    let crlf = seq![13u8, 10];
    let front = line + crlf + chunk + crlf;
    let all = front + rest;
    let k = line.len() as int;
    assert forall|j: int| 0 <= j < k implies all[j] != 13 by {
        assert(all[j] == line[j]);
        assert(line.contains(line[j]));
    }
    lemma_line_end_at(all, 0, k);
    assert(all.subrange(0, k) =~= line);
    assert(all.subrange(k + 2, k + 2 + chunk.len()) =~= chunk);
    lemma_dechunked_behind(front, rest, 0);
}

/// A line that announces the size zero ends the body, whatever follows it.
pub proof fn law_empty_chunk_ends_the_body(line: Seq<u8>, rest: Seq<u8>)
    requires
        announces(line, 0),
    ensures
        dechunked(line + seq![13u8, 10] + rest) == Seq::<u8>::empty(),
{
    let all = line + seq![13u8, 10] + rest;
    let k = line.len() as int;
    assert forall|j: int| 0 <= j < k implies all[j] != 13 by {
        assert(all[j] == line[j]);
        assert(line.contains(line[j]));
    }
    lemma_line_end_at(all, 0, k);
    assert(all.subrange(0, k) =~= line);
}

/// A hexadecimal digit.
pub open spec fn hex_digit(n: nat, upper: bool) -> u8 {
    if n < 10 {
        (48 + n) as u8
    } else if upper {
        (55 + n) as u8
    } else {
        (87 + n) as u8
    }
}

/// A number in hexadecimal, in upper or in lower case.
pub open spec fn hex(n: nat, upper: bool) -> Seq<u8>
    decreases n,
{
    if n < 16 {
        seq![hex_digit(n, upper)]
    } else {
        hex(n / 16, upper).push(hex_digit(n % 16, upper))
    }
}

/// The byte is a hexadecimal digit.
spec fn is_hex(b: u8) -> bool {
    48 <= b <= 57 || 65 <= b <= 70 || 97 <= b <= 102
}

/// Bytes as the characters of the same numbers.
spec fn ascii(bytes: Seq<u8>) -> Seq<char> {
    bytes.map_values(|b: u8| b as char)
}

proof fn lemma_hex(n: nat, upper: bool)
    ensures
        hex(n, upper).len() > 0,
        forall|i: int| 0 <= i < hex(n, upper).len() ==> is_hex(#[trigger] hex(n, upper)[i]),
        number::digits(ascii(hex(n, upper)), 16) == Some(n),
    decreases n,
{
    let h = hex(n, upper);
    let t = ascii(h);
    let d = n % 16;
    assert(h.last() == hex_digit(d, upper));
    assert(t.last() == hex_digit(d, upper) as char);
    assert(number::digit_value(t.last()) == d);
    if n < 16 {
        assert(t.drop_last() =~= seq![]);
        assert(number::digits(t.drop_last(), 16) == Some(0nat));
    } else {
        lemma_hex(n / 16, upper);
        assert(t.drop_last() =~= ascii(hex(n / 16, upper)));
        assert((n / 16) * 16 + n % 16 == n);
    }
}

proof fn lemma_ascii(bytes: Seq<u8>)
    requires
        forall|i: int| 0 <= i < bytes.len() ==> #[trigger] bytes[i] <= 0x7f,
    ensures
        vstd::utf8::valid_utf8(bytes),
        vstd::utf8::decode_utf8(bytes) == ascii(bytes),
{
    let t = ascii(bytes);
    assert forall|i: int| 0 <= i < t.len() implies '\0' <= #[trigger] t[i] <= '\u{7f}' by {
        assert(bytes[i] <= 0x7f);
        assert(t[i] == bytes[i] as char);
    }
    assert(vstd::utf8::is_ascii_chars(t));
    vstd::utf8::is_ascii_chars_encode_utf8(t);
    vstd::utf8::encode_utf8_valid_utf8(t);
    vstd::utf8::encode_utf8_decode_utf8(t);
    assert forall|i: int| 0 <= i < t.len() implies vstd::utf8::encode_utf8(t)[i] == bytes[i] by {
        assert(bytes[i] <= 0x7f);
        assert(t[i] as u8 == vstd::utf8::encode_utf8(t)[i]);
    }
    assert(vstd::utf8::encode_utf8(t) =~= bytes);
}

/// A size in hexadecimal, in either case and with any extension behind a `;`, announces a chunk of
/// that size.
pub proof fn law_size_line_announces(n: nat, upper: bool, extension: Seq<u8>)
    requires
        n <= usize::MAX,
        extension.len() > 0 ==> extension[0] == 0x3b,
        !extension.contains(13),
    ensures
        announces(hex(n, upper) + extension, n),
{
    let h = hex(n, upper);
    let line = h + extension;
    let t = ascii(h);
    let k = h.len() as int;
    lemma_hex(n, upper);
    assert forall|i: int| 0 <= i < k implies line[i] != 0x3b && line[i] != 13 by {
        assert(line[i] == h[i]);
        assert(is_hex(h[i]));
    }
    bytes::lemma_byte_at(line, 0x3b, 0);
    let end = bytes::byte_at(line, 0x3b, 0);
    if extension.len() > 0 {
        assert(line[k] == 0x3b);
    }
    assert(end == k);
    assert(line.take(k) =~= h);
    assert forall|i: int| 0 <= i < h.len() implies #[trigger] h[i] <= 0x7f by {
        assert(is_hex(h[i]));
    }
    lemma_ascii(h);
    assert(is_hex(h[0]) && is_hex(h[k - 1]));
    assert(t[0] == h[0] as char && t.last() == h[k - 1] as char);
    assert(!text::is_space(t[0]) && !text::is_space(t.last()));
    text::lemma_trim_nothing(t);
    assert(t[0] != '+');
    assert forall|i: int| 0 <= i < line.len() implies line[i] != 13 by {
        if i >= k {
            assert(line[i] == extension[i - k]);
            assert(extension.contains(extension[i - k]));
        }
    }
}

/// A chunk whose size is written in hexadecimal, in either case and with any extension, adds its
/// bytes to what any data behind it gives; the size zero ends the body.
pub proof fn law_written_chunk_adds_its_bytes(
    chunk: Seq<u8>,
    upper: bool,
    extension: Seq<u8>,
    rest: Seq<u8>,
)
    requires
        chunk.len() <= usize::MAX,
        extension.len() > 0 ==> extension[0] == 0x3b,
        !extension.contains(13),
    ensures
        chunk.len() > 0 ==> dechunked(
            hex(chunk.len(), upper) + extension + seq![13u8, 10] + chunk + seq![13u8, 10] + rest,
        ) == chunk + dechunked(rest),
        dechunked(hex(0, upper) + extension + seq![13u8, 10] + rest) == Seq::<u8>::empty(),
{
    law_size_line_announces(chunk.len(), upper, extension);
    law_size_line_announces(0, upper, extension);
    if chunk.len() > 0 {
        law_chunk_adds_its_bytes(hex(chunk.len(), upper) + extension, chunk, rest);
    }
    law_empty_chunk_ends_the_body(hex(0, upper) + extension, rest);
}

/// The letter case of a header name does not matter to a lookup.
pub proof fn law_header_case_is_ignored(resp: Response, a: Seq<char>, b: Seq<char>)
    requires
        text::same_ignoring_case(a, b),
    ensures
        resp.header(a) == resp.header(b),
{
}

proof fn lemma_headers_lower(lines: Seq<Seq<char>>)
    ensures
        forall|i: int|
            0 <= i < headers_of(lines).len() ==> text::lower((#[trigger] headers_of(lines)[i]).0)
                == headers_of(lines)[i].0,
    decreases lines.len(),
{
    if lines.len() > 0 {
        let before = headers_of(lines.drop_last());
        lemma_headers_lower(lines.drop_last());
        if let Some(h) = header_of(lines.last()) {
            let k = text::find(lines.last(), ":"@)->0;
            text::lemma_lower_idempotent(text::trim(lines.last().take(k)));
            assert(text::lower(h.0) == h.0);
            assert forall|i: int| 0 <= i < headers_of(lines).len() implies text::lower(
                (#[trigger] headers_of(lines)[i]).0,
            ) == headers_of(lines)[i].0 by {
                if i < before.len() {
                    assert(headers_of(lines)[i] == before[i]);
                }
            }
        }
    }
}

/// The names of the headers of a response are in lower case.
pub proof fn law_header_names_are_lower(raw: Seq<u8>)
    ensures
        parsed_response(raw) matches Ok(resp) ==> forall|i: int|
            0 <= i < resp.headers.len() ==> text::lower((#[trigger] resp.headers[i]).0)
                == resp.headers[i].0,
{
    if let Some(sep) = head_end(raw, 0) {
        lemma_headers_lower(split::split(head_text(raw, sep), "\r\n"@).skip(1));
    }
}

/// The head of a response in writing: a status line and a line for each header.
pub open spec fn head_lines(status: nat, headers: Seq<(Seq<char>, Seq<char>)>) -> Seq<Seq<char>>
    decreases headers.len(),
{
    if headers.len() == 0 {
        seq!["HTTP/1.1 "@ + number::decimal(status)]
    } else {
        head_lines(status, headers.drop_last()).push(
            headers.last().0 + ": "@ + headers.last().1,
        )
    }
}

/// The header can be written: its name is in lower case and holds no `:`, and neither name nor
/// value holds a carriage return or has white space around it.
pub open spec fn is_header(h: (Seq<char>, Seq<char>)) -> bool {
    &&& text::lower(h.0) == h.0
    &&& text::trim(h.0) == h.0
    &&& text::trim(h.1) == h.1
    &&& !h.0.contains(':')
    &&& !h.0.contains('\r')
    &&& !h.1.contains('\r')
}

proof fn lemma_header_line(h: (Seq<char>, Seq<char>))
    requires
        is_header(h),
    ensures
        header_of(h.0 + ": "@ + h.1) == Some(h),
        !(h.0 + ": "@ + h.1).contains('\r'),
{
    let line = h.0 + ": "@ + h.1;
    let k = h.0.len() as int;
    reveal_strlit(": ");
    reveal_strlit(":");
    text::lemma_find_from(line, ":"@, 0);
    assert(line.subrange(k, k + 1) =~= ":"@);
    assert(text::occurs_at(line, ":"@, k));
    let found = text::find(line, ":"@)->0;
    if found < k {
        assert(line.subrange(found, found + 1)[0] == h.0[found]);
    }
    assert(line.take(k) =~= h.0);
    let value = seq![' '] + h.1;
    assert(line.skip(k + 1) =~= value);
    assert(text::is_space(' '));
    assert(value.drop_first() =~= h.1);
    assert(text::trim(value) == text::trim(h.1));
}

proof fn lemma_status_line(status: nat)
    requires
        status <= u16::MAX,
    ensures
        number::number(status_text("HTTP/1.1 "@ + number::decimal(status)), 10, u16::MAX as nat)
            == Some(status),
        !("HTTP/1.1 "@ + number::decimal(status)).contains('\r'),
{
    let d = number::decimal(status);
    let version = "HTTP/1.1"@;
    reveal_strlit("HTTP/1.1 ");
    reveal_strlit("HTTP/1.1");
    number::lemma_decimal_chars(status);
    number::law_decimal_reads_back(status, u16::MAX as nat);
    let rest = seq![' '] + d;
    assert("HTTP/1.1 "@ + d =~= version + rest);
    split::lemma_words_front(version, rest);
    split::lemma_words_space(' ', d);
    assert(d + seq![] =~= d);
    split::lemma_words_front(d, seq![]);
    assert(split::words(seq![]) =~= seq![]);
    assert(split::words("HTTP/1.1 "@ + d) =~= seq![version, d]);
}

proof fn lemma_head_lines(status: nat, headers: Seq<(Seq<char>, Seq<char>)>)
    requires
        status <= u16::MAX,
        forall|i: int| 0 <= i < headers.len() ==> is_header(#[trigger] headers[i]),
    ensures
        head_lines(status, headers).len() == headers.len() + 1,
        head_lines(status, headers)[0] == "HTTP/1.1 "@ + number::decimal(status),
        headers_of(head_lines(status, headers).skip(1)) == headers,
        forall|i: int|
            0 <= i < head_lines(status, headers).len() ==> !(#[trigger] head_lines(
                status,
                headers,
            )[i]).contains('\r'),
    decreases headers.len(),
{
    let lines = head_lines(status, headers);
    lemma_status_line(status);
    if headers.len() == 0 {
        assert(lines.skip(1) =~= seq![]);
        assert(headers_of(lines.skip(1)) =~= headers);
    } else {
        let front = headers.drop_last();
        let before = head_lines(status, front);
        let h = headers[headers.len() - 1];
        lemma_header_line(h);
        lemma_head_lines(status, front);
        assert(lines.skip(1).drop_last() =~= before.skip(1));
        assert(lines.skip(1).last() == h.0 + ": "@ + h.1);
        assert(front.push(h) =~= headers);
        assert forall|i: int| 0 <= i < lines.len() implies !(#[trigger] lines[i]).contains(
            '\r',
        ) by {
            if i < before.len() {
                assert(lines[i] == before[i]);
            }
        }
    }
}

/// Reading the head of a response gives its status and its headers, in their order.
pub proof fn law_head_reads_back(status: nat, headers: Seq<(Seq<char>, Seq<char>)>)
    requires
        status <= u16::MAX,
        forall|i: int| 0 <= i < headers.len() ==> is_header(#[trigger] headers[i]),
    ensures
        parsed_head(split::joined(head_lines(status, headers), "\r\n"@)) matches Ok(h) && h.0
            == status && h.1 == headers,
{
    lemma_head_lines(status, headers);
    lemma_status_line(status);
    reveal_strlit("\r\n");
    split::lemma_split_joined(head_lines(status, headers), "\r\n"@);
}

/// The value of a header is that of the first one of that name, whatever the letter case.
pub proof fn law_first_header_counts(
    resp: Response,
    front: Seq<(Seq<char>, Seq<char>)>,
    name: Seq<char>,
    value: Seq<char>,
    back: Seq<(Seq<char>, Seq<char>)>,
)
    requires
        resp.headers == front + seq![(text::lower(name), value)] + back,
        forall|i: int| 0 <= i < front.len() ==> (#[trigger] front[i]).0 != text::lower(name),
    ensures
        resp.header(name) == Some(value),
{
    table::law_first_and_last_value(front, text::lower(name), value, back);
}

/// A header that no line gives has no value.
pub proof fn law_missing_header(resp: Response, name: Seq<char>)
    requires
        forall|i: int|
            0 <= i < resp.headers.len() ==> (#[trigger] resp.headers[i]).0 != text::lower(name),
    ensures
        resp.header(name) is None,
{
    table::law_unknown_key_has_no_value(resp.headers, text::lower(name));
}

/// An empty line stands at that position.
pub open spec fn empty_line_at(raw: Seq<u8>, k: int) -> bool {
    0 <= k && k + 4 <= raw.len() && raw[k] == 13 && raw[k + 1] == 10 && raw[k + 2] == 13 && raw[k
        + 3] == 10
}

proof fn lemma_head_end(raw: Seq<u8>, i: int, n: int)
    requires
        0 <= i <= n,
        empty_line_at(raw, n),
        forall|k: int| i <= k < n ==> !empty_line_at(raw, k),
    ensures
        head_end(raw, i) == Some(n),
    decreases n - i,
{
    if i < n {
        assert(!empty_line_at(raw, i));
        lemma_head_end(raw, i + 1, n);
    }
}

/// A response is its head, up to the first empty line, and its body: all bytes behind that line,
/// as they are. Only where a `transfer-encoding` header speaks of chunks are they joined.
pub proof fn law_body_follows_the_head(
    head: Seq<u8>,
    body: Seq<u8>,
    status: nat,
    headers: Seq<(Seq<char>, Seq<char>)>,
    i: int,
)
    requires
        parsed_head(bytes::lossy_text(head)) == Ok::<
            (nat, Seq<(Seq<char>, Seq<char>)>),
            Seq<char>,
        >((status, headers)),
        forall|k: int| 0 <= k < head.len() ==> !empty_line_at(head + seq![13u8, 10, 13, 10], k),
    ensures
        (forall|k: int|
            0 <= k < headers.len() ==> (#[trigger] headers[k]).0 != "transfer-encoding"@)
            ==> parsed_response(head + seq![13u8, 10, 13, 10] + body) == Ok::<Response, Seq<char>>(
            (Response { status, headers, body }),
        ),
        0 <= i < headers.len() && headers[i].0 == "transfer-encoding"@ && text::contains(
            text::lower(headers[i].1),
            "chunked"@,
        ) ==> parsed_response(head + seq![13u8, 10, 13, 10] + body) == Ok::<Response, Seq<char>>(
            (Response { status, headers, body: dechunked(body) }),
        ),
{
    let raw = head + seq![13u8, 10, 13, 10] + body;
    let short = head + seq![13u8, 10, 13, 10];
    let n = head.len() as int;
    assert forall|k: int| 0 <= k < n implies !empty_line_at(raw, k) by {
        assert(!empty_line_at(short, k));
        assert(raw[k] == short[k] && raw[k + 1] == short[k + 1] && raw[k + 2] == short[k + 2]
            && raw[k + 3] == short[k + 3]);
    }
    lemma_head_end(raw, 0, n);
    assert(raw.take(n) =~= head);
    assert(raw.skip(n + 4) =~= body);
}

/// A response without an empty line is an error.
pub proof fn law_response_needs_an_empty_line(raw: Seq<u8>)
    requires
        forall|k: int| !empty_line_at(raw, k),
    ensures
        parsed_response(raw) is Err,
{
    lemma_no_head_end(raw, 0);
}

proof fn lemma_no_head_end(raw: Seq<u8>, i: int)
    requires
        0 <= i,
        forall|k: int| !empty_line_at(raw, k),
    ensures
        head_end(raw, i) is None,
    decreases raw.len() - i,
{
    if i + 4 <= raw.len() {
        assert(!empty_line_at(raw, i));
        lemma_no_head_end(raw, i + 1);
    }
}

/// A header is what stands before the first colon of its line, in lower case, and what stands
/// behind it, both without white space around them. A line without a colon is none.
pub proof fn law_header_line(name: Seq<char>, value: Seq<char>)
    requires
        !name.contains(':'),
    ensures
        header_of(name + seq![':'] + value) == Some(
            (text::lower(text::trim(name)), text::trim(value)),
        ),
        header_of(name) is None,
{
    let line = name + seq![':'] + value;
    let n = name.len() as int;
    reveal_strlit(":");
    let colon = ":"@;
    assert(line.subrange(n, n + 1) =~= colon);
    assert(text::occurs_at(line, colon, n));
    text::lemma_find_from(line, colon, 0);
    let k = text::find(line, colon)->0;
    if k < n {
        assert(line.subrange(k, k + 1)[0] == name[k]);
        assert(name.contains(name[k]));
    }
    assert(line.take(n) =~= name);
    assert(line.skip(n + 1) =~= value);
    text::lemma_find_from(name, colon, 0);
    if let Some(j) = text::find(name, colon) {
        assert(name.subrange(j, j + 1)[0] == name[j]);
        assert(name.contains(name[j]));
    }
}

/// The status is the second word of the first line, whatever the protocol and the reason are.
pub proof fn law_status_is_the_second_word(
    protocol: Seq<char>,
    status: nat,
    reason: Seq<char>,
)
    requires
        status <= u16::MAX,
        protocol.len() > 0,
        forall|i: int| 0 <= i < protocol.len() ==> !text::is_space(#[trigger] protocol[i]),
        reason.len() > 0 ==> reason[0] == ' ',
        !reason.contains('\r'),
    ensures
        parsed_head(protocol + seq![' '] + number::decimal(status) + reason) matches Ok(h) && h.0
            == status && h.1.len() == 0,
{
    let d = number::decimal(status);
    let line = protocol + seq![' '] + d + reason;
    reveal_strlit("\r\n");
    number::lemma_decimal_chars(status);
    number::law_decimal_reads_back(status, u16::MAX as nat);
    text::law_white_space();
    assert forall|i: int| 0 <= i < d.len() implies !text::is_space(#[trigger] d[i]) by {
        assert('0' <= d[i] <= '9');
    }
    assert(line =~= protocol + (seq![' '] + (d + reason)));
    split::lemma_words_front(protocol, seq![' '] + (d + reason));
    split::lemma_words_space(' ', d + reason);
    split::lemma_words_front(d, reason);
    assert(split::words(line)[1] == d);
    assert forall|i: int| 0 <= i < line.len() implies line[i] != '\r' by {
        let n = protocol.len();
        if i < n {
            assert(line[i] == protocol[i]);
        } else if i == n {
            assert(line[i] == ' ');
        } else if i < n + 1 + d.len() {
            assert(line[i] == d[i - n - 1]);
        } else {
            assert(line[i] == reason[i - n - 1 - d.len()]);
            assert(reason.contains(reason[i - n - 1 - d.len()]));
        }
    }
    let parts = seq![line];
    assert(split::joined(parts, "\r\n"@) == line);
    split::lemma_split_joined(parts, "\r\n"@);
    assert(parts.skip(1) =~= seq![]);
}

/// A chunk that ends too soon gives what there is of it.
pub proof fn law_short_chunk_is_kept(line: Seq<u8>, size: nat, rest: Seq<u8>)
    requires
        announces(line, size),
        rest.len() < size,
    ensures
        dechunked(line + seq![13u8, 10] + rest) == rest,
{
    let data = line + seq![13u8, 10] + rest;
    let n = line.len() as int;
    assert forall|j: int| 0 <= j < n implies data[j] != 13 by {
        assert(line.contains(line[j]));
    }
    lemma_line_end_at(data, 0, n);
    assert(data.subrange(0, n) =~= line);
    assert(data.skip(n + 2) =~= rest);
}

/// Blanks around the size of a chunk do not count.
pub proof fn law_blanks_around_a_size(
    n: nat,
    upper: bool,
    front: nat,
    back: nat,
    extension: Seq<u8>,
)
    requires
        n <= usize::MAX,
        extension.len() > 0 ==> extension[0] == 0x3b,
        !extension.contains(13),
    ensures
        announces(
            Seq::new(front, |i: int| 0x20u8) + hex(n, upper) + Seq::new(back, |i: int| 0x20u8)
                + extension,
            n,
        ),
{
    let h = hex(n, upper);
    let a = Seq::new(front, |i: int| 0x20u8);
    let b = Seq::new(back, |i: int| 0x20u8);
    let head = a + h + b;
    let line = head + extension;
    let t = ascii(h);
    let x = Seq::new(front, |i: int| ' ');
    let y = Seq::new(back, |i: int| ' ');
    let k = head.len() as int;
    lemma_hex(n, upper);
    assert forall|i: int| 0 <= i < k implies #[trigger] head[i] <= 0x7f && head[i] != 0x3b
        && head[i] != 13 by {
        if front <= i < front + h.len() {
            assert(head[i] == h[i - front]);
            assert(is_hex(h[i - front]));
        }
    }
    assert forall|i: int| 0 <= i < k implies line[i] != 0x3b && line[i] != 13 by {
        assert(line[i] == head[i]);
    }
    bytes::lemma_byte_at(line, 0x3b, 0);
    let end = bytes::byte_at(line, 0x3b, 0);
    if extension.len() > 0 {
        assert(line[k] == 0x3b);
    }
    assert(end == k);
    assert(line.take(k) =~= head);
    lemma_ascii(head);
    assert(ascii(head) =~= x + t + y) by {
        assert(' ' as u8 == 0x20u8 && 0x20u8 as char == ' ');
    }
    text::law_white_space();
    assert(is_hex(h[0]) && is_hex(h[h.len() - 1]));
    assert(t[0] == h[0] as char && t.last() == h[h.len() - 1] as char);
    assert(!text::is_space(t[0]) && !text::is_space(t.last()));
    text::law_trim_cuts_white_space_only(x, t, y);
    assert(t[0] != '+');
    assert forall|i: int| 0 <= i < line.len() implies line[i] != 13 by {
        if i >= k {
            assert(line[i] == extension[i - k]);
            assert(extension.contains(extension[i - k]));
        }
    }
}

/// A first line of one word stands for the status 0, which no reply that counts has.
pub proof fn law_status_line_of_one_word(word: Seq<char>)
    requires
        word.len() > 0,
        forall|i: int| 0 <= i < word.len() ==> !text::is_space(#[trigger] word[i]),
    ensures
        parsed_head(word) matches Ok(h) && h.0 == 0 && h.1.len() == 0,
{
    reveal_strlit("\r\n");
    reveal_strlit("0");
    text::law_white_space();
    let none = Seq::<char>::empty();
    assert(word + none =~= word);
    split::lemma_words_front(word, none);
    assert(split::words(none) =~= seq![]);
    assert(split::words(word) =~= seq![word]);
    assert("0"@ =~= number::decimal(0));
    number::law_decimal_reads_back(0, u16::MAX as nat);
    let parts = seq![word];
    assert forall|i: int| 0 <= i < word.len() implies word[i] != '\r' by {
        assert(!text::is_space(word[i]));
    }
    assert(split::joined(parts, "\r\n"@) == word);
    split::lemma_split_joined(parts, "\r\n"@);
    assert(parts.skip(1) =~= seq![]);
}

/// A status that is no number is an error, which tells the line.
pub proof fn law_status_must_be_a_number(
    protocol: Seq<char>,
    word: Seq<char>,
    reason: Seq<char>,
)
    requires
        protocol.len() > 0,
        forall|i: int| 0 <= i < protocol.len() ==> !text::is_space(#[trigger] protocol[i]),
        word.len() > 0,
        forall|i: int| 0 <= i < word.len() ==> !text::is_space(#[trigger] word[i]),
        reason.len() > 0 ==> reason[0] == ' ',
        !reason.contains('\r'),
        number::number(word, 10, u16::MAX as nat) is None,
    ensures
        parsed_head(protocol + seq![' '] + word + reason) matches Err(e) && text::contains(
            e,
            protocol + seq![' '] + word + reason,
        ),
{
    let line = protocol + seq![' '] + word + reason;
    reveal_strlit("\r\n");
    text::law_white_space();
    assert(line =~= protocol + (seq![' '] + (word + reason)));
    split::lemma_words_front(protocol, seq![' '] + (word + reason));
    split::lemma_words_space(' ', word + reason);
    split::lemma_words_front(word, reason);
    assert(split::words(line)[1] == word);
    assert forall|i: int| 0 <= i < line.len() implies line[i] != '\r' by {
        let n = protocol.len();
        if i < n {
            assert(line[i] == protocol[i]);
        } else if i == n {
            assert(line[i] == ' ');
        } else if i < n + 1 + word.len() {
            assert(line[i] == word[i - n - 1]);
        } else {
            assert(line[i] == reason[i - n - 1 - word.len()]);
            assert(reason.contains(reason[i - n - 1 - word.len()]));
        }
    }
    let parts = seq![line];
    assert(split::joined(parts, "\r\n"@) == line);
    split::lemma_split_joined(parts, "\r\n"@);
    text::law_part_is_contained("无法解析状态行: "@, line, seq![]);
    assert("无法解析状态行: "@ + line =~= "无法解析状态行: "@ + line + seq![]);
}

}
