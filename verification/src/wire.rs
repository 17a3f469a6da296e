//! The wire protocol: request messages as text, and responses back into
//! documents.

use crate::error::{ConnectorError, ParseFailure};
use crate::json::{codec_read, payload, parsed_document, Json, JsonView};
use vstd::prelude::*;
use vstd::slice::slice_subrange;
use vstd::utf8::{encode_utf8, is_ascii_chars_encode_utf8};

verus! {

pub const CR: u8 = 13;

pub const LF: u8 = 10;

pub const SPACE: u8 = 32;

pub const TAB: u8 = 9;

pub const COLON: u8 = 58;

/// How the transport treats the peer's certificate.
#[derive(Clone, Copy, Debug, PartialEq, Eq, Structural)]
pub enum CertPolicy {
    /// The certificate chain is verified.
    Verify,
    /// The certificate is not verified: for attested peers inside the
    /// deployment only.
    SkipVerification,
}

/// The decimal digits of `n`, most significant first.
pub open spec fn decimal(n: nat) -> Seq<u8>
    decreases n,
{
    if n < 10 {
        seq![(48 + n) as u8]
    } else {
        decimal(n / 10).push((48 + n % 10) as u8)
    }
}

/// Renders `n` in decimal.
pub fn render_decimal(n: u64) -> (r: Vec<u8>)
    ensures
        r@ == decimal(n as nat),
    decreases n,
{
    if n < 10 {
        let mut out: Vec<u8> = Vec::new();
        out.push(48 + n as u8);
        assert(out@ =~= decimal(n as nat));
        out
    } else {
        let mut out = render_decimal(n / 10);
        out.push(48 + (n % 10) as u8);
        out
    }
}

/// The number that decimal digits write, most significant first.
pub open spec fn decimal_value(digits: Seq<u8>) -> nat
    decreases digits.len(),
{
    if digits.len() == 0 {
        0
    } else {
        (10 * decimal_value(digits.drop_last()) + (digits.last() - 48)) as nat
    }
}

/// The decimal rendering of a number holds digits only, and writes that
/// number.
pub proof fn lemma_decimal_value(n: nat)
    ensures
        decimal(n).len() >= 1,
        forall|i: int| 0 <= i < decimal(n).len() ==> is_digit(#[trigger] decimal(n)[i]),
        decimal_value(decimal(n)) == n,
    decreases n,
{
    if n < 10 {
        assert(decimal(n).drop_last() =~= Seq::<u8>::empty());
        assert(decimal_value(decimal(n)) == 10 * decimal_value(Seq::<u8>::empty()) + n);
    } else {
        lemma_decimal_value(n / 10);
        let high = decimal(n / 10);
        let digits = decimal(n);
        assert(digits.drop_last() =~= high);
        assert forall|i: int| 0 <= i < digits.len() implies is_digit(#[trigger] digits[i]) by {
            if i < high.len() {
                assert(digits[i] == high[i]);
            }
        }
    }
}

/// The bytes `\r\n`.
pub open spec fn crlf() -> Seq<u8> {
    seq![CR, LF]
}

/// One header line: the name, a colon and a space, the value, and the line
/// end.
pub open spec fn header_line(name: Seq<char>, value: Seq<char>) -> Seq<u8> {
    encode_utf8(name) + seq![COLON, SPACE] + encode_utf8(value) + crlf()
}

/// The lines of `headers`, in order.
pub open spec fn header_lines(headers: Seq<(Seq<char>, Seq<char>)>) -> Seq<u8>
    decreases headers.len(),
{
    if headers.len() == 0 {
        Seq::empty()
    } else {
        header_lines(headers.drop_last()) + header_line(headers.last().0, headers.last().1)
    }
}

/// What follows the header lines: with a body, the length header that counts
/// the body's bytes, the blank line and the body; without one, the blank line.
pub open spec fn message_tail(body: Option<Seq<u8>>) -> Seq<u8> {
    match body {
        Some(b) => encode_utf8("Content-Length: "@) + decimal(b.len()) + crlf() + crlf() + b,
        None => crlf(),
    }
}

/// The text of a request: the request line, the host line, the header lines
/// and the tail.
pub open spec fn request_text(
    method: Seq<char>,
    path: Seq<u8>,
    host: Seq<char>,
    headers: Seq<(Seq<char>, Seq<char>)>,
    body: Option<Seq<u8>>,
) -> Seq<u8> {
    encode_utf8(method) + seq![SPACE] + path + encode_utf8(" HTTP/1.1\r\n"@) + encode_utf8(
        "HOST: "@,
    ) + encode_utf8(host) + crlf() + header_lines(headers) + message_tail(body)
}

/// What `body` stands for in a contract.
pub open spec fn body_view(body: Option<&[u8]>) -> Option<Seq<u8>> {
    match body {
        Some(b) => Some(b@),
        None => None,
    }
}

/// What `headers` stand for in a contract.
pub open spec fn header_views(headers: Seq<(String, String)>) -> Seq<(Seq<char>, Seq<char>)> {
    Seq::new(headers.len(), |i: int| (headers[i].0@, headers[i].1@))
}

/// Renders a request. The length header, present exactly when there is a
/// body, counts the bytes of the body as they are sent.
pub fn build_request(
    method: &str,
    path: &[u8],
    host: &str,
    headers: &Vec<(String, String)>,
    body: Option<&[u8]>,
) -> (r: Vec<u8>)
    ensures
        r@ == request_text(method@, path@, host@, header_views(headers@), body_view(body)),
{
    let mut out: Vec<u8> = Vec::new();
    out.extend_from_slice(method.as_bytes());
    out.push(SPACE);
    out.extend_from_slice(path);
    out.extend_from_slice(" HTTP/1.1\r\n".as_bytes());
    out.extend_from_slice("HOST: ".as_bytes());
    out.extend_from_slice(host.as_bytes());
    out.push(CR);
    out.push(LF);
    let ghost start = out@;
    let ghost all = header_views(headers@);
    assert(start =~= encode_utf8(method@) + seq![SPACE] + path@ + encode_utf8(" HTTP/1.1\r\n"@)
        + encode_utf8("HOST: "@) + encode_utf8(host@) + crlf());
    let mut i: usize = 0;
    while i < headers.len()
        invariant
            i <= headers@.len(),
            all == header_views(headers@),
            out@ == start + header_lines(all.take(i as int)),
        decreases headers@.len() - i,
    {
        let ghost before = out@;
        out.extend_from_slice(headers[i].0.as_str().as_bytes());
        out.push(COLON);
        out.push(SPACE);
        out.extend_from_slice(headers[i].1.as_str().as_bytes());
        out.push(CR);
        out.push(LF);
        proof {
            let next = all.take(i + 1);
            assert(next.drop_last() =~= all.take(i as int));
            assert(next.last() == all[i as int]);
            assert(out@ =~= before + header_line(all[i as int].0, all[i as int].1));
        }
        i += 1;
    }
    assert(all.take(i as int) =~= all);
    match body {
        Some(b) => {
            let ghost before = out@;
            out.extend_from_slice("Content-Length: ".as_bytes());
            let digits = render_decimal(b.len() as u64);
            out.extend_from_slice(digits.as_slice());
            out.push(CR);
            out.push(LF);
            out.push(CR);
            out.push(LF);
            out.extend_from_slice(b);
            assert(out@ =~= before + message_tail(body_view(body)));
        },
        None => {
            let ghost before = out@;
            out.push(CR);
            out.push(LF);
            assert(out@ =~= before + message_tail(body_view(body)));
        },
    }
    out
}

/// Whether a line end starts at `i`.
pub open spec fn crlf_at(s: Seq<u8>, i: int) -> bool {
    0 <= i && i + 1 < s.len() && s[i] == CR && s[i + 1] == LF
}

/// Where the first line end at or after `from` starts; the length of `s`
/// where there is none.
pub open spec fn line_end(s: Seq<u8>, from: int) -> int
    decreases s.len() - from,
{
    if from < 0 || from + 1 >= s.len() {
        s.len() as int
    } else if crlf_at(s, from) {
        from
    } else {
        line_end(s, from + 1)
    }
}

/// A line ends no earlier than it starts, and within the text.
proof fn lemma_line_end_bounds(s: Seq<u8>, from: int)
    requires
        0 <= from <= s.len(),
    ensures
        from <= line_end(s, from) <= s.len(),
        line_end(s, from) < s.len() ==> crlf_at(s, line_end(s, from)),
    decreases s.len() - from,
{
    if from + 1 < s.len() && !crlf_at(s, from) {
        lemma_line_end_bounds(s, from + 1);
    }
}

/// Finds the first line end at or after `from`.
pub fn find_line_end(s: &[u8], from: usize) -> (r: usize)
    ensures
        r == line_end(s@, from as int),
        r <= s@.len(),
        from <= s@.len() ==> from <= r,
        r < s@.len() ==> crlf_at(s@, r as int),
{
    proof {
        if from <= s@.len() {
            lemma_line_end_bounds(s@, from as int);
        }
    }
    let mut i: usize = from;
    while i < s.len() && i + 1 < s.len()
        invariant
            from <= i,
            line_end(s@, from as int) == line_end(s@, i as int),
        decreases s@.len() - i,
    {
        if s[i] == CR && s[i + 1] == LF {
            return i;
        }
        i += 1;
    }
    s.len()
}

/// Whether `b` is a decimal digit.
pub open spec fn is_digit(b: u8) -> bool {
    48 <= b <= 57
}

/// Whether `b` is a decimal digit.
pub fn digit(b: u8) -> (r: bool)
    ensures
        r == is_digit(b),
{
    48 <= b && b <= 57
}

/// Whether `line` is a status line: the protocol name and version, a space,
/// a status code of three digits, and then nothing or a space and a reason.
pub open spec fn valid_status_line(line: Seq<u8>) -> bool {
    &&& line.len() >= 12
    &&& line.subrange(0, 5) == encode_utf8("HTTP/"@)
    &&& is_digit(line[5])
    &&& line[6] == 46
    &&& is_digit(line[7])
    &&& line[8] == SPACE
    &&& is_digit(line[9])
    &&& is_digit(line[10])
    &&& is_digit(line[11])
    &&& (line.len() == 12 || line[12] == SPACE)
}

/// The status code of a valid status line.
pub open spec fn status_code(line: Seq<u8>) -> int {
    (line[9] - 48) * 100 + (line[10] - 48) * 10 + (line[11] - 48)
}

/// Whether `text` stands in `s` at `at`.
pub open spec fn holds_at(s: Seq<u8>, at: int, text: Seq<u8>) -> bool {
    0 <= at && at + text.len() <= s.len() && s.subrange(at, at + text.len()) == text
}

/// Whether `text` stands in `s` at `at`.
pub fn stands_at(s: &[u8], at: usize, text: &[u8]) -> (r: bool)
    ensures
        r == holds_at(s@, at as int, text@),
{
    if at > s.len() || text.len() > s.len() - at {
        return false;
    }
    let mut i: usize = 0;
    while i < text.len()
        invariant
            i <= text@.len(),
            at + text@.len() <= s@.len() <= usize::MAX,
            forall|j: int| 0 <= j < i ==> s@[at + j] == text@[j],
        decreases text@.len() - i,
    {
        if s[at + i] != text[i] {
            assert(s@.subrange(at as int, at + text@.len())[i as int] != text@[i as int]);
            return false;
        }
        i += 1;
    }
    assert(s@.subrange(at as int, at + text@.len()) =~= text@);
    true
}

/// Reads the status line that `s` holds from its start to `end`; `None`
/// where `s` ends before `end` or holds no valid status line there.
pub fn read_status_line(s: &[u8], end: usize) -> (r: Option<u16>)
    ensures
        match r {
            Some(code) => end <= s@.len() && valid_status_line(s@.subrange(0, end as int))
                && code == status_code(s@.subrange(0, end as int)),
            None => end > s@.len() || !valid_status_line(s@.subrange(0, end as int)),
        },
{
    let ghost line = s@.subrange(0, end as int);
    if end > s.len() || end < 12 {
        return None;
    }
    let tag = stands_at(s, 0, "HTTP/".as_bytes());
    proof {
        reveal_strlit("HTTP/");
        is_ascii_chars_encode_utf8("HTTP/"@);
        assert(line.subrange(0, 5) =~= s@.subrange(0, 5));
        assert(forall|j: int| 0 <= j < end ==> line[j] == s@[j]);
    }
    let shape = tag && digit(s[5]) && s[6] == 46 && digit(s[7])
        && s[8] == SPACE && digit(s[9]) && digit(s[10]) && digit(s[11]) && (end == 12 || s[12]
        == SPACE);
    if !shape {
        return None;
    }
    let code: u16 = (s[9] - 48) as u16 * 100 + (s[10] - 48) as u16 * 10 + (s[11] - 48) as u16;
    Some(code)
}

/// The lower-case form of an upper-case letter; any other byte itself.
pub open spec fn lower(b: u8) -> u8 {
    if 65 <= b && b <= 90 {
        (b + 32) as u8
    } else {
        b
    }
}

/// The lower-case form of an upper-case letter; any other byte itself.
pub fn lowered(b: u8) -> (r: u8)
    ensures
        r == lower(b),
{
    if 65 <= b && b <= 90 {
        b + 32
    } else {
        b
    }
}

/// Whether `text` stands in `s` at `at` when the case of letters is ignored.
pub open spec fn holds_ignoring_case(s: Seq<u8>, at: int, text: Seq<u8>) -> bool {
    &&& 0 <= at
    &&& at + text.len() <= s.len()
    &&& forall|j: int| 0 <= j < text.len() ==> lower(#[trigger] s[at + j]) == lower(text[j])
}

/// Whether `text` stands in `s` at `at` when the case of letters is ignored.
pub fn stands_ignoring_case(s: &[u8], at: usize, text: &[u8]) -> (r: bool)
    ensures
        r == holds_ignoring_case(s@, at as int, text@),
{
    if at > s.len() || text.len() > s.len() - at {
        return false;
    }
    let mut i: usize = 0;
    while i < text.len()
        invariant
            i <= text@.len(),
            at + text@.len() <= s@.len() <= usize::MAX,
            forall|j: int| 0 <= j < i ==> lower(#[trigger] s@[at + j]) == lower(text@[j]),
        decreases text@.len() - i,
    {
        if lowered(s[at + i]) != lowered(text[i]) {
            return false;
        }
        i += 1;
    }
    true
}

/// Whether `b` is a space or a tab.
pub open spec fn is_blank(b: u8) -> bool {
    b == SPACE || b == TAB
}

/// The first place at or after `i` and before `end` that holds no blank;
/// `end` where there is none.
pub open spec fn skip_blanks(s: Seq<u8>, i: int, end: int) -> int
    decreases end - i,
{
    if 0 <= i < end <= s.len() && is_blank(s[i]) {
        skip_blanks(s, i + 1, end)
    } else {
        i
    }
}

/// Whether `s` holds only blanks from `from` up to `end`.
pub open spec fn blank_between(s: Seq<u8>, from: int, end: int) -> bool {
    forall|j: int| from <= j < end ==> is_blank(#[trigger] s[j])
}

/// Whether the header line that `s` holds from `pos` up to `end` says that
/// the body is chunked: its name is `transfer-encoding` and its value is
/// `chunked`, in any case of letters, with blanks allowed around the value.
pub open spec fn declares_chunked(s: Seq<u8>, pos: int, end: int) -> bool {
    let name = encode_utf8("transfer-encoding"@);
    let token = encode_utf8("chunked"@);
    let colon = pos + name.len();
    let value = skip_blanks(s, colon + 1, end);
    &&& colon < end
    &&& holds_ignoring_case(s, pos, name)
    &&& s[colon] == COLON
    &&& value + token.len() <= end
    &&& holds_ignoring_case(s, value, token)
    &&& blank_between(s, value + token.len(), end)
}

/// Whether `s` holds a header line from `pos` up to `end` that says that the
/// body is chunked.
#[verifier::loop_isolation(false)]
pub fn line_declares_chunked(s: &[u8], pos: usize, end: usize) -> (r: bool)
    ensures
        r == (pos <= end <= s@.len() && declares_chunked(s@, pos as int, end as int)),
{
    let name = "transfer-encoding".as_bytes();
    let token = "chunked".as_bytes();
    if pos > end || end > s.len() || name.len() >= end - pos {
        return false;
    }
    let colon = pos + name.len();
    if !stands_ignoring_case(s, pos, name) || s[colon] != COLON {
        return false;
    }
    let mut value: usize = colon + 1;
    while value < end && (s[value] == SPACE || s[value] == TAB)
        invariant
            colon < value <= end <= s@.len(),
            skip_blanks(s@, colon + 1, end as int) == skip_blanks(s@, value as int, end as int),
        decreases end - value,
    {
        value += 1;
    }
    if token.len() > end - value || !stands_ignoring_case(s, value, token) {
        return false;
    }
    let mut i: usize = value + token.len();
    while i < end
        invariant
            value + token@.len() <= i <= end <= s@.len(),
            forall|j: int| value + token@.len() <= j < i ==> is_blank(#[trigger] s@[j]),
        decreases end - i,
    {
        if s[i] != SPACE && s[i] != TAB {
            assert(!is_blank(s@[i as int]));
            return false;
        }
        i += 1;
    }
    true
}

/// What the head of a response says.
#[derive(Clone, Copy, Debug, PartialEq, Eq, Structural)]
pub struct ResponseHead {
    /// The status code of the status line.
    pub status: u16,
    /// Where the body starts.
    pub body_start: usize,
    /// Whether a header says that the body is chunked.
    pub chunked: bool,
}

/// Reads header lines from `pos` to the blank line that ends the head: where
/// the body starts and whether a line from `pos` on, or `chunked` before it,
/// says that the body is chunked. `None` where the text ends before the head
/// does.
pub open spec fn scan_headers(s: Seq<u8>, pos: int, chunked: bool) -> Option<(int, bool)>
    decreases s.len() - pos,
{
    let end = line_end(s, pos);
    if pos < 0 || end < pos || end + 2 > s.len() {
        None
    } else if end == pos {
        Some((pos + 2, chunked))
    } else {
        scan_headers(s, end + 2, chunked || declares_chunked(s, pos, end))
    }
}

/// The head of the response `raw`: a valid status line, then header lines up
/// to a blank line. `None` where the status line is not valid or the text
/// ends before the head does.
pub open spec fn head_of(raw: Seq<u8>) -> Option<ResponseHead> {
    let end = line_end(raw, 0);
    if end >= raw.len() || !valid_status_line(raw.subrange(0, end)) {
        None
    } else {
        match scan_headers(raw, end + 2, false) {
            Some((start, chunked)) => Some(
                ResponseHead {
                    status: status_code(raw.subrange(0, end)) as u16,
                    body_start: start as usize,
                    chunked,
                },
            ),
            None => None,
        }
    }
}

/// Reads the head of a response.
#[verifier::loop_isolation(false)]
pub fn read_head(raw: &[u8]) -> (r: Option<ResponseHead>)
    ensures
        r == head_of(raw@),
        r matches Some(head) ==> head.body_start <= raw@.len(),
{
    let first = find_line_end(raw, 0);
    if first >= raw.len() {
        return None;
    }
    let status = match read_status_line(raw, first) {
        Some(code) => code,
        None => {
            return None;
        },
    };
    let mut pos: usize = first + 2;
    let mut chunked = false;
    loop
        invariant
            first + 2 <= pos <= raw@.len(),
            scan_headers(raw@, first + 2, false) == scan_headers(raw@, pos as int, chunked),
        decreases raw@.len() - pos,
    {
        let end = find_line_end(raw, pos);
        if end >= raw.len() {
            return None;
        }
        if end == pos {
            return Some(ResponseHead { status, body_start: pos + 2, chunked });
        }
        let says = line_declares_chunked(raw, pos, end);
        chunked = chunked || says;
        pos = end + 2;
    }
}

/// The value of a hexadecimal digit, in either case; `None` of any other
/// byte.
pub open spec fn hex_digit(b: u8) -> Option<nat> {
    if 48 <= b && b <= 57 {
        Some((b - 48) as nat)
    } else if 97 <= b && b <= 102 {
        Some((b - 87) as nat)
    } else if 65 <= b && b <= 70 {
        Some((b - 55) as nat)
    } else {
        None
    }
}

/// The number that a size token writes in hexadecimal, most significant
/// digit first; `None` of the empty token and of one that holds anything but
/// hexadecimal digits.
pub open spec fn hex_value(token: Seq<u8>) -> Option<nat>
    decreases token.len(),
{
    if token.len() == 0 {
        None
    } else if token.len() == 1 {
        hex_digit(token[0])
    } else {
        match (hex_value(token.drop_last()), hex_digit(token.last())) {
            (Some(high), Some(low)) => Some(16 * high + low),
            _ => None,
        }
    }
}

/// A valid token's value is no less than that of each of its prefixes, and
/// each prefix is valid.
proof fn lemma_hex_prefix(token: Seq<u8>, n: int)
    requires
        0 < n <= token.len(),
        hex_value(token) is Some,
    ensures
        hex_value(token.take(n)) is Some,
        hex_value(token.take(n)).unwrap() <= hex_value(token).unwrap(),
    decreases token.len(),
{
    if n == token.len() {
        assert(token.take(n) =~= token);
    } else {
        assert(token.drop_last().take(n) =~= token.take(n));
        lemma_hex_prefix(token.drop_last(), n);
    }
}

/// The value of a hexadecimal digit.
pub fn read_hex_digit(b: u8) -> (r: Option<u8>)
    ensures
        match r {
            Some(d) => hex_digit(b) == Some(d as nat),
            None => hex_digit(b) is None,
        },
{
    if 48 <= b && b <= 57 {
        Some(b - 48)
    } else if 97 <= b && b <= 102 {
        Some(b - 87)
    } else if 65 <= b && b <= 70 {
        Some(b - 55)
    } else {
        None
    }
}

/// Reads the size token that `s` holds from `pos` up to `end`. Gives `None`
/// where `s` holds no such part, for a token that is not valid, and for one
/// whose value does not fit.
pub fn read_size(s: &[u8], pos: usize, end: usize) -> (r: Option<u64>)
    ensures
        match r {
            Some(n) => pos <= end <= s@.len() && hex_value(s@.subrange(pos as int, end as int))
                == Some(n as nat),
            None => !(pos <= end <= s@.len()) || match hex_value(
                s@.subrange(pos as int, end as int),
            ) {
                Some(n) => n > u64::MAX,
                None => true,
            },
        },
{
    let ghost token = s@.subrange(pos as int, end as int);
    if pos >= end || end > s.len() {
        return None;
    }
    let mut value: u64 = 0;
    let mut i: usize = pos;
    while i < end
        invariant
            pos <= i <= end <= s@.len(),
            token == s@.subrange(pos as int, end as int),
            i == pos ==> value == 0,
            i > pos ==> hex_value(token.take(i - pos)) == Some(value as nat),
        decreases end - i,
    {
        let ghost next = token.take(i + 1 - pos);
        proof {
            assert(next.last() == s@[i as int]);
            assert(next.drop_last() =~= token.take(i - pos));
            if hex_value(token) is Some {
                lemma_hex_prefix(token, i + 1 - pos);
            }
        }
        let low = match read_hex_digit(s[i]) {
            Some(d) => d,
            None => {
                return None;
            },
        };
        if value > (u64::MAX - low as u64) / 16 {
            return None;
        }
        value = 16 * value + low as u64;
        i += 1;
    }
    assert(token.take(end - pos) =~= token);
    Some(value)
}

/// The payload of the chunks that `s` holds from `pos`: each chunk is a line
/// with its size token, that many bytes, and a line end; the chunk of size
/// zero ends the payload, and what follows it is not read. `None` where a
/// size token is not valid or the text ends before the chunks do.
pub open spec fn chunks_payload(s: Seq<u8>, pos: int) -> Option<Seq<u8>>
    decreases s.len() - pos,
{
    let end = line_end(s, pos);
    if pos < 0 || end < pos || end + 2 > s.len() {
        None
    } else {
        match hex_value(s.subrange(pos, end)) {
            None => None,
            Some(size) => {
                let data = end + 2;
                let next = data + size + 2;
                if size == 0 {
                    Some(Seq::empty())
                } else if next > s.len() || !crlf_at(s, data + size) {
                    None
                } else {
                    match chunks_payload(s, next) {
                        Some(rest) => Some(s.subrange(data, data + size) + rest),
                        None => None,
                    }
                }
            },
        }
    }
}

/// What the chunks from `pos` on add to the payload `done` of the chunks
/// before them.
pub open spec fn payload_after(done: Seq<u8>, s: Seq<u8>, pos: int) -> Option<Seq<u8>> {
    match chunks_payload(s, pos) {
        Some(rest) => Some(done + rest),
        None => None,
    }
}

/// Joins the payloads of the chunks that `s` holds from `start`.
pub fn decode_chunked(s: &[u8], start: usize) -> (r: Result<Vec<u8>, ParseFailure>)
    ensures
        match r {
            Ok(body) => chunks_payload(s@, start as int) == Some(body@),
            Err(e) => e == ParseFailure::Malformed && chunks_payload(s@, start as int) is None,
        },
{
    if start > s.len() {
        return Err(ParseFailure::Malformed);
    }
    let mut out: Vec<u8> = Vec::new();
    let mut pos: usize = start;
    assert(payload_after(out@, s@, pos as int) == chunks_payload(s@, start as int)) by {
        if chunks_payload(s@, start as int) is Some {
            assert(out@ + chunks_payload(s@, start as int).unwrap() =~= chunks_payload(
                s@,
                start as int,
            ).unwrap());
        }
    }
    loop
        invariant
            start <= pos <= s@.len(),
            payload_after(out@, s@, pos as int) == chunks_payload(s@, start as int),
        decreases s@.len() - pos,
    {
        let end = find_line_end(s, pos);
        if end >= s.len() {
            return Err(ParseFailure::Malformed);
        }
        let size = match read_size(s, pos, end) {
            Some(n) => n,
            None => {
                return Err(ParseFailure::Malformed);
            },
        };
        if size == 0 {
            assert(out@ + Seq::<u8>::empty() =~= out@);
            return Ok(out);
        }
        let data = end + 2;
        let room = s.len() - data;
        if room < 2 || size > (room - 2) as u64 {
            return Err(ParseFailure::Malformed);
        }
        let stop = data + size as usize;
        if s[stop] != CR || s[stop + 1] != LF {
            return Err(ParseFailure::Malformed);
        }
        let ghost before = out@;
        out.extend_from_slice(slice_subrange(s, data, stop));
        proof {
            if chunks_payload(s@, stop + 2) is Some {
                let rest = chunks_payload(s@, stop + 2).unwrap();
                assert(before + (s@.subrange(data as int, stop as int) + rest) =~= out@ + rest);
            }
        }
        pos = stop + 2;
    }
}

/// The body of the response `raw`: what follows the head, with its chunks
/// joined where the head says that it is chunked. `None` where the head or
/// the chunks are malformed.
pub open spec fn response_body(raw: Seq<u8>) -> Option<Seq<u8>> {
    match head_of(raw) {
        Some(head) => if head.chunked {
            chunks_payload(raw, head.body_start as int)
        } else {
            Some(raw.subrange(head.body_start as int, raw.len() as int))
        },
        None => None,
    }
}

/// Takes the body out of a response.
pub fn read_body(raw: &[u8]) -> (r: Result<Vec<u8>, ParseFailure>)
    ensures
        match r {
            Ok(body) => response_body(raw@) == Some(body@),
            Err(e) => e == ParseFailure::Malformed && response_body(raw@) is None,
        },
{
    match read_head(raw) {
        Some(head) => {
            if head.chunked {
                decode_chunked(raw, head.body_start)
            } else {
                let mut out: Vec<u8> = Vec::new();
                out.extend_from_slice(slice_subrange(raw, head.body_start, raw.len()));
                assert(out@ =~= raw@.subrange(head.body_start as int, raw@.len() as int));
                Ok(out)
            }
        },
        None => Err(ParseFailure::Malformed),
    }
}

/// The document that the response `raw` carries, or the fault it ends in:
/// `Malformed` where the head or the chunks are, `InvalidPayload` where the
/// body is no document.
pub open spec fn response_document(raw: Seq<u8>) -> Result<JsonView, ConnectorError> {
    match response_body(raw) {
        Some(body) => match parsed_document(body) {
            Some(doc) => Ok(doc),
            None => Err(ConnectorError::Parse(ParseFailure::InvalidPayload)),
        },
        None => Err(ConnectorError::Parse(ParseFailure::Malformed)),
    }
}

/// Parses a response into the document it carries.
pub fn parse_response(raw: &[u8]) -> (r: Result<Json, ConnectorError>)
    ensures
        match r {
            Ok(doc) => response_document(raw@) == Ok::<JsonView, ConnectorError>(doc@),
            Err(e) => response_document(raw@) == Err::<JsonView, ConnectorError>(e),
        },
{
    match read_body(raw) {
        Ok(body) => payload(codec_read(body.as_slice())),
        Err(e) => Err(ConnectorError::Parse(e)),
    }
}

/// The hexadecimal digit, in lower case, of a value below sixteen.
pub open spec fn hex_char(d: nat) -> u8 {
    if d < 10 {
        (48 + d) as u8
    } else {
        (87 + d) as u8
    }
}

/// The size token of `n`: its hexadecimal digits, most significant first.
pub open spec fn hex_token(n: nat) -> Seq<u8>
    decreases n,
{
    if n < 16 {
        seq![hex_char(n)]
    } else {
        hex_token(n / 16).push(hex_char(n % 16))
    }
}

/// One chunk as it is framed: the size token of the data, a line end, the
/// data, and a line end.
pub open spec fn chunk_frame(data: Seq<u8>) -> Seq<u8> {
    hex_token(data.len()) + crlf() + data + crlf()
}

/// A chunked body: each chunk framed, then the chunk of size zero and a blank
/// line.
pub open spec fn chunked_text(chunks: Seq<Seq<u8>>) -> Seq<u8>
    decreases chunks.len(),
{
    if chunks.len() == 0 {
        seq![48u8] + crlf() + crlf()
    } else {
        chunk_frame(chunks[0]) + chunked_text(chunks.drop_first())
    }
}

/// The data of the chunks, joined in order.
pub open spec fn joined(chunks: Seq<Seq<u8>>) -> Seq<u8>
    decreases chunks.len(),
{
    if chunks.len() == 0 {
        Seq::empty()
    } else {
        chunks[0] + joined(chunks.drop_first())
    }
}

/// The size token of `n` is read back as `n`, and holds hexadecimal digits
/// only.
pub proof fn lemma_hex_token_value(n: nat)
    ensures
        hex_value(hex_token(n)) == Some(n),
        hex_token(n).len() >= 1,
        forall|i: int| 0 <= i < hex_token(n).len() ==> hex_digit(#[trigger] hex_token(n)[i]) is Some,
    decreases n,
{
    if n >= 16 {
        lemma_hex_token_value(n / 16);
        let high = hex_token(n / 16);
        let token = hex_token(n);
        assert(token.drop_last() =~= high);
        assert(token.last() == hex_char(n % 16));
        assert forall|i: int| 0 <= i < token.len() implies hex_digit(#[trigger] token[i]) is Some by {
            if i < high.len() {
                assert(token[i] == high[i]);
            }
        }
    }
}

/// A line that holds no carriage return ends where the line end after it
/// starts.
proof fn lemma_line_end_after(s: Seq<u8>, from: int, len: int)
    requires
        0 <= from,
        0 <= len,
        forall|i: int| from <= i < from + len ==> #[trigger] s[i] != CR,
        crlf_at(s, from + len),
    ensures
        line_end(s, from) == from + len,
    decreases len,
{
    if len > 0 {
        lemma_line_end_after(s, from + 1, len - 1);
    }
}

/// Chunks that are framed after any text are read back, from where that text
/// ends, as their data joined in order.
proof fn lemma_chunks_after(before: Seq<u8>, chunks: Seq<Seq<u8>>)
    requires
        forall|i: int| 0 <= i < chunks.len() ==> (#[trigger] chunks[i]).len() > 0,
    ensures
        chunks_payload(before + chunked_text(chunks), before.len() as int) == Some(joined(chunks)),
    decreases chunks.len(),
{
    let s = before + chunked_text(chunks);
    let pos = before.len() as int;
    if chunks.len() == 0 {
        assert(s[pos] == 48u8);
        assert(crlf_at(s, pos + 1));
        lemma_line_end_after(s, pos, 1);
        assert(s.subrange(pos, pos + 1) =~= seq![48u8]);
    } else {
        let data = chunks[0];
        let rest = chunks.drop_first();
        let token = hex_token(data.len());
        let tail = chunked_text(rest);
        lemma_hex_token_value(data.len());
        assert forall|i: int| pos <= i < pos + token.len() implies #[trigger] s[i] != CR by {
            assert(s[i] == token[i - pos]);
            assert(hex_digit(token[i - pos]) is Some);
        }
        let end = pos + token.len();
        assert(s[end] == CR && s[end + 1] == LF);
        lemma_line_end_after(s, pos, token.len() as int);
        assert(s.subrange(pos, end) =~= token);
        let start = end + 2;
        let stop = start + data.len();
        assert(s.subrange(start, stop) =~= data);
        assert(s[stop] == CR && s[stop + 1] == LF);
        let framed = before + chunk_frame(data);
        assert(s =~= framed + tail);
        assert(framed.len() == stop + 2);
        assert forall|i: int| 0 <= i < rest.len() implies (#[trigger] rest[i]).len() > 0 by {
            assert(rest[i] == chunks[i + 1]);
        }
        lemma_chunks_after(framed, rest);
    }
}

/// Chunked framing loses nothing: a body of framed chunks, none of them
/// empty, is read back as their data joined in order.
pub proof fn lemma_chunked_round_trip(chunks: Seq<Seq<u8>>)
    requires
        forall|i: int| 0 <= i < chunks.len() ==> (#[trigger] chunks[i]).len() > 0,
    ensures
        chunks_payload(chunked_text(chunks), 0) == Some(joined(chunks)),
{
    lemma_chunks_after(Seq::empty(), chunks);
    assert(Seq::<u8>::empty() + chunked_text(chunks) =~= chunked_text(chunks));
}

/// Whether `line` holds no carriage return, and so no line end.
pub open spec fn one_line(line: Seq<u8>) -> bool {
    forall|i: int| 0 <= i < line.len() ==> #[trigger] line[i] != CR
}

/// The header lines of a head, each with its line end.
pub open spec fn head_lines(lines: Seq<Seq<u8>>) -> Seq<u8>
    decreases lines.len(),
{
    if lines.len() == 0 {
        Seq::empty()
    } else {
        lines[0] + crlf() + head_lines(lines.drop_first())
    }
}

/// Whether one of `lines` says that the body is chunked.
pub open spec fn any_declares_chunked(lines: Seq<Seq<u8>>) -> bool
    decreases lines.len(),
{
    if lines.len() == 0 {
        false
    } else {
        declares_chunked(lines[0], 0, lines[0].len() as int) || any_declares_chunked(
            lines.drop_first(),
        )
    }
}

/// Whether a status line and header lines make up a head: the status line is
/// valid, no header line is empty, and each of them is one line.
pub open spec fn well_formed_head(status: Seq<u8>, lines: Seq<Seq<u8>>) -> bool {
    &&& valid_status_line(status)
    &&& one_line(status)
    &&& forall|i: int| 0 <= i < lines.len() ==> (#[trigger] lines[i]).len() > 0 && one_line(lines[i])
}

/// The head that a status line and header lines make up: each with its line
/// end, and the blank line.
pub open spec fn head_text(status: Seq<u8>, lines: Seq<Seq<u8>>) -> Seq<u8> {
    status + crlf() + head_lines(lines) + crlf()
}

/// Skipping blanks in a part of a text finds the same place as in the whole.
proof fn lemma_skip_blanks_shift(s: Seq<u8>, pos: int, end: int, i: int)
    requires
        0 <= pos <= i <= end <= s.len(),
    ensures
        skip_blanks(s, i, end) == pos + skip_blanks(s.subrange(pos, end), i - pos, end - pos),
        i <= skip_blanks(s, i, end) <= end,
    decreases end - i,
{
    let line = s.subrange(pos, end);
    if i < end {
        assert(line[i - pos] == s[i]);
        if is_blank(s[i]) {
            lemma_skip_blanks_shift(s, pos, end, i + 1);
        }
    }
}

/// Whether a text stands at a place, the case of letters ignored, does not
/// depend on what lies around the part that holds the place.
proof fn lemma_holds_ignoring_case_shift(s: Seq<u8>, pos: int, end: int, at: int, text: Seq<u8>)
    requires
        0 <= pos <= at,
        at + text.len() <= end <= s.len(),
    ensures
        holds_ignoring_case(s, at, text) == holds_ignoring_case(
            s.subrange(pos, end),
            at - pos,
            text,
        ),
{
    let part = s.subrange(pos, end);
    assert forall|j: int| 0 <= j < text.len() implies #[trigger] s[at + j] == part[at - pos + j] by {}
    if holds_ignoring_case(s, at, text) {
        assert forall|j: int| 0 <= j < text.len() implies lower(#[trigger] part[at - pos + j])
            == lower(text[j]) by {
            assert(s[at + j] == part[at - pos + j]);
        }
    }
    if holds_ignoring_case(part, at - pos, text) {
        assert forall|j: int| 0 <= j < text.len() implies lower(#[trigger] s[at + j]) == lower(
            text[j],
        ) by {
            assert(s[at + j] == part[at - pos + j]);
        }
    }
}

/// What a header line says does not depend on where in a text it stands.
proof fn lemma_declares_chunked_shift(s: Seq<u8>, pos: int, end: int)
    requires
        0 <= pos <= end <= s.len(),
    ensures
        declares_chunked(s, pos, end) == declares_chunked(s.subrange(pos, end), 0, end - pos),
{
    let line = s.subrange(pos, end);
    let name = encode_utf8("transfer-encoding"@);
    let token = encode_utf8("chunked"@);
    let colon = pos + name.len();
    if colon < end {
        lemma_skip_blanks_shift(s, pos, end, colon + 1);
        let value = skip_blanks(s, colon + 1, end);
        let shifted = skip_blanks(line, name.len() as int + 1, end - pos);
        assert(line[name.len() as int] == s[colon]);
        lemma_holds_ignoring_case_shift(s, pos, end, pos, name);
        if value + token.len() <= end {
            lemma_holds_ignoring_case_shift(s, pos, end, value, token);
            assert(blank_between(s, value + token.len(), end) == blank_between(
                line,
                shifted + token.len(),
                end - pos,
            )) by {
                if blank_between(s, value + token.len(), end) {
                    assert forall|j: int| shifted + token.len() <= j < end - pos implies is_blank(
                        #[trigger] line[j],
                    ) by {
                        assert(line[j] == s[pos + j]);
                    }
                }
                if blank_between(line, shifted + token.len(), end - pos) {
                    assert forall|j: int| value + token.len() <= j < end implies is_blank(
                        #[trigger] s[j],
                    ) by {
                        assert(line[j - pos] == s[j]);
                    }
                }
            }
        }
    }
}

/// Header lines that stand after any text, with the blank line after them,
/// are read to their end; the body starts after the blank line, and is
/// chunked exactly where one of the lines says so, or `chunked` did.
proof fn lemma_scan_header_lines(
    before: Seq<u8>,
    lines: Seq<Seq<u8>>,
    after: Seq<u8>,
    chunked: bool,
)
    requires
        forall|i: int| 0 <= i < lines.len() ==> (#[trigger] lines[i]).len() > 0 && one_line(lines[i]),
    ensures
        scan_headers(before + head_lines(lines) + crlf() + after, before.len() as int, chunked)
            == Some(
            (
                (before.len() + head_lines(lines).len() + 2) as int,
                chunked || any_declares_chunked(lines),
            ),
        ),
    decreases lines.len(),
{
    let s = before + head_lines(lines) + crlf() + after;
    let pos = before.len() as int;
    if lines.len() == 0 {
        assert(crlf_at(s, pos));
    } else {
        let line = lines[0];
        let rest = lines.drop_first();
        let end = pos + line.len();
        assert forall|i: int| pos <= i < end implies #[trigger] s[i] != CR by {
            assert(s[i] == line[i - pos]);
        }
        assert(s[end] == CR && s[end + 1] == LF);
        lemma_line_end_after(s, pos, line.len() as int);
        lemma_declares_chunked_shift(s, pos, end);
        assert(s.subrange(pos, end) =~= line);
        let next = before + line + crlf();
        assert(s =~= next + head_lines(rest) + crlf() + after);
        assert forall|i: int| 0 <= i < rest.len() implies (#[trigger] rest[i]).len() > 0
            && one_line(rest[i]) by {
            assert(rest[i] == lines[i + 1]);
        }
        lemma_scan_header_lines(
            next,
            rest,
            after,
            chunked || declares_chunked(line, 0, line.len() as int),
        );
    }
}

/// A well-formed head before any body is read back: the status code of its
/// status line, the place where the body starts, and whether one of its
/// header lines says that the body is chunked.
pub proof fn lemma_head_round_trip(status: Seq<u8>, lines: Seq<Seq<u8>>, body: Seq<u8>)
    requires
        well_formed_head(status, lines),
        head_text(status, lines).len() <= usize::MAX,
    ensures
        head_of(head_text(status, lines) + body) == Some(
            ResponseHead {
                status: status_code(status) as u16,
                body_start: head_text(status, lines).len() as usize,
                chunked: any_declares_chunked(lines),
            },
        ),
{
    let raw = head_text(status, lines) + body;
    let end = status.len() as int;
    assert forall|i: int| 0 <= i < end implies #[trigger] raw[i] != CR by {
        assert(raw[i] == status[i]);
    }
    assert(raw[end] == CR && raw[end + 1] == LF);
    lemma_line_end_after(raw, 0, end);
    assert(raw.subrange(0, end) =~= status);
    let before = status + crlf();
    assert(raw =~= before + head_lines(lines) + crlf() + body);
    lemma_scan_header_lines(before, lines, body, false);
}

/// A response that is not chunked carries its body as it is.
pub proof fn lemma_plain_response_round_trip(status: Seq<u8>, lines: Seq<Seq<u8>>, body: Seq<u8>)
    requires
        well_formed_head(status, lines),
        head_text(status, lines).len() <= usize::MAX,
        !any_declares_chunked(lines),
    ensures
        response_body(head_text(status, lines) + body) == Some(body),
{
    lemma_head_round_trip(status, lines, body);
    let raw = head_text(status, lines) + body;
    assert(raw.subrange(head_text(status, lines).len() as int, raw.len() as int) =~= body);
}

/// A chunked response carries the data of its chunks, joined in order.
pub proof fn lemma_chunked_response_round_trip(
    status: Seq<u8>,
    lines: Seq<Seq<u8>>,
    chunks: Seq<Seq<u8>>,
)
    requires
        well_formed_head(status, lines),
        head_text(status, lines).len() <= usize::MAX,
        any_declares_chunked(lines),
        forall|i: int| 0 <= i < chunks.len() ==> (#[trigger] chunks[i]).len() > 0,
    ensures
        response_body(head_text(status, lines) + chunked_text(chunks)) == Some(joined(chunks)),
{
    lemma_head_round_trip(status, lines, chunked_text(chunks));
    lemma_chunks_after(head_text(status, lines), chunks);
}

} // verus!
