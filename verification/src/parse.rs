//! Reading the head of an HTTP/1.x request: the request line, the headers up
//! to the empty line, and the length of the body that follows.

use crate::bullshit_scanner::{
    line_verdict, string_from_utf8, BullshitScanner, LineVerdict, EOF, LINE_TOO_LONG, NOT_UTF8,
};
use crate::errors::{basic_text, wrapping_text, BasicError, BasicErrorKind, ServerError};
use crate::packet::copy_range;
use vstd::prelude::*;
use vstd::utf8::{decode_utf8, encode_utf8, valid_utf8};

verus! {

/// The header that gives the length of the body.
pub const CONTENT_LENGTH: &'static str = "Content-Length";

/// HTTP request methods.
#[derive(Debug, Clone, Copy, PartialEq, Eq, Structural)]
pub enum Method {
    GET,
    POST,
    /// A method that is not served.
    Unsupported,
}

/// HTTP protocol versions.
#[derive(Debug, Clone, Copy, PartialEq, Eq, Structural)]
pub enum Proto {
    HTTP1_1,
    HTTP1_0,
    /// A protocol that is not served.
    Unsupported,
}

/// A letter in lower case; any other byte as it is.
pub open spec fn lower(b: u8) -> u8 {
    if 65 <= b <= 90 {
        (b + 32) as u8
    } else {
        b
    }
}

/// Whether `name` is the word `word`, which is in lower case, in any mix of
/// upper and lower case.
pub open spec fn same_word(name: Seq<u8>, word: Seq<u8>) -> bool {
    &&& name.len() == word.len()
    &&& forall|i: int| 0 <= i < name.len() ==> lower(#[trigger] name[i]) == word[i]
}

/// The bytes of `get`.
pub open spec fn word_get() -> Seq<u8> {
    seq![103u8, 101u8, 116u8]
}

/// The bytes of `post`.
pub open spec fn word_post() -> Seq<u8> {
    seq![112u8, 111u8, 115u8, 116u8]
}

/// The bytes of `http/1.1`.
pub open spec fn word_http11() -> Seq<u8> {
    seq![104u8, 116u8, 116u8, 112u8, 47u8, 49u8, 46u8, 49u8]
}

/// The bytes of `http/1.0`.
pub open spec fn word_http10() -> Seq<u8> {
    seq![104u8, 116u8, 116u8, 112u8, 47u8, 49u8, 46u8, 48u8]
}

/// The method that a word of the request line names.
pub open spec fn method_of(name: Seq<u8>) -> Method {
    if same_word(name, word_get()) {
        Method::GET
    } else if same_word(name, word_post()) {
        Method::POST
    } else {
        Method::Unsupported
    }
}

/// The protocol that a word of the request line names.
pub open spec fn proto_of(name: Seq<u8>) -> Proto {
    if same_word(name, word_http11()) {
        Proto::HTTP1_1
    } else if same_word(name, word_http10()) {
        Proto::HTTP1_0
    } else {
        Proto::Unsupported
    }
}

/// Whether `name` is `word` in any mix of upper and lower case.
pub fn is_word(name: &[u8], word: &[u8]) -> (r: bool)
    ensures
        r == same_word(name@, word@),
{
    if name.len() != word.len() {
        return false;
    }
    let mut i: usize = 0;
    while i < name.len()
        invariant
            i <= name@.len(),
            name@.len() == word@.len(),
            forall|j: int| 0 <= j < i ==> lower(#[trigger] name@[j]) == word@[j],
        decreases name@.len() - i,
    {
        let b = name[i];
        let l = if 65 <= b && b <= 90 {
            b + 32
        } else {
            b
        };
        if l != word[i] {
            return false;
        }
        i += 1;
    }
    true
}

impl Method {
    /// The method that `name` names.
    pub fn of_bytes(name: &[u8]) -> (m: Method)
        ensures
            m == method_of(name@),
    {
        let get: [u8; 3] = [103, 101, 116];
        let post: [u8; 4] = [112, 111, 115, 116];
        assert(get@ =~= word_get());
        assert(post@ =~= word_post());
        if is_word(name, get.as_slice()) {
            Method::GET
        } else if is_word(name, post.as_slice()) {
            Method::POST
        } else {
            Method::Unsupported
        }
    }

    /// The method that `string` names: `get` or `post` in any mix of upper
    /// and lower case.
    pub fn from(string: &str) -> (m: Method)
        ensures
            m == method_of(encode_utf8(string@)),
    {
        Method::of_bytes(string.as_bytes())
    }
}

impl Default for Method {
    fn default() -> (m: Method)
        ensures
            m == Method::Unsupported,
    {
        Method::Unsupported
    }
}

impl Proto {
    /// The protocol that `name` names.
    pub fn of_bytes(name: &[u8]) -> (p: Proto)
        ensures
            p == proto_of(name@),
    {
        let v11: [u8; 8] = [104, 116, 116, 112, 47, 49, 46, 49];
        let v10: [u8; 8] = [104, 116, 116, 112, 47, 49, 46, 48];
        assert(v11@ =~= word_http11());
        assert(v10@ =~= word_http10());
        if is_word(name, v11.as_slice()) {
            Proto::HTTP1_1
        } else if is_word(name, v10.as_slice()) {
            Proto::HTTP1_0
        } else {
            Proto::Unsupported
        }
    }

    /// The protocol that `string` names: `http/1.1` or `http/1.0` in any mix
    /// of upper and lower case.
    pub fn from(string: &str) -> (p: Proto)
        ensures
            p == proto_of(encode_utf8(string@)),
    {
        Proto::of_bytes(string.as_bytes())
    }
}

impl Default for Proto {
    fn default() -> (p: Proto)
        ensures
            p == Proto::HTTP1_1,
    {
        Proto::HTTP1_1
    }
}

/// How many bytes the white space takes that begins at the place `i` of
/// `b`; 0 where none begins there.
///
/// White space is what Unicode calls so, in its UTF-8 form: the characters
/// from tab to carriage return (U+0009 to U+000D), the blank (U+0020), the
/// next-line sign (U+0085), the blank that does not break (U+00A0), the
/// Ogham space mark (U+1680), the spaces of fixed width (U+2000 to U+200A),
/// the line and paragraph separators (U+2028, U+2029), the narrow blank that
/// does not break (U+202F), the mathematical space (U+205F) and the
/// ideographic space (U+3000). In text, the first byte of each of these
/// forms can only stand where a character begins.
pub open spec fn space_at(b: Seq<u8>, i: int) -> int {
    if i < 0 || i >= b.len() {
        0
    } else if b[i] == 0x20 || (0x09 <= b[i] <= 0x0D) {
        1
    } else if i + 1 < b.len() && b[i] == 0xC2 && (b[i + 1] == 0x85 || b[i + 1] == 0xA0) {
        2
    } else if i + 2 < b.len() && b[i] == 0xE1 && b[i + 1] == 0x9A && b[i + 2] == 0x80 {
        3
    } else if i + 2 < b.len() && b[i] == 0xE2 && b[i + 1] == 0x80 && ((0x80 <= b[i + 2] <= 0x8A)
        || b[i + 2] == 0xA8 || b[i + 2] == 0xA9 || b[i + 2] == 0xAF) {
        3
    } else if i + 2 < b.len() && b[i] == 0xE2 && b[i + 1] == 0x81 && b[i + 2] == 0x9F {
        3
    } else if i + 2 < b.len() && b[i] == 0xE3 && b[i + 1] == 0x80 && b[i + 2] == 0x80 {
        3
    } else {
        0
    }
}

/// How many bytes the white space takes that begins at the place `i` of
/// `b`.
pub fn space_len(b: &[u8], i: usize) -> (n: usize)
    ensures
        n == space_at(b@, i as int),
        n <= 3,
        i + n <= b@.len() || n == 0,
{
    let len = b.len();
    if i >= len {
        return 0;
    }
    let c = b[i];
    if c == 0x20 || (0x09 <= c && c <= 0x0D) {
        return 1;
    }
    if len - i >= 2 && c == 0xC2 && (b[i + 1] == 0x85 || b[i + 1] == 0xA0) {
        return 2;
    }
    if len - i >= 3 {
        let d = b[i + 1];
        let e = b[i + 2];
        if c == 0xE1 && d == 0x9A && e == 0x80 {
            return 3;
        }
        if c == 0xE2 && d == 0x80 && ((0x80 <= e && e <= 0x8A) || e == 0xA8 || e == 0xA9 || e
            == 0xAF) {
            return 3;
        }
        if c == 0xE2 && d == 0x81 && e == 0x9F {
            return 3;
        }
        if c == 0xE3 && d == 0x80 && e == 0x80 {
            return 3;
        }
    }
    0
}

/// The first place at or after `i` where no white space begins.
pub open spec fn skip_spaces(b: Seq<u8>, i: int) -> int
    decreases b.len() - i,
{
    if space_at(b, i) > 0 {
        skip_spaces(b, i + space_at(b, i))
    } else {
        i
    }
}

/// The first place at or after `i` where white space begins, or the end.
pub open spec fn skip_word(b: Seq<u8>, i: int) -> int
    decreases b.len() - i,
{
    if 0 <= i < b.len() && space_at(b, i) == 0 {
        skip_word(b, i + 1)
    } else {
        i
    }
}

/// Where the first word at or after `from` begins and ends, if there is
/// one.
pub open spec fn word_at(b: Seq<u8>, from: int) -> Option<(int, int)> {
    let start = skip_spaces(b, from);
    if start >= b.len() {
        None
    } else {
        Some((start, skip_word(b, start)))
    }
}

/// Where the `n`-th word of `b` begins and ends, if there are so many.
pub open spec fn nth_word(b: Seq<u8>, n: nat) -> Option<(int, int)>
    decreases n,
{
    if n == 0 {
        word_at(b, 0)
    } else {
        match nth_word(b, (n - 1) as nat) {
            Some((_, end)) => word_at(b, end),
            None => None,
        }
    }
}

/// The bounds that `skip_spaces` and `skip_word` keep.
pub proof fn lemma_skips_bounded(b: Seq<u8>, i: int)
    requires
        0 <= i <= b.len(),
    ensures
        i <= skip_spaces(b, i) <= b.len(),
        i <= skip_word(b, i) <= b.len(),
        i < b.len() && space_at(b, i) == 0 ==> skip_word(b, i) > i,
    decreases b.len() - i,
{
    if i < b.len() {
        lemma_skips_bounded(b, i + 1);
        if space_at(b, i) > 1 {
            lemma_skips_bounded(b, i + space_at(b, i));
        }
    }
}

/// Finds the first word at or after `from`.
pub fn next_word(b: &[u8], from: usize) -> (r: Option<(usize, usize)>)
    requires
        from <= b@.len(),
    ensures
        match r {
            Some((s, e)) => word_at(b@, from as int) == Some((s as int, e as int)) && from <= s < e
                <= b@.len(),
            None => word_at(b@, from as int) is None,
        },
{
    let len = b.len();
    let mut s: usize = from;
    loop
        invariant
            from <= s <= len == b@.len(),
            skip_spaces(b@, s as int) == skip_spaces(b@, from as int),
        ensures
            space_at(b@, s as int) == 0,
        decreases b@.len() - s,
    {
        let n = space_len(b, s);
        if n == 0 {
            break;
        }
        s += n;
    }
    if s >= b.len() {
        return None;
    }
    let mut e: usize = s;
    while e < b.len() && space_len(b, e) == 0
        invariant
            s <= e <= b@.len(),
            skip_word(b@, e as int) == skip_word(b@, s as int),
        decreases b@.len() - e,
    {
        e += 1;
    }
    proof {
        lemma_skips_bounded(b@, s as int);
    }
    Some((s, e))
}

/// How the request line reads.
pub enum RequestLine {
    /// The protocol, the method, and the bytes of the path.
    Parsed(Proto, Method, Seq<u8>),
    /// The line has fewer than three words.
    NoProtocol,
    /// The third word names no protocol that is served; these are its
    /// bytes.
    BadProtocol(Seq<u8>),
    /// The first word names no method that is served; these are its bytes.
    BadMethod(Seq<u8>),
    /// A word that has to be handed on is no text.
    NotText,
}

/// How the line `line` reads as a request line: its first three words are
/// the method, the path and the protocol; the protocol is looked at first.
pub open spec fn read_request_line(line: Seq<u8>) -> RequestLine {
    match (nth_word(line, 0), nth_word(line, 1), nth_word(line, 2)) {
        (Some(m), Some(f), Some(p)) => {
            let proto = line.subrange(p.0, p.1);
            let method = line.subrange(m.0, m.1);
            let path = line.subrange(f.0, f.1);
            if proto_of(proto) == Proto::Unsupported {
                if valid_utf8(proto) {
                    RequestLine::BadProtocol(proto)
                } else {
                    RequestLine::NotText
                }
            } else if method_of(method) == Method::Unsupported {
                if valid_utf8(method) {
                    RequestLine::BadMethod(method)
                } else {
                    RequestLine::NotText
                }
            } else if valid_utf8(path) {
                RequestLine::Parsed(proto_of(proto), method_of(method), path)
            } else {
                RequestLine::NotText
            }
        },
        _ => RequestLine::NoProtocol,
    }
}

/// The message with which the scanner fails where it finds no line.
pub open spec fn scanner_failure(v: LineVerdict) -> Seq<char> {
    match v {
        LineVerdict::NotText => NOT_UTF8@,
        LineVerdict::TooLong => LINE_TOO_LONG@,
        _ => EOF@,
    }
}

/// The message of the error for a request line that lacks `what`.
pub open spec fn missing_text(what: Seq<char>) -> Seq<char> {
    wrapping_text(
        basic_text(BasicErrorKind::MalformedRequest) + ": "@ + ("no "@ + what
            + " found in request line"@),
    )
}

/// The message of the error for a request in the protocol `word`.
pub open spec fn bad_proto_text(word: Seq<char>) -> Seq<char> {
    wrapping_text(basic_text(BasicErrorKind::UnsupportedProto) + ": "@ + word)
}

/// The message of the error for a request with the method `word`.
pub open spec fn bad_method_text(word: Seq<char>) -> Seq<char> {
    wrapping_text(basic_text(BasicErrorKind::UnsupportedMethod) + ": "@ + word)
}

/// The message of the error for a request line that holds a word which is
/// no text.
pub open spec fn not_text_text() -> Seq<char> {
    wrapping_text(basic_text(BasicErrorKind::MalformedRequest) + ": "@ + NOT_UTF8@)
}

/// Whether `e` is the error for a request line that reads as `l`.
pub open spec fn line_error_is(e: ServerError, l: RequestLine) -> bool {
    match l {
        RequestLine::Parsed(_, _, _) => false,
        RequestLine::NoProtocol => e.text() == missing_text("protocol"@),
        RequestLine::BadProtocol(word) => e.text() == bad_proto_text(decode_utf8(word)),
        RequestLine::BadMethod(word) => e.text() == bad_method_text(decode_utf8(word)),
        RequestLine::NotText => e.text() == not_text_text(),
    }
}

fn missing(what: &str) -> (e: ServerError)
    ensures
        e.text() == missing_text(what@),
{
    let detail = String::from_str("no ").concat(what).concat(" found in request line");
    ServerError::wrapping(
        BasicError::with_detail(BasicErrorKind::MalformedRequest, detail.as_str()).into_source(),
    )
}

fn not_text() -> (e: ServerError)
    ensures
        e.text() == not_text_text(),
{
    ServerError::wrapping(
        BasicError::with_detail(BasicErrorKind::MalformedRequest, NOT_UTF8).into_source(),
    )
}

/// Reads the request line from `scnr`: the protocol, the method and the
/// path.
///
/// The line is cut into words at white space. With fewer than three words
/// the request is malformed. The third word must name a protocol that is
/// served and the first a method that is served; the second is the path.
/// Where the scanner has no line, its message is the error's message.
pub fn parse_request_line(scnr: &mut BullshitScanner) -> (r: Result<
    (Proto, Method, String),
    ServerError,
>)
    requires
        old(scnr).wf(),
    ensures
        final(scnr).wf(),
        final(scnr).capacity() == old(scnr).capacity(),
        match line_verdict(old(scnr).unread(), old(scnr).capacity()) {
            LineVerdict::Line(line, n) => {
                &&& final(scnr).unread() == old(scnr).unread().skip(n as int)
                &&& match read_request_line(line) {
                    RequestLine::Parsed(proto, method, path) => r matches Ok((p, m, f)) && p
                        == proto && m == method && encode_utf8(f@) == path,
                    l => r matches Err(e) && line_error_is(e, l),
                }
            },
            v => r matches Err(e) && e.text() == scanner_failure(v) && final(scnr).unread() == old(
                scnr,
            ).unread(),
        },
{
    let line = match scnr.next_line() {
        Ok((line, _)) => line,
        Err(e) => {
            return Err(ServerError::new().msg(e.message().as_str()));
        },
    };
    let b = line.as_str().as_bytes();
    let first = next_word(b, 0);
    let (m0, m1) = match first {
        Some(w) => w,
        None => {
            return Err(missing("protocol"));
        },
    };
    let (f0, f1) = match next_word(b, m1) {
        Some(w) => w,
        None => {
            return Err(missing("protocol"));
        },
    };
    let (p0, p1) = match next_word(b, f1) {
        Some(w) => w,
        None => {
            return Err(missing("protocol"));
        },
    };
    proof {
        assert(nth_word(b@, 0) == Some((m0 as int, m1 as int)));
        assert(nth_word(b@, 1) == Some((f0 as int, f1 as int))) by {
            reveal_with_fuel(nth_word, 2);
        }
        assert(nth_word(b@, 2) == Some((p0 as int, p1 as int))) by {
            reveal_with_fuel(nth_word, 3);
        }
    }
    let proto_word = copy_range(b, p0, p1);
    let proto = Proto::of_bytes(proto_word.as_slice());
    match proto {
        Proto::Unsupported => {
            return Err(
                match string_from_utf8(proto_word) {
                    Some(word) => ServerError::wrapping(
                        BasicError::with_detail(
                            BasicErrorKind::UnsupportedProto,
                            word.as_str(),
                        ).into_source(),
                    ),
                    None => not_text(),
                },
            );
        },
        _ => {},
    }
    let method_word = copy_range(b, m0, m1);
    let method = Method::of_bytes(method_word.as_slice());
    match method {
        Method::Unsupported => {
            return Err(
                match string_from_utf8(method_word) {
                    Some(word) => ServerError::wrapping(
                        BasicError::with_detail(
                            BasicErrorKind::UnsupportedMethod,
                            word.as_str(),
                        ).into_source(),
                    ),
                    None => not_text(),
                },
            );
        },
        _ => {},
    }
    match string_from_utf8(copy_range(b, f0, f1)) {
        Some(path) => {
            proof {
                vstd::utf8::decode_utf8_encode_utf8(b@.subrange(f0 as int, f1 as int));
            }
            Ok((proto, method, path))
        },
        None => Err(not_text()),
    }
}

/// The first place at or after `i` that holds a colon, or the end.
pub open spec fn colon_at(b: Seq<u8>, i: int) -> int
    decreases b.len() - i,
{
    if 0 <= i < b.len() && b[i] != 58 {
        colon_at(b, i + 1)
    } else {
        i
    }
}

/// How many bytes the white space takes that ends at the place `n` of `b`
/// and begins at `lo` or behind it; 0 where none ends there.
pub open spec fn space_before(b: Seq<u8>, lo: int, n: int) -> int {
    if lo <= n - 1 && space_at(b.take(n), n - 1) == 1 {
        1
    } else if lo <= n - 2 && space_at(b.take(n), n - 2) == 2 {
        2
    } else if lo <= n - 3 && space_at(b.take(n), n - 3) == 3 {
        3
    } else {
        0
    }
}

/// The end of `b[..n]` without the white space at its end, but not before
/// `lo`.
pub open spec fn trim_end(b: Seq<u8>, lo: int, n: int) -> int
    decreases n - lo,
{
    if 0 <= lo < n <= b.len() && space_before(b, lo, n) > 0 {
        trim_end(b, lo, n - space_before(b, lo, n))
    } else {
        n
    }
}

/// A run of bytes without the white space at its front and at its end.
pub open spec fn trimmed_all(b: Seq<u8>) -> Seq<u8> {
    let start = skip_spaces(b, 0);
    b.subrange(start, trim_end(b, start, b.len() as int))
}

/// The part `b[lo..hi]` without the white space around it.
pub open spec fn trimmed(b: Seq<u8>, lo: int, hi: int) -> Seq<u8> {
    trimmed_all(b.subrange(lo, hi))
}

/// How a line of the head reads.
pub enum HeaderLine {
    /// The empty line that ends the head.
    Blank,
    /// A header: the bytes of its name and of its value.
    Pair(Seq<u8>, Seq<u8>),
    /// The line holds no colon.
    NoColon,
    /// The name or the value is no text.
    NotText,
}

/// How the line `line` reads as a line of the head: name and value stand
/// before and behind the first colon, without the white space around them.
pub open spec fn read_header_line(line: Seq<u8>) -> HeaderLine {
    if line.len() == 0 {
        HeaderLine::Blank
    } else {
        let c = colon_at(line, 0);
        if c >= line.len() {
            HeaderLine::NoColon
        } else {
            let name = trimmed(line, 0, c);
            let value = trimmed(line, c + 1, line.len() as int);
            if valid_utf8(name) && valid_utf8(value) {
                HeaderLine::Pair(name, value)
            } else {
                HeaderLine::NotText
            }
        }
    }
}

/// How many bytes the white space takes that ends at the place `n` of `b`
/// and begins at `lo` or behind it.
fn space_len_before(b: &[u8], lo: usize, n: usize) -> (r: usize)
    requires
        lo <= n <= b@.len(),
    ensures
        r == space_before(b@, lo as int, n as int),
        r <= n - lo,
{
    let ghost front = b@.take(n as int);
    if n - lo >= 1 {
        let c = b[n - 1];
        if c == 0x20 || (0x09 <= c && c <= 0x0D) {
            assert(front[n - 1] == c);
            return 1;
        }
        assert(front[n - 1] == c);
    }
    if n - lo >= 2 {
        assert(front[n - 2] == b@[n - 2] && front[n - 1] == b@[n - 1]);
        if b[n - 2] == 0xC2 && (b[n - 1] == 0x85 || b[n - 1] == 0xA0) {
            return 2;
        }
    }
    if n - lo >= 3 {
        let c = b[n - 3];
        let d = b[n - 2];
        let e = b[n - 1];
        assert(front[n - 3] == c && front[n - 2] == d && front[n - 1] == e);
        if c == 0xE1 && d == 0x9A && e == 0x80 {
            return 3;
        }
        if c == 0xE2 && d == 0x80 && ((0x80 <= e && e <= 0x8A) || e == 0xA8 || e == 0xA9 || e
            == 0xAF) {
            return 3;
        }
        if c == 0xE2 && d == 0x81 && e == 0x9F {
            return 3;
        }
        if c == 0xE3 && d == 0x80 && e == 0x80 {
            return 3;
        }
    }
    0
}

/// Cuts a run of bytes free of the white space at its front and at its end.
pub fn trim_all(b: &[u8]) -> (t: Vec<u8>)
    ensures
        t@ == trimmed_all(b@),
{
    let len = b.len();
    let mut s: usize = 0;
    loop
        invariant
            s <= len == b@.len(),
            skip_spaces(b@, s as int) == skip_spaces(b@, 0),
        ensures
            space_at(b@, s as int) == 0,
        decreases b@.len() - s,
    {
        let n = space_len(b, s);
        if n == 0 {
            break;
        }
        s += n;
    }
    let mut e: usize = b.len();
    loop
        invariant
            s <= e <= b@.len(),
            trim_end(b@, s as int, e as int) == trim_end(b@, s as int, b@.len() as int),
        ensures
            trim_end(b@, s as int, e as int) == e,
        decreases e - s,
    {
        if e <= s {
            break;
        }
        let n = space_len_before(b, s, e);
        if n == 0 {
            break;
        }
        e -= n;
    }
    copy_range(b, s, e)
}

/// Cuts `b[lo..hi]` free of the white space around it.
pub fn trim(b: &[u8], lo: usize, hi: usize) -> (t: Vec<u8>)
    requires
        lo <= hi <= b@.len(),
    ensures
        t@ == trimmed(b@, lo as int, hi as int),
{
    let part = copy_range(b, lo, hi);
    trim_all(part.as_slice())
}

/// Reads one line of the head.
pub fn parse_header_line(line: &[u8]) -> (r: Option<Option<(String, String)>>)
    requires
        line@.len() > 0,
    ensures
        match read_header_line(line@) {
            HeaderLine::Pair(name, value) => r matches Some(Some((k, v))) && encode_utf8(k@)
                == name && encode_utf8(v@) == value,
            HeaderLine::NoColon => r is None,
            _ => r matches Some(None),
        },
{
    let mut c: usize = 0;
    while c < line.len() && line[c] != 58
        invariant
            c <= line@.len(),
            colon_at(line@, c as int) == colon_at(line@, 0),
        decreases line@.len() - c,
    {
        c += 1;
    }
    if c >= line.len() {
        return None;
    }
    let name = trim(line, 0, c);
    let value = trim(line, c + 1, line.len());
    let ghost name_bytes = name@;
    let ghost value_bytes = value@;
    match string_from_utf8(name) {
        Some(k) => match string_from_utf8(value) {
            Some(v) => {
                proof {
                    vstd::utf8::decode_utf8_encode_utf8(name_bytes);
                    vstd::utf8::decode_utf8_encode_utf8(value_bytes);
                }
                Some(Some((k, v)))
            },
            None => Some(None),
        },
        None => Some(None),
    }
}

/// How the head reads.
pub enum Headers {
    /// The headers in the order of their lines, each the bytes of a name and
    /// of a value, and the number of bytes that the head took.
    Parsed(Seq<(Seq<u8>, Seq<u8>)>, nat),
    /// The source has no further line where the head has not ended.
    Unterminated,
    /// This line holds no colon.
    BadLine(Seq<u8>),
    /// A name or a value is no text.
    NotText,
}

/// How the head reads that stands at the front of `unread`, seen through a
/// buffer of `capacity` bytes: header lines up to the first empty line.
pub open spec fn read_headers(unread: Seq<u8>, capacity: nat) -> Headers
    decreases unread.len(),
{
    match line_verdict(unread, capacity) {
        LineVerdict::Line(line, n) => match read_header_line(line) {
            HeaderLine::Blank => Headers::Parsed(Seq::empty(), n),
            HeaderLine::Pair(name, value) => if 0 < n <= unread.len() {
                match read_headers(unread.skip(n as int), capacity) {
                    Headers::Parsed(rest, m) => Headers::Parsed(seq![(name, value)] + rest, n + m),
                    other => other,
                }
            } else {
                Headers::Unterminated
            },
            HeaderLine::NoColon => Headers::BadLine(line),
            HeaderLine::NotText => Headers::NotText,
        },
        _ => Headers::Unterminated,
    }
}

/// The headers `h` behind the headers `before`, which took `taken` bytes.
pub open spec fn behind(before: Seq<(Seq<u8>, Seq<u8>)>, taken: nat, h: Headers) -> Headers {
    match h {
        Headers::Parsed(rest, m) => Headers::Parsed(before + rest, taken + m),
        other => other,
    }
}

/// The bytes of the names and values of a list of headers.
pub open spec fn header_bytes(headers: Seq<(String, String)>) -> Seq<(Seq<u8>, Seq<u8>)> {
    headers.map_values(|h: (String, String)| (encode_utf8(h.0@), encode_utf8(h.1@)))
}

/// The cause of the error for a head that does not end.
pub open spec fn unterminated_text() -> Seq<char> {
    basic_text(BasicErrorKind::MalformedRequest) + ": "@
        + "invalid request headers, headers must end with '\\r\\n'"@
}

/// The cause of the error for a header line without a colon.
pub open spec fn bad_header_text(line: Seq<char>) -> Seq<char> {
    basic_text(BasicErrorKind::MalformedRequest) + ": "@ + ("failed to parse request header '"@
        + line + "'"@)
}

/// The cause of the error for a header that is no text.
pub open spec fn header_not_text() -> Seq<char> {
    basic_text(BasicErrorKind::MalformedRequest) + ": "@ + NOT_UTF8@
}

/// Whether `e` is the error for a head that reads as `h`.
pub open spec fn headers_error_is(e: ServerError, h: Headers) -> bool {
    match h {
        Headers::Parsed(_, _) => false,
        Headers::Unterminated => e.cause() == Some(unterminated_text()),
        Headers::BadLine(line) => valid_utf8(line) && e.cause() == Some(
            bad_header_text(decode_utf8(line)),
        ),
        Headers::NotText => e.cause() == Some(header_not_text()),
    }
}

/// Reads the headers from `scnr`, up to and with the empty line that ends
/// them.
///
/// Each line before the empty one gives a header: its name stands before
/// the first colon, its value behind it, both without the white space around
/// them. A line without a colon, and a source that ends before the empty
/// line, make the request malformed.
pub fn parse_headers(scnr: &mut BullshitScanner) -> (r: Result<Vec<(String, String)>, ServerError>)
    requires
        old(scnr).wf(),
    ensures
        final(scnr).wf(),
        final(scnr).capacity() == old(scnr).capacity(),
        match read_headers(old(scnr).unread(), old(scnr).capacity()) {
            Headers::Parsed(pairs, n) => r matches Ok(h) && header_bytes(h@) == pairs && n <= old(
                scnr,
            ).unread().len() && final(scnr).unread() == old(scnr).unread().skip(n as int),
            h => r matches Err(e) && headers_error_is(e, h),
        },
{
    let mut headers: Vec<(String, String)> = Vec::new();
    let ghost start = scnr.unread();
    let ghost capacity = scnr.capacity();
    let ghost mut taken: nat = 0;
    proof {
        assert(header_bytes(headers@) =~= Seq::empty());
        assert(start.skip(0) =~= start);
        match read_headers(start, capacity) {
            Headers::Parsed(rest, m) => {
                assert(Seq::<(Seq<u8>, Seq<u8>)>::empty() + rest =~= rest);
            },
            _ => {},
        }
    }
    loop
        invariant
            scnr.wf(),
            scnr.capacity() == capacity,
            capacity == old(scnr).capacity(),
            start == old(scnr).unread(),
            taken <= start.len(),
            scnr.unread() == start.skip(taken as int),
            read_headers(start, capacity) == behind(
                header_bytes(headers@),
                taken,
                read_headers(scnr.unread(), capacity),
            ),
        decreases scnr.unread().len(),
    {
        let ghost unread = scnr.unread();
        let (line, n) = match scnr.next_line() {
            Ok(l) => l,
            Err(_) => {
                return Err(
                    ServerError::new().wrap(
                        BasicError::with_detail(
                            BasicErrorKind::MalformedRequest,
                            "invalid request headers, headers must end with '\\r\\n'",
                        ).into_source(),
                    ),
                );
            },
        };
        proof {
            crate::bullshit_scanner::lemma_line_taken(unread, capacity);
        }
        let b = line.as_str().as_bytes();
        if b.len() == 0 {
            proof {
                assert(header_bytes(headers@) + Seq::<(Seq<u8>, Seq<u8>)>::empty()
                    =~= header_bytes(headers@));
                assert(start.skip(taken as int).skip(n as int) =~= start.skip(taken + n));
            }
            return Ok(headers);
        }
        match parse_header_line(b) {
            None => {
                proof {
                    vstd::utf8::encode_utf8_decode_utf8(line@);
                    vstd::utf8::encode_utf8_valid_utf8(line@);
                }
                let detail = String::from_str("failed to parse request header '").concat(
                    line.as_str(),
                ).concat("'");
                return Err(
                    ServerError::new().wrap(
                        BasicError::with_detail(
                            BasicErrorKind::MalformedRequest,
                            detail.as_str(),
                        ).into_source(),
                    ),
                );
            },
            Some(None) => {
                return Err(
                    ServerError::new().wrap(
                        BasicError::with_detail(
                            BasicErrorKind::MalformedRequest,
                            NOT_UTF8,
                        ).into_source(),
                    ),
                );
            },
            Some(Some(pair)) => {
                let ghost before = header_bytes(headers@);
                let ghost one = (encode_utf8(pair.0@), encode_utf8(pair.1@));
                headers.push(pair);
                proof {
                    assert(header_bytes(headers@) =~= before.push(one));
                    assert(start.skip(taken as int).skip(n as int) =~= start.skip(taken + n));
                    match read_headers(unread.skip(n as int), capacity) {
                        Headers::Parsed(rest, m) => {
                            assert(before + (seq![one] + rest) =~= before.push(one) + rest);
                        },
                        _ => {},
                    }
                    taken = taken + n as nat;
                }
            },
        }
    }
}

/// The value of a run of decimal digits, read from the left, on top of
/// `acc`; nothing where a byte is no digit or the value leaves 64 bits.
pub open spec fn digits_value(b: Seq<u8>, acc: nat) -> Option<u64>
    decreases b.len(),
{
    if b.len() == 0 {
        Some(acc as u64)
    } else if 48 <= b[0] <= 57 && acc * 10 + (b[0] - 48) <= u64::MAX {
        digits_value(b.skip(1), (acc * 10 + (b[0] - 48)) as nat)
    } else {
        None
    }
}

/// The number that `b` writes in decimal digits, with or without a plus
/// sign before them.
pub open spec fn decimal(b: Seq<u8>) -> Option<u64> {
    let digits = if b.len() > 0 && b[0] == 43 {
        b.skip(1)
    } else {
        b
    };
    if digits.len() == 0 {
        None
    } else {
        digits_value(digits, 0)
    }
}

/// Reads a number in decimal digits.
pub fn parse_u64(b: &[u8]) -> (r: Option<u64>)
    ensures
        r == decimal(b@),
{
    let from: usize = if b.len() > 0 && b[0] == 43 {
        1
    } else {
        0
    };
    if from >= b.len() {
        return None;
    }
    let ghost digits = b@.skip(from as int);
    let mut acc: u64 = 0;
    let mut i: usize = from;
    proof {
        assert(digits.skip(0) =~= digits);
        if from == 0 {
            assert(digits =~= b@);
        }
        assert(decimal(b@) == digits_value(digits, 0));
    }
    while i < b.len()
        invariant
            from <= i <= b@.len(),
            digits == b@.skip(from as int),
            decimal(b@) == digits_value(digits.skip(i - from), acc as nat),
        decreases b@.len() - i,
    {
        let d = b[i];
        proof {
            assert(digits.skip(i - from)[0] == d);
            assert(digits.skip(i - from).skip(1) =~= digits.skip(i + 1 - from));
        }
        if d < 48 || d > 57 {
            return None;
        }
        let v = (d - 48) as u64;
        if acc > (u64::MAX - v) / 10 {
            return None;
        }
        acc = acc * 10 + v;
        i += 1;
    }
    proof {
        assert(digits.skip(i - from).len() == 0);
    }
    Some(acc)
}

/// The value of the last header with the name `name`, if there is one.
pub open spec fn header_value(headers: Seq<(Seq<u8>, Seq<u8>)>, name: Seq<u8>) -> Option<Seq<u8>>
    decreases headers.len(),
{
    if headers.len() == 0 {
        None
    } else if headers.last().0 == name {
        Some(headers.last().1)
    } else {
        header_value(headers.drop_last(), name)
    }
}

/// The length of the body that the headers announce: the number in the last
/// `Content-Length` header, or 0 where there is none or it holds no number.
pub open spec fn body_limit(headers: Seq<(Seq<u8>, Seq<u8>)>) -> u64 {
    match header_value(headers, encode_utf8(CONTENT_LENGTH@)) {
        Some(v) => match decimal(v) {
            Some(n) => n,
            None => 0,
        },
        None => 0,
    }
}

/// The value of the last header with the name `name`, if there is one.
pub fn header<'a>(headers: &'a Vec<(String, String)>, name: &str) -> (r: Option<&'a String>)
    ensures
        match r {
            Some(v) => header_value(header_bytes(headers@), encode_utf8(name@)) == Some(
                encode_utf8(v@),
            ),
            None => header_value(header_bytes(headers@), encode_utf8(name@)) is None,
        },
{
    let mut i: usize = headers.len();
    let ghost all = header_bytes(headers@);
    proof {
        assert(all.take(i as int) =~= all);
    }
    while i > 0
        invariant
            i <= headers@.len(),
            all == header_bytes(headers@),
            header_value(all, encode_utf8(name@)) == header_value(
                all.take(i as int),
                encode_utf8(name@),
            ),
        decreases i,
    {
        i -= 1;
        proof {
            assert(all.take(i + 1).last() == all[i as int]);
            assert(all.take(i + 1).drop_last() =~= all.take(i as int));
        }
        if bytes_equal(headers[i].0.as_str().as_bytes(), name.as_bytes()) {
            return Some(&headers[i].1);
        }
    }
    None
}

/// Whether two runs of bytes are the same.
pub fn bytes_equal(a: &[u8], b: &[u8]) -> (r: bool)
    ensures
        r == (a@ == b@),
{
    if a.len() != b.len() {
        return false;
    }
    let mut i: usize = 0;
    while i < a.len()
        invariant
            i <= a@.len(),
            a@.len() == b@.len(),
            forall|j: int| 0 <= j < i ==> a@[j] == b@[j],
        decreases a@.len() - i,
    {
        if a[i] != b[i] {
            return false;
        }
        i += 1;
    }
    assert(a@ =~= b@);
    true
}

/// A request: what its head says, and the scanner that stands at its body.
#[derive(Debug)]
pub struct Request {
    pub proto: Proto,
    pub method: Method,
    pub file: String,
    pub headers: Vec<(String, String)>,
    /// The source of the body.
    pub body: BullshitScanner,
    /// How many bytes of the source belong to the body.
    pub limit: u64,
}

impl Request {
    /// Hands out up to `want` bytes of the body to the end of `out`, never
    /// more in all than the head announced, and says how many.
    pub fn read_body(&mut self, out: &mut Vec<u8>, want: usize) -> (n: usize)
        requires
            old(self).body.wf(),
        ensures
            final(self).body.wf(),
            n <= want,
            n <= old(self).limit,
            n <= old(self).body.unread().len(),
            n == want || n == old(self).limit || n == old(self).body.unread().len(),
            final(self).limit == old(self).limit - n,
            final(out)@ == old(out)@ + old(self).body.unread().take(n as int),
            final(self).body.unread() == old(self).body.unread().skip(n as int),
            final(self).proto == old(self).proto,
            final(self).method == old(self).method,
            final(self).file == old(self).file,
            final(self).headers == old(self).headers,
    {
        let most: usize = if self.limit < want as u64 {
            self.limit as usize
        } else {
            want
        };
        let n = self.body.read(out, most);
        self.limit = self.limit - n as u64;
        n
    }
}

/// Reads the head of a request from `scnr`: the request line, then the
/// headers. The body stays in the scanner; its length is what the last
/// `Content-Length` header says, or 0.
pub fn parse_http_request(scnr: BullshitScanner) -> (r: Result<Request, ServerError>)
    requires
        scnr.wf(),
    ensures
        match line_verdict(scnr.unread(), scnr.capacity()) {
            LineVerdict::Line(line, n) => match read_request_line(line) {
                RequestLine::Parsed(proto, method, path) => match read_headers(
                    scnr.unread().skip(n as int),
                    scnr.capacity(),
                ) {
                    Headers::Parsed(pairs, m) => r matches Ok(req) && {
                        &&& req.proto == proto
                        &&& req.method == method
                        &&& encode_utf8(req.file@) == path
                        &&& header_bytes(req.headers@) == pairs
                        &&& req.limit == body_limit(pairs)
                        &&& req.body.wf()
                        &&& req.body.unread() == scnr.unread().skip(n as int).skip(m as int)
                    },
                    h => r matches Err(e) && headers_error_is(e, h),
                },
                l => r matches Err(e) && line_error_is(e, l),
            },
            v => r matches Err(e) && e.text() == scanner_failure(v),
        },
{
    let mut scnr = scnr;
    let (proto, method, file) = match parse_request_line(&mut scnr) {
        Ok(l) => l,
        Err(e) => {
            return Err(e);
        },
    };
    let headers = match parse_headers(&mut scnr) {
        Ok(h) => h,
        Err(e) => {
            return Err(e);
        },
    };
    let limit = match header(&headers, CONTENT_LENGTH) {
        Some(v) => match parse_u64(v.as_str().as_bytes()) {
            Some(n) => n,
            None => 0,
        },
        None => 0,
    };
    Ok(Request { proto, method, file, headers, body: scnr, limit })
}

/// The first place at or after `i` that holds a newline, or the end.
pub open spec fn line_end(b: Seq<u8>, i: int) -> int
    decreases b.len() - i,
{
    if 0 <= i < b.len() && b[i] != 10 {
        line_end(b, i + 1)
    } else {
        i
    }
}

/// Whether `b[lo..hi]` holds nothing but carriage returns.
pub open spec fn only_returns(b: Seq<u8>, lo: int, hi: int) -> bool {
    forall|k: int| lo <= k < hi ==> #[trigger] b[k] == 13
}

/// Where the head ends that begins with the line at `from`: behind the
/// newline of the first line that is empty but for carriage returns; nothing
/// where no such line has come in whole.
pub open spec fn head_end_from(b: Seq<u8>, from: int) -> Option<int>
    decreases b.len() - from,
{
    if from < 0 || from >= b.len() {
        None
    } else {
        let end = line_end(b, from);
        if end >= b.len() {
            None
        } else if only_returns(b, from, end) {
            Some(end + 1)
        } else {
            head_end_from(b, end + 1)
        }
    }
}

/// Where the head of the request in `b` ends: behind the first empty line
/// that follows the request line.
pub open spec fn head_end(b: Seq<u8>) -> Option<int> {
    let first = line_end(b, 0);
    if first >= b.len() {
        None
    } else {
        head_end_from(b, first + 1)
    }
}

/// Finds the end of the line that begins at `from`, and says whether the
/// line holds nothing but carriage returns.
fn scan_line(b: &[u8], from: usize) -> (r: (usize, bool))
    requires
        from <= b@.len(),
    ensures
        r.0 == line_end(b@, from as int),
        from <= r.0 <= b@.len(),
        r.1 == only_returns(b@, from as int, r.0 as int),
{
    let mut i: usize = from;
    let mut bare = true;
    while i < b.len() && b[i] != 10
        invariant
            from <= i <= b@.len(),
            line_end(b@, i as int) == line_end(b@, from as int),
            bare == only_returns(b@, from as int, i as int),
        decreases b@.len() - i,
    {
        if b[i] != 13 {
            bare = false;
        }
        i += 1;
    }
    (i, bare)
}

/// Says how many bytes of `b` make the head of a request, if `b` holds a
/// whole head: the request line and the lines behind it, up to and with the
/// first that is empty. Whoever reads a request from a stream knows by this
/// when to stop reading and to parse.
pub fn head_length(b: &[u8]) -> (r: Option<usize>)
    ensures
        match r {
            Some(n) => head_end(b@) == Some(n as int) && n <= b@.len(),
            None => head_end(b@) is None,
        },
{
    let (first, _) = scan_line(b, 0);
    if first >= b.len() {
        return None;
    }
    let mut from: usize = first + 1;
    while from < b.len()
        invariant
            from <= b@.len(),
            head_end(b@) == head_end_from(b@, from as int),
        decreases b@.len() - from,
    {
        let (end, bare) = scan_line(b, from);
        if end >= b.len() {
            return None;
        }
        if bare {
            return Some(end + 1);
        }
        from = end + 1;
    }
    None
}

} // verus!
