//! What the file server decides: which operation a request asks for, whether
//! a path lies inside the directory that is served, what kind of content a
//! file holds, how the head of a response reads, and when the accept loop
//! goes on.

use crate::errors::{basic_text, BasicErrorKind, ServerError};
use crate::packet::{copy_range, extend_from};
use crate::parse::{bytes_equal, Method};
use vstd::prelude::*;
use vstd::utf8::encode_utf8;

verus! {

/// The size of the server's read buffer: 1 MB.
pub const BUFSIZE: usize = 0x10_0000;

/// The port that the server listens at unless told otherwise.
pub const DEFAULT_PORT: u32 = 8080;

/// The directory that the server serves unless told otherwise.
pub const DEFAULT_DIR: &'static str = "./";

/// The number of workers unless told otherwise.
pub const DEFAULT_NUM_THREADS: usize = 4;

/// How long the accept loop of the datagram transport pauses when no
/// connection is waiting, in milliseconds.
pub const ACCEPT_PAUSE: u64 = 500;

/// What the file system says of a path.
#[derive(Debug, Clone, Copy, PartialEq, Eq, Structural)]
pub enum FileKind {
    /// The path names a directory.
    Dir,
    /// The path names a regular file.
    File,
    /// The path names nothing, or something else.
    Other,
}

/// The operation that a request asks for, with the path it concerns.
#[derive(Debug)]
pub enum Requested {
    /// List a directory.
    Dir(String),
    /// Send a file.
    File(String),
    /// Store the body under this path.
    Upload(String),
    /// The path lies outside the directory that is served.
    NotAllowed(String),
    /// Nothing that can be served.
    Nothing,
}

/// What a path walk keeps: the segments so far.
pub open spec fn step_segment(stack: Seq<Seq<u8>>, segment: Seq<u8>) -> Seq<Seq<u8>> {
    if segment.len() == 0 || segment == seq![46u8] {
        stack
    } else if segment == seq![46u8, 46u8] {
        if stack.len() > 1 {
            stack.drop_last()
        } else {
            stack
        }
    } else {
        stack.push(segment)
    }
}

/// The segments that are left of the path `b` from the place `i` on, when
/// `stack` holds the segments so far and `cur` the bytes of the segment at
/// hand: an empty segment and `.` are dropped, and `..` takes back the
/// segment before it unless that is the only one.
pub open spec fn walk(b: Seq<u8>, i: int, cur: Seq<u8>, stack: Seq<Seq<u8>>) -> Seq<Seq<u8>>
    decreases b.len() - i,
{
    if i < 0 || i >= b.len() {
        step_segment(stack, cur)
    } else if b[i] == 47 {
        walk(b, i + 1, Seq::empty(), step_segment(stack, cur))
    } else {
        walk(b, i + 1, cur.push(b[i]), stack)
    }
}

/// The path that the segments make: each behind a slash; a lone slash where
/// there is none.
pub open spec fn rooted(segments: Seq<Seq<u8>>) -> Seq<u8>
    decreases segments.len(),
{
    if segments.len() == 0 {
        seq![47u8]
    } else if segments.len() == 1 {
        seq![47u8] + segments[0]
    } else {
        rooted(segments.drop_last()) + seq![47u8] + segments.last()
    }
}

/// The path `b` from the root, without empty segments, `.` and `..`.
pub open spec fn normalized(b: Seq<u8>) -> Seq<u8> {
    rooted(walk(b, 0, Seq::empty(), Seq::empty()))
}

/// Whether `b` begins with `prefix`.
pub open spec fn starts_with(b: Seq<u8>, prefix: Seq<u8>) -> bool {
    prefix.len() <= b.len() && b.take(prefix.len() as int) == prefix
}

/// Whether `b` begins with `prefix`.
pub fn has_prefix(b: &[u8], prefix: &[u8]) -> (r: bool)
    ensures
        r == starts_with(b@, prefix@),
{
    if prefix.len() > b.len() {
        return false;
    }
    let mut i: usize = 0;
    while i < prefix.len()
        invariant
            i <= prefix@.len() <= b@.len(),
            forall|j: int| 0 <= j < i ==> b@[j] == prefix@[j],
        decreases prefix@.len() - i,
    {
        if b[i] != prefix[i] {
            assert(b@.take(prefix@.len() as int)[i as int] != prefix@[i as int]);
            return false;
        }
        i += 1;
    }
    assert(b@.take(prefix@.len() as int) =~= prefix@);
    true
}

fn push_segment(stack: &mut Vec<Vec<u8>>, cur: Vec<u8>)
    ensures
        final(stack)@.map_values(|s: Vec<u8>| s@) == step_segment(
            old(stack)@.map_values(|s: Vec<u8>| s@),
            cur@,
        ),
{
    let ghost before = stack@.map_values(|s: Vec<u8>| s@);
    let dot = cur.len() == 1 && cur[0] == 46;
    let dots = cur.len() == 2 && cur[0] == 46 && cur[1] == 46;
    proof {
        if dot {
            assert(cur@ =~= seq![46u8]);
        }
        if dots {
            assert(cur@ =~= seq![46u8, 46u8]);
        }
        if cur@.len() != 0 && !dot {
            assert(cur@ != seq![46u8]) by {
                if cur@ == seq![46u8] {
                    assert(cur@.len() == 1 && cur@[0] == 46);
                }
            }
        }
        if !dots {
            assert(cur@ != seq![46u8, 46u8]) by {
                if cur@ == seq![46u8, 46u8] {
                    assert(cur@.len() == 2 && cur@[0] == 46 && cur@[1] == 46);
                }
            }
        }
    }
    if cur.len() == 0 || dot {
    } else if dots {
        if stack.len() > 1 {
            stack.pop();
            assert(stack@.map_values(|s: Vec<u8>| s@) =~= before.drop_last());
        }
    } else {
        stack.push(cur);
        assert(stack@.map_values(|s: Vec<u8>| s@) =~= before.push(cur@));
    }
}

fn join_rooted(stack: &Vec<Vec<u8>>) -> (out: Vec<u8>)
    ensures
        out@ == rooted(stack@.map_values(|s: Vec<u8>| s@)),
{
    let ghost segments = stack@.map_values(|s: Vec<u8>| s@);
    let mut out: Vec<u8> = Vec::new();
    out.push(47);
    if stack.len() == 0 {
        assert(out@ =~= seq![47u8]);
        return out;
    }
    extend_from(&mut out, stack[0].as_slice());
    proof {
        assert(segments.take(1) =~= seq![segments[0]]);
        assert(out@ =~= rooted(segments.take(1)));
    }
    let mut i: usize = 1;
    while i < stack.len()
        invariant
            1 <= i <= stack@.len(),
            segments == stack@.map_values(|s: Vec<u8>| s@),
            out@ == rooted(segments.take(i as int)),
        decreases stack@.len() - i,
    {
        let ghost before = out@;
        out.push(47);
        extend_from(&mut out, stack[i].as_slice());
        proof {
            let next = segments.take(i + 1);
            assert(next.drop_last() =~= segments.take(i as int));
            assert(next.last() == segments[i as int]);
            assert(out@ =~= before + seq![47u8] + segments[i as int]);
        }
        i += 1;
    }
    proof {
        assert(segments.take(i as int) =~= segments);
    }
    out
}

/// The path `file` from the root, without empty segments, `.` and `..`.
pub fn normalize(file: &[u8]) -> (out: Vec<u8>)
    ensures
        out@ == normalized(file@),
{
    let mut stack: Vec<Vec<u8>> = Vec::new();
    let mut cur: Vec<u8> = Vec::new();
    let mut i: usize = 0;
    proof {
        assert(stack@.map_values(|s: Vec<u8>| s@) =~= Seq::<Seq<u8>>::empty());
        assert(cur@ =~= Seq::<u8>::empty());
    }
    while i < file.len()
        invariant
            i <= file@.len(),
            walk(file@, 0, Seq::empty(), Seq::empty()) == walk(
                file@,
                i as int,
                cur@,
                stack@.map_values(|s: Vec<u8>| s@),
            ),
        decreases file@.len() - i,
    {
        if file[i] == 47 {
            push_segment(&mut stack, cur);
            cur = Vec::new();
            proof {
                assert(cur@ =~= Seq::<u8>::empty());
            }
        } else {
            cur.push(file[i]);
        }
        i += 1;
    }
    push_segment(&mut stack, cur);
    join_rooted(&stack)
}

impl Requested {
    /// Whether `file` lies outside the directory `dir`: whether the path,
    /// taken from the root and freed of empty segments, `.` and `..`, does
    /// not begin with `dir`.
    pub fn file_not_allowed(file: &str, dir: &str) -> (r: bool)
        ensures
            r == !starts_with(normalized(encode_utf8(file@)), encode_utf8(dir@)),
    {
        let path = normalize(file.as_bytes());
        !has_prefix(path.as_slice(), dir.as_bytes())
    }

    /// The operation that a request for `file` with the method `method` asks
    /// for, where `dir` is the directory that is served and `kind` is what
    /// the file system says of `file`. Both paths are absolute and free of
    /// links.
    ///
    /// A path outside the directory is not allowed, whatever the method. A
    /// POST is an upload. A GET lists a directory or sends a file; any other
    /// path, and any other method, asks for nothing.
    pub fn parse(dir: &str, file: String, method: Method, kind: FileKind) -> (r: Requested)
        ensures
            match r {
                Requested::NotAllowed(f) => f@ == file@ && !starts_with(
                    normalized(encode_utf8(file@)),
                    encode_utf8(dir@),
                ),
                other => starts_with(normalized(encode_utf8(file@)), encode_utf8(dir@)) && (
                match other {
                    Requested::Upload(f) => f@ == file@ && method == Method::POST,
                    Requested::Dir(f) => f@ == file@ && method == Method::GET && kind
                        == FileKind::Dir,
                    Requested::File(f) => f@ == file@ && method == Method::GET && kind
                        == FileKind::File,
                    _ => method == Method::Unsupported || (method == Method::GET && kind
                        == FileKind::Other),
                }),
            },
    {
        if Requested::file_not_allowed(file.as_str(), dir) {
            return Requested::NotAllowed(file);
        }
        match method {
            Method::POST => Requested::Upload(file),
            Method::Unsupported => Requested::Nothing,
            Method::GET => match kind {
                FileKind::Dir => Requested::Dir(file),
                FileKind::File => Requested::File(file),
                FileKind::Other => Requested::Nothing,
            },
        }
    }
}

/// What the accept loop saw.
#[derive(Debug, Clone, Copy, PartialEq, Eq, Structural)]
pub enum Accepted {
    /// A connection.
    Stream,
    /// No connection was waiting.
    WouldBlock,
    /// The listener failed.
    Failed,
}

/// What the accept loop does next.
#[derive(Debug, Clone, Copy, PartialEq, Eq, Structural)]
pub enum LoopAction {
    /// Hand the connection to a worker and go on.
    Dispatch,
    /// Pause for so many milliseconds and go on.
    Pause(u64),
    /// Leave the loop, wait for the workers, and report completion.
    Stop,
}

/// What the accept loop does after `seen`, where `exit` says whether a
/// shutdown was asked for and `pause` is the length of a pause in
/// milliseconds: a connection is always handed on; where none was waiting
/// the loop stops if a shutdown was asked for and pauses otherwise; a
/// failure of the listener stops it.
pub fn accept_loop_step(seen: Accepted, exit: bool, pause: u64) -> (a: LoopAction)
    ensures
        a == match seen {
            Accepted::Stream => LoopAction::Dispatch,
            Accepted::WouldBlock => if exit {
                LoopAction::Stop
            } else {
                LoopAction::Pause(pause)
            },
            Accepted::Failed => LoopAction::Stop,
        },
{
    match seen {
        Accepted::Stream => LoopAction::Dispatch,
        Accepted::WouldBlock => if exit {
            LoopAction::Stop
        } else {
            LoopAction::Pause(pause)
        },
        Accepted::Failed => LoopAction::Stop,
    }
}

/// The kinds of content that the server tells apart.
#[derive(Debug, Clone, Copy, PartialEq, Eq, Structural)]
pub enum MimeType {
    TextPlain,
    ImagePng,
    ImageJpeg,
    Javascript,
    Css,
    Xml,
    Json,
    Html,
    Pdf,
    Markdown,
    Toml,
}

/// The name of a kind of content.
pub open spec fn mime_name(t: MimeType) -> Seq<char> {
    match t {
        MimeType::TextPlain => "text/plain"@,
        MimeType::ImagePng => "image/png"@,
        MimeType::ImageJpeg => "image/jpeg"@,
        MimeType::Javascript => "application/javascript"@,
        MimeType::Css => "text/css"@,
        MimeType::Xml => "text/xml"@,
        MimeType::Json => "application/json"@,
        MimeType::Html => "text/html"@,
        MimeType::Pdf => "application/pdf"@,
        MimeType::Markdown => "text/markdown"@,
        MimeType::Toml => "application/toml"@,
    }
}

/// Trusted: the text of the constant `TEXT_PLAIN` of the crate `mime`, which
/// its table of constants gives as `text/plain`.
#[verifier::external_body]
fn mime_text_plain() -> (s: String)
    ensures
        s@ == "text/plain"@,
{
    mime::TEXT_PLAIN.to_string()
}

/// Trusted: the text of the constant `IMAGE_PNG` of the crate `mime`, which
/// its table of constants gives as `image/png`.
#[verifier::external_body]
fn mime_image_png() -> (s: String)
    ensures
        s@ == "image/png"@,
{
    mime::IMAGE_PNG.to_string()
}

/// Trusted: the text of the constant `IMAGE_JPEG` of the crate `mime`, which
/// its table of constants gives as `image/jpeg`.
#[verifier::external_body]
fn mime_image_jpeg() -> (s: String)
    ensures
        s@ == "image/jpeg"@,
{
    mime::IMAGE_JPEG.to_string()
}

/// Trusted: the text of the constant `APPLICATION_JAVASCRIPT` of the crate
/// `mime`, which its table of constants gives as `application/javascript`.
#[verifier::external_body]
fn mime_application_javascript() -> (s: String)
    ensures
        s@ == "application/javascript"@,
{
    mime::APPLICATION_JAVASCRIPT.to_string()
}

/// Trusted: the text of the constant `TEXT_CSS` of the crate `mime`, which
/// its table of constants gives as `text/css`.
#[verifier::external_body]
fn mime_text_css() -> (s: String)
    ensures
        s@ == "text/css"@,
{
    mime::TEXT_CSS.to_string()
}

/// Trusted: the text of the constant `TEXT_XML` of the crate `mime`, which
/// its table of constants gives as `text/xml`.
#[verifier::external_body]
fn mime_text_xml() -> (s: String)
    ensures
        s@ == "text/xml"@,
{
    mime::TEXT_XML.to_string()
}

/// Trusted: the text of the constant `APPLICATION_JSON` of the crate `mime`,
/// which its table of constants gives as `application/json`.
#[verifier::external_body]
fn mime_application_json() -> (s: String)
    ensures
        s@ == "application/json"@,
{
    mime::APPLICATION_JSON.to_string()
}

/// Trusted: the text of the constant `TEXT_HTML` of the crate `mime`, which
/// its table of constants gives as `text/html`.
#[verifier::external_body]
fn mime_text_html() -> (s: String)
    ensures
        s@ == "text/html"@,
{
    mime::TEXT_HTML.to_string()
}

/// Trusted: the text of the constant `APPLICATION_PDF` of the crate `mime`,
/// which its table of constants gives as `application/pdf`.
#[verifier::external_body]
fn mime_application_pdf() -> (s: String)
    ensures
        s@ == "application/pdf"@,
{
    mime::APPLICATION_PDF.to_string()
}

/// Where the last part of `b[..n]` begins: behind the last `sep`, or at the
/// front.
pub open spec fn last_start(b: Seq<u8>, sep: u8, n: int) -> int
    decreases n,
{
    if 0 < n <= b.len() && b[n - 1] != sep {
        last_start(b, sep, n - 1)
    } else {
        n
    }
}

/// What stands in `b` behind the last `sep`; all of `b` where there is no
/// `sep`.
pub open spec fn last_part(b: Seq<u8>, sep: u8) -> Seq<u8> {
    b.subrange(last_start(b, sep, b.len() as int), b.len() as int)
}

/// Where the last part of `b` begins.
pub fn find_last_part(b: &[u8], sep: u8) -> (start: usize)
    ensures
        start <= b@.len(),
        start == last_start(b@, sep, b@.len() as int),
{
    let mut n: usize = b.len();
    while n > 0 && b[n - 1] != sep
        invariant
            n <= b@.len(),
            last_start(b@, sep, n as int) == last_start(b@, sep, b@.len() as int),
        decreases n,
    {
        n -= 1;
    }
    n
}

/// The kind of content that a file with the name `filename` holds, as far as
/// the name tells: a `Makefile` is plain text; else the part behind the last
/// dot of the last segment decides, and what is not known is plain text.
pub open spec fn mime_of(filename: Seq<u8>) -> MimeType {
    let name = last_part(filename, 47);
    let ext = last_part(name, 46);
    if name == encode_utf8("Makefile"@) {
        MimeType::TextPlain
    } else if ext == encode_utf8("png"@) {
        MimeType::ImagePng
    } else if ext == encode_utf8("jpg"@) {
        MimeType::ImageJpeg
    } else if ext == encode_utf8("js"@) {
        MimeType::Javascript
    } else if ext == encode_utf8("css"@) {
        MimeType::Css
    } else if ext == encode_utf8("xml"@) {
        MimeType::Xml
    } else if ext == encode_utf8("json"@) {
        MimeType::Json
    } else if ext == encode_utf8("html"@) {
        MimeType::Html
    } else if ext == encode_utf8("pdf"@) {
        MimeType::Pdf
    } else if ext == encode_utf8("md"@) {
        MimeType::Markdown
    } else if ext == encode_utf8("toml"@) {
        MimeType::Toml
    } else {
        MimeType::TextPlain
    }
}

/// The kind of content that a file with the name `filename` holds.
pub fn mime_type(filename: &[u8]) -> (t: MimeType)
    ensures
        t == mime_of(filename@),
{
    let from = find_last_part(filename, 47);
    let name = copy_range(filename, from, filename.len());
    let dot = find_last_part(name.as_slice(), 46);
    let ext = copy_range(name.as_slice(), dot, name.len());
    if bytes_equal(name.as_slice(), "Makefile".as_bytes()) {
        MimeType::TextPlain
    } else if bytes_equal(ext.as_slice(), "png".as_bytes()) {
        MimeType::ImagePng
    } else if bytes_equal(ext.as_slice(), "jpg".as_bytes()) {
        MimeType::ImageJpeg
    } else if bytes_equal(ext.as_slice(), "js".as_bytes()) {
        MimeType::Javascript
    } else if bytes_equal(ext.as_slice(), "css".as_bytes()) {
        MimeType::Css
    } else if bytes_equal(ext.as_slice(), "xml".as_bytes()) {
        MimeType::Xml
    } else if bytes_equal(ext.as_slice(), "json".as_bytes()) {
        MimeType::Json
    } else if bytes_equal(ext.as_slice(), "html".as_bytes()) {
        MimeType::Html
    } else if bytes_equal(ext.as_slice(), "pdf".as_bytes()) {
        MimeType::Pdf
    } else if bytes_equal(ext.as_slice(), "md".as_bytes()) {
        MimeType::Markdown
    } else if bytes_equal(ext.as_slice(), "toml".as_bytes()) {
        MimeType::Toml
    } else {
        MimeType::TextPlain
    }
}

/// The name of the kind of content that a file with the name `filename`
/// holds.
pub fn parse_mimetype(filename: &str) -> (s: String)
    ensures
        s@ == mime_name(mime_of(encode_utf8(filename@))),
{
    match mime_type(filename.as_bytes()) {
        MimeType::TextPlain => mime_text_plain(),
        MimeType::ImagePng => mime_image_png(),
        MimeType::ImageJpeg => mime_image_jpeg(),
        MimeType::Javascript => mime_application_javascript(),
        MimeType::Css => mime_text_css(),
        MimeType::Xml => mime_text_xml(),
        MimeType::Json => mime_application_json(),
        MimeType::Html => mime_text_html(),
        MimeType::Pdf => mime_application_pdf(),
        MimeType::Markdown => String::from_str("text/markdown"),
        MimeType::Toml => String::from_str("application/toml"),
    }
}

/// The decimal digits of a number.
pub open spec fn decimal_digits(n: nat) -> Seq<u8>
    decreases n,
{
    if n < 10 {
        seq![(48 + n) as u8]
    } else {
        decimal_digits(n / 10).push((48 + n % 10) as u8)
    }
}

/// Writes a number in decimal digits.
pub fn decimal_text(n: u64) -> (out: Vec<u8>)
    ensures
        out@ == decimal_digits(n as nat),
{
    let mut backwards: Vec<u8> = Vec::new();
    let mut rest: u64 = n;
    backwards.push(48 + (rest % 10) as u8);
    rest = rest / 10;
    while rest > 0
        invariant
            backwards@.len() > 0,
            decimal_digits(n as nat) == if rest == 0 {
                backwards@.reverse()
            } else {
                decimal_digits(rest as nat) + backwards@.reverse()
            },
        decreases rest,
    {
        let ghost before = backwards@;
        backwards.push(48 + (rest % 10) as u8);
        proof {
            let d = (48 + rest % 10) as u8;
            assert(backwards@.reverse() =~= seq![d] + before.reverse());
            if rest >= 10 {
                assert(decimal_digits(rest as nat) == decimal_digits((rest / 10) as nat).push(d));
                assert(decimal_digits((rest / 10) as nat).push(d) + before.reverse()
                    =~= decimal_digits((rest / 10) as nat) + (seq![d] + before.reverse()));
            } else {
                assert(decimal_digits(rest as nat) =~= seq![d]);
            }
        }
        rest = rest / 10;
    }
    let mut out: Vec<u8> = Vec::new();
    let mut i: usize = backwards.len();
    while i > 0
        invariant
            i <= backwards@.len(),
            out@ == backwards@.reverse().take(backwards@.len() - i),
        decreases i,
    {
        i -= 1;
        out.push(backwards[i]);
        proof {
            let r = backwards@.reverse();
            assert(r[backwards@.len() - 1 - i] == backwards@[i as int]);
            assert(out@ =~= r.take(backwards@.len() - i));
        }
    }
    proof {
        assert(backwards@.reverse().take(backwards@.len() as int) =~= backwards@.reverse());
    }
    out
}

/// The lines that the headers make: each a name, a colon, a blank, the
/// value, and a line break.
pub open spec fn header_lines(headers: Seq<(Seq<u8>, Seq<u8>)>) -> Seq<u8>
    decreases headers.len(),
{
    if headers.len() == 0 {
        Seq::empty()
    } else {
        header_lines(headers.drop_last()) + headers.last().0 + encode_utf8(": "@)
            + headers.last().1 + encode_utf8("\r\n"@)
    }
}

/// Whether one of the headers has the name `name`.
pub open spec fn has_header(headers: Seq<(Seq<u8>, Seq<u8>)>, name: Seq<u8>) -> bool {
    exists|i: int| 0 <= i < headers.len() && (#[trigger] headers[i]).0 == name
}

/// The head of a response: the status line, the length of the body unless a
/// header gives it, the headers, and an empty line.
pub open spec fn head_text(status: Seq<u8>, body_length: u64, headers: Seq<(Seq<u8>, Seq<u8>)>) ->
    Seq<u8> {
    encode_utf8("HTTP/1.1 "@) + status + encode_utf8("\r\n"@) + (if has_header(
        headers,
        encode_utf8("Content-Length"@),
    ) {
        Seq::<u8>::empty()
    } else {
        encode_utf8("Content-Length: "@) + decimal_digits(body_length as nat) + encode_utf8(
            "\r\n"@,
        )
    }) + header_lines(headers) + encode_utf8("\r\n"@)
}

/// The bytes of the names and values of a list of headers.
pub open spec fn pairs(headers: Seq<(String, String)>) -> Seq<(Seq<u8>, Seq<u8>)> {
    headers.map_values(|h: (String, String)| (encode_utf8(h.0@), encode_utf8(h.1@)))
}

/// Writes the head of a response with the status `status` for a body of
/// `body_length` bytes.
pub fn response_head(status: &str, body_length: u64, headers: &Vec<(String, String)>) -> (out: Vec<
    u8,
>)
    ensures
        out@ == head_text(encode_utf8(status@), body_length, pairs(headers@)),
{
    let ghost all = pairs(headers@);
    let mut has_length = false;
    let mut i: usize = 0;
    while i < headers.len()
        invariant
            i <= headers@.len(),
            all == pairs(headers@),
            has_length == has_header(all.take(i as int), encode_utf8("Content-Length"@)),
        decreases headers@.len() - i,
    {
        let found = bytes_equal(headers[i].0.as_str().as_bytes(), "Content-Length".as_bytes());
        proof {
            let name = encode_utf8("Content-Length"@);
            let before = all.take(i as int);
            let next = all.take(i + 1);
            assert(next[i as int] == all[i as int]);
            if has_header(before, name) {
                let k = choose|k: int| 0 <= k < before.len() && (#[trigger] before[k]).0 == name;
                assert(next[k] == before[k]);
            }
            if has_header(next, name) && !found {
                let k = choose|k: int| 0 <= k < next.len() && (#[trigger] next[k]).0 == name;
                assert(before[k] == next[k]);
            }
        }
        has_length = has_length || found;
        i += 1;
    }
    proof {
        assert(all.take(i as int) =~= all);
    }
    let mut out: Vec<u8> = Vec::new();
    extend_from(&mut out, "HTTP/1.1 ".as_bytes());
    extend_from(&mut out, status.as_bytes());
    extend_from(&mut out, "\r\n".as_bytes());
    if !has_length {
        extend_from(&mut out, "Content-Length: ".as_bytes());
        let digits = decimal_text(body_length);
        extend_from(&mut out, digits.as_slice());
        extend_from(&mut out, "\r\n".as_bytes());
    }
    let ghost front = out@;
    let mut j: usize = 0;
    proof {
        assert(all.take(0) =~= Seq::<(Seq<u8>, Seq<u8>)>::empty());
        assert(out@ =~= front + header_lines(all.take(0)));
    }
    while j < headers.len()
        invariant
            j <= headers@.len(),
            all == pairs(headers@),
            out@ == front + header_lines(all.take(j as int)),
        decreases headers@.len() - j,
    {
        let ghost before = out@;
        extend_from(&mut out, headers[j].0.as_str().as_bytes());
        extend_from(&mut out, ": ".as_bytes());
        extend_from(&mut out, headers[j].1.as_str().as_bytes());
        extend_from(&mut out, "\r\n".as_bytes());
        proof {
            let next = all.take(j + 1);
            assert(next.drop_last() =~= all.take(j as int));
            assert(next.last() == all[j as int]);
            assert(out@ =~= front + header_lines(next));
        }
        j += 1;
    }
    proof {
        assert(all.take(j as int) =~= all);
    }
    extend_from(&mut out, "\r\n".as_bytes());
    proof {
        assert(out@ =~= head_text(encode_utf8(status@), body_length, all));
    }
    out
}

/// A whole response: the head with the kind of content, then the body.
pub open spec fn response_text(status: Seq<u8>, content_type: Seq<u8>, body: Seq<u8>) -> Seq<u8> {
    head_text(
        status,
        body.len() as u64,
        seq![(encode_utf8("Content-Type"@), content_type)],
    ) + body
}

/// Writes a whole response with the status `status` and a body of the kind
/// `content_type`.
pub fn write_response(status: &str, content_type: &str, body: &[u8]) -> (out: Vec<u8>)
    ensures
        out@ == response_text(encode_utf8(status@), encode_utf8(content_type@), body@),
{
    let mut headers: Vec<(String, String)> = Vec::new();
    headers.push((String::from_str("Content-Type"), String::from_str(content_type)));
    proof {
        assert(pairs(headers@) =~= seq![
            (encode_utf8("Content-Type"@), encode_utf8(content_type@)),
        ]);
    }
    let mut out = response_head(status, body.len() as u64, &headers);
    extend_from(&mut out, body);
    out
}

/// The body of the answer to a request for a file that is not there.
pub open spec fn not_found_text(filename: Seq<u8>, dir: Seq<u8>) -> Seq<u8> {
    encode_utf8("File '"@) + filename + encode_utf8(
        "' could not be found on the server (directory being served is "@,
    ) + dir + encode_utf8(")\n"@)
}

/// The body of the answer to a request for a file outside the directory
/// that is served.
pub open spec fn not_allowed_text(filename: Seq<u8>, dir: Seq<u8>) -> Seq<u8> {
    encode_utf8("File '"@) + filename + encode_utf8(
        "' is located outside the directory that is being served\r\n\r\n"@,
    ) + encode_utf8("Only files in directory '"@) + dir + encode_utf8("' may be accessed\r\n"@)
}

/// The answer to a request for the file `filename`, which is not in the
/// directory `dir`: `404 Not Found`, with a line that says so.
pub fn write_404(filename: &str, dir: &str) -> (out: Vec<u8>)
    ensures
        out@ == response_text(
            encode_utf8("404 Not Found"@),
            encode_utf8("text/plain"@),
            not_found_text(encode_utf8(filename@), encode_utf8(dir@)),
        ),
{
    let mut body: Vec<u8> = Vec::new();
    extend_from(&mut body, "File '".as_bytes());
    extend_from(&mut body, filename.as_bytes());
    extend_from(
        &mut body,
        "' could not be found on the server (directory being served is ".as_bytes(),
    );
    extend_from(&mut body, dir.as_bytes());
    extend_from(&mut body, ")\n".as_bytes());
    write_response("404 Not Found", "text/plain", body.as_slice())
}

/// The answer to a request for the file `filename`, which lies outside the
/// directory `dir` that is served: `403 Forbidden`, with lines that say so.
/// Both paths are given as they are to be shown.
pub fn write_not_allowed(filename: &str, dir: &str) -> (out: Vec<u8>)
    ensures
        out@ == response_text(
            encode_utf8("403 Forbidden"@),
            encode_utf8("text/plain"@),
            not_allowed_text(encode_utf8(filename@), encode_utf8(dir@)),
        ),
{
    let mut body: Vec<u8> = Vec::new();
    extend_from(&mut body, "File '".as_bytes());
    extend_from(&mut body, filename.as_bytes());
    extend_from(
        &mut body,
        "' is located outside the directory that is being served\r\n\r\n".as_bytes(),
    );
    extend_from(&mut body, "Only files in directory '".as_bytes());
    extend_from(&mut body, dir.as_bytes());
    extend_from(&mut body, "' may be accessed\r\n".as_bytes());
    write_response("403 Forbidden", "text/plain", body.as_slice())
}

/// The answer to a request that the server failed on: `500 Internal Server
/// Error`, with the message as its body.
pub fn write_500(msg: &str) -> (out: Vec<u8>)
    ensures
        out@ == response_text(
            encode_utf8("500 Internal Server Error"@),
            encode_utf8("text/plain"@),
            encode_utf8(msg@),
        ),
{
    write_response("500 Internal Server Error", "text/plain", msg.as_bytes())
}

/// What the file system says of an entry of a directory.
#[derive(Debug, Clone, Copy, PartialEq, Eq, Structural)]
pub enum EntryKind {
    /// A directory.
    Dir,
    /// A regular file, or anything else that is no link.
    File,
    /// A symbolic link.
    Symlink,
    /// The file system did not say.
    Unknown,
}

/// The name under which an entry is listed, if it is listed: a directory
/// with a slash behind its name, a file by its name, a link or an entry of
/// unknown kind not at all.
pub open spec fn listed_name(kind: EntryKind, name: Seq<char>) -> Option<Seq<char>> {
    match kind {
        EntryKind::Dir => Some(name + "/"@),
        EntryKind::File => Some(name),
        _ => None,
    }
}

/// The names under which the entries of a directory are listed, in the
/// order of the entries.
pub open spec fn listed_names(entries: Seq<(EntryKind, String)>) -> Seq<Seq<char>>
    decreases entries.len(),
{
    if entries.len() == 0 {
        Seq::empty()
    } else {
        match listed_name(entries.last().0, entries.last().1@) {
            Some(name) => listed_names(entries.drop_last()).push(name),
            None => listed_names(entries.drop_last()),
        }
    }
}

/// The names under which the entries of a directory are listed.
pub fn dir_listing(entries: &Vec<(EntryKind, String)>) -> (names: Vec<String>)
    ensures
        names@.map_values(|s: String| s@) == listed_names(entries@),
{
    let mut names: Vec<String> = Vec::new();
    let mut i: usize = 0;
    proof {
        assert(entries@.take(0) =~= Seq::<(EntryKind, String)>::empty());
        assert(names@.map_values(|s: String| s@) =~= Seq::<Seq<char>>::empty());
    }
    while i < entries.len()
        invariant
            i <= entries@.len(),
            names@.map_values(|s: String| s@) == listed_names(entries@.take(i as int)),
        decreases entries@.len() - i,
    {
        let ghost before = names@.map_values(|s: String| s@);
        proof {
            let next = entries@.take(i + 1);
            assert(next.drop_last() =~= entries@.take(i as int));
            assert(next.last() == entries@[i as int]);
        }
        match entries[i].0 {
            EntryKind::Dir => {
                let name = entries[i].1.clone().concat("/");
                names.push(name);
                proof {
                    assert(names@.map_values(|s: String| s@) =~= before.push(
                        entries@[i as int].1@ + "/"@,
                    ));
                }
            },
            EntryKind::File => {
                names.push(entries[i].1.clone());
                proof {
                    assert(names@.map_values(|s: String| s@) =~= before.push(
                        entries@[i as int].1@,
                    ));
                }
            },
            _ => {},
        }
        i += 1;
    }
    proof {
        assert(entries@.take(i as int) =~= entries@);
    }
    names
}

/// What stands in the way of an upload to a path of which the file system
/// says `kind`, if anything does: no file is written over a directory or
/// through a symbolic link.
pub fn check_upload(kind: EntryKind) -> (r: Result<(), ServerError>)
    ensures
        match r {
            Ok(_) => kind != EntryKind::Dir && kind != EntryKind::Symlink,
            Err(e) => (kind == EntryKind::Dir && e.cause() == Some(
                basic_text(BasicErrorKind::WritingToDirectory),
            )) || (kind == EntryKind::Symlink && e.cause() == Some(
                basic_text(BasicErrorKind::WritingToSymlink),
            )),
        },
{
    match kind {
        EntryKind::Dir => Err(ServerError::writing_to_directory()),
        EntryKind::Symlink => Err(ServerError::writing_to_symlink()),
        _ => Ok(()),
    }
}

/// The head of the answer that sends a file: its length, the kind of its
/// content, and the name under which to store it, which is the last segment
/// of its path.
pub open spec fn file_head_text(filename: Seq<u8>, length: u64) -> Seq<u8> {
    encode_utf8("HTTP/1.1 200 OK\r\nContent-Length: "@) + decimal_digits(length as nat)
        + encode_utf8("\r\nContent-Type: "@) + encode_utf8(mime_name(mime_of(filename)))
        + encode_utf8("\r\nContent-Disposition: attachment; filename=\""@) + last_part(
        filename,
        47,
    ) + encode_utf8("\"\r\n\r\n"@)
}

/// Writes the head of the answer that sends the file `filename` of `length`
/// bytes.
pub fn write_file(filename: &str, length: u64) -> (out: Vec<u8>)
    ensures
        out@ == file_head_text(encode_utf8(filename@), length),
{
    let name = filename.as_bytes();
    let from = find_last_part(name, 47);
    let mut out: Vec<u8> = Vec::new();
    extend_from(&mut out, "HTTP/1.1 200 OK\r\nContent-Length: ".as_bytes());
    extend_from(&mut out, decimal_text(length).as_slice());
    extend_from(&mut out, "\r\nContent-Type: ".as_bytes());
    extend_from(&mut out, parse_mimetype(filename).as_str().as_bytes());
    extend_from(&mut out, "\r\nContent-Disposition: attachment; filename=\"".as_bytes());
    extend_from(&mut out, copy_range(name, from, name.len()).as_slice());
    extend_from(&mut out, "\"\r\n\r\n".as_bytes());
    out
}

} // verus!
