use udpx::bullshit_scanner::{BullshitError, BullshitScanner};
use udpx::config::Config;
use udpx::errors::{BasicError, BasicErrorKind, HttpParseError, ServerError, SourceError};
use udpx::html::{template, Templater, HTML_AFTER_LINKS, HTML_BEFORE_LINKS};
use udpx::parse::{
    head_length, header, next_word, parse_headers, parse_http_request, parse_request_line,
    parse_u64, space_len, trim, trim_all, Method, Proto,
};
use udpx::server::{
    accept_loop_step, check_upload, decimal_text, dir_listing, normalize, parse_mimetype,
    response_head, write_404, write_500, write_file, write_not_allowed, write_response, Accepted,
    EntryKind, FileKind, LoopAction, Requested,
};
use udpx::stream::UdpxStream;
use udpx::transport::{Endpoint, TransportError};
use udpx::util::{err_to_exit_code, log_level, JoinIter, TruncateLeft};

const BUFSIZES: [usize; 8] = [1, 1 << 1, 1 << 2, 1 << 4, 1 << 6, 1 << 10, 1 << 20, 1 << 27];

/// Reads a whole source through scanners with buffers of different sizes.
fn assert_read_with_different_bufsizes(input: &str, bufsizes: &[usize]) {
    for bufsize in bufsizes.iter() {
        let mut scnr = BullshitScanner::with_capacity(input.as_bytes(), *bufsize);
        let mut red = Vec::new();
        let mut res = 0;
        loop {
            let n = scnr.read(&mut red, 8192);
            if n == 0 {
                break;
            }
            res += n;
        }
        assert_eq!(res, input.len());
        assert_eq!(String::from_utf8(red).unwrap(), input);
    }
}

#[test]
fn empty() {
    assert_read_with_different_bufsizes("", &BUFSIZES);
}

#[test]
fn hello_world() {
    assert_read_with_different_bufsizes("Hello world!", &BUFSIZES);
}

#[test]
fn lorem_ipsum() {
    assert_read_with_different_bufsizes(
        "
        Lorem ipsum dolor sit amet, consectetur adipiscing elit, sed do eiusmod tempor
        incididunt ut labore et dolore magna aliqua. Ut enim ad minim veniam, quis
        nostrud exercitation ullamco laboris nisi ut aliquip ex ea commodo consequat.
        Duis aute irure dolor in reprehenderit in voluptate velit esse cillum dolore eu
        fugiat nulla pariatur. Excepteur sint occaecat cupidatat non proident, sunt in
        culpa qui officia deserunt mollit anim id est laborum.
        ",
        &BUFSIZES,
    );
}

#[test]
fn big() {
    assert_read_with_different_bufsizes(
        &(0..1000).map(|_| "big!\n").collect::<String>(),
        &BUFSIZES[..7],
    );
}

#[test]
fn very_big() {
    assert_read_with_different_bufsizes(
        &std::iter::repeat("very big!\n")
            .take(1 << 16)
            .collect::<String>(),
        &BUFSIZES[..7],
    );
}

#[test]
fn hello_world_asdasdasdasd() {
    let (input, expected, take) = ("Hello world!asdasdasdasd", "Hello", 5);
    let scnr = BullshitScanner::new(input.as_bytes());
    let mut bites = scnr.bites();
    let mut partial = Vec::new();
    for _ in 0..take {
        partial.push(bites.next().unwrap());
    }
    let out = std::str::from_utf8(&partial).unwrap();
    assert_eq!(expected, out);
    // Only what was taken is gone.
    assert_eq!(bites.next(), Some(b' '));
}

#[test]
fn test_lines_iterator() {
    let data = "
        Hello world!
        asd
        asd
        as
        da
        sd
        ";
    let scnr = BullshitScanner::new(data.as_bytes());
    let mut lines = scnr.lines();
    let mut out = String::new();
    while let Some(l) = lines.next() {
        out += &l.0;
    }
    assert_eq!(data.replace("\n", "").trim_end(), out);
}

#[test]
fn next_line_gives_the_line_and_the_bytes_it_took() {
    let mut scnr = BullshitScanner::new(b"GET / HTTP/1.1\r\nHost: x\r\n\r\nbody");
    let (line, n) = scnr.next_line().unwrap();
    assert_eq!((line.as_str(), n), ("GET / HTTP/1.1", 16));
    let (line, n) = scnr.next_line().unwrap();
    assert_eq!((line.as_str(), n), ("Host: x", 9));
    let (line, n) = scnr.next_line().unwrap();
    assert_eq!((line.as_str(), n), ("", 2));
    let e = scnr.next_line().unwrap_err();
    assert_eq!(e.message(), "EOF");
    // A failure takes nothing: the rest is still there.
    assert_eq!(scnr.next_byte().unwrap(), b'b');
    let mut rest = Vec::new();
    assert_eq!(scnr.read(&mut rest, 100), 3);
    assert_eq!(rest, b"ody");
    assert_eq!(scnr.next_byte().unwrap_err().message(), "EOF");
    assert_eq!(scnr.read(&mut rest, 100), 0);
}

#[test]
fn next_line_strips_every_trailing_carriage_return() {
    let mut scnr = BullshitScanner::new(b"a\r\r\r\n\rb\r\n");
    assert_eq!(scnr.next_line().unwrap(), ("a".to_string(), 5));
    assert_eq!(scnr.next_line().unwrap(), ("\rb".to_string(), 4));
}

#[test]
fn a_line_must_fit_in_the_buffer() {
    let long = "x".repeat(64) + "\n";
    let mut scnr = BullshitScanner::with_capacity(long.as_bytes(), 1);
    assert_eq!(
        scnr.next_line().unwrap_err().message(),
        "buffer is not big enough"
    );
    let fits = "x".repeat(63) + "\nrest";
    let mut scnr = BullshitScanner::with_capacity(fits.as_bytes(), 64);
    assert_eq!(scnr.next_line().unwrap(), ("x".repeat(63), 64));
    assert_eq!(scnr.next_line().unwrap_err().message(), "EOF");
}

#[test]
fn a_line_that_is_no_text_is_refused() {
    let mut scnr = BullshitScanner::new(&[b'a', 0xFF, b'\n', b'b', b'\n']);
    let e = scnr.next_line().unwrap_err();
    assert_eq!(e.message(), "invalid utf-8 sequence");
    assert_eq!(scnr.next_byte().unwrap(), b'a');
}

#[test]
fn scanner_errors_are_built_step_by_step() {
    assert_eq!(BullshitError::new().message(), "");
    assert_eq!(BullshitError::default().message(), "EOF");
    assert_eq!(
        BullshitError::with_msg("m".to_string()).message(),
        "m"
    );
    assert_eq!(BullshitError::wrapping("c".to_string()).message(), "");
    assert_eq!(
        BullshitError::of(Some("m".to_string()), Some("c".to_string())).message(),
        "m"
    );
    let e = BullshitError::new().wrap("cause".to_string()).msg("msg");
    assert_eq!(e.message(), "msg");
    assert_eq!(e.clone().message(), "msg");
}

#[test]
fn server_errors_say_what_they_wrap() {
    assert_eq!(ServerError::new().message(), "");
    assert_eq!(ServerError::default().message(), "");
    assert_eq!(ServerError::new().source(), None);
    assert_eq!(ServerError::new().msg("hello").message(), "hello");
    let e = ServerError::new()
        .msg("hello")
        .wrap(SourceError::new("cause"));
    assert_eq!(e.message(), "hello");
    assert_eq!(e.source(), Some("cause".to_string()));
    let e = ServerError::wrapping(SourceError::new("cause"));
    assert_eq!(e.message(), "udpx::errors::ServerError: cause");
    assert_eq!(e.source(), Some("cause".to_string()));
    let e = ServerError::wrap_err(SourceError::new("cause"));
    assert_eq!(e.message(), "udpx::errors::ServerError: cause");
    assert_eq!(
        ServerError::malformed_request().message(),
        "udpx::errors::ServerError: Malformed request"
    );
    assert_eq!(
        ServerError::unsupported_proto().message(),
        "udpx::errors::ServerError: Unsupported protocol"
    );
    assert_eq!(
        ServerError::unsupported_method().message(),
        "udpx::errors::ServerError: Unsupported HTTP method"
    );
    assert_eq!(
        ServerError::writing_to_directory().message(),
        "udpx::errors::ServerError: File exists and is a directory"
    );
    assert_eq!(
        ServerError::writing_to_symlink().message(),
        "udpx::errors::ServerError: File exists and is a symlink"
    );
    assert_eq!(
        ServerError::writing_to_symlink().source(),
        Some("File exists and is a symlink".to_string())
    );
}

#[test]
fn basic_errors_print_their_text_and_their_detail() {
    assert_eq!(
        BasicError::new(BasicErrorKind::UdpxConnectionClosed).message(),
        "Trying to read from a closed UdpxStream"
    );
    assert_eq!(
        BasicError::with_detail(BasicErrorKind::MalformedRequest, "why").message(),
        "Malformed request: why"
    );
    assert_eq!(
        BasicError::with_detail(BasicErrorKind::UnsupportedProto, "SPDY")
            .into_source()
            .message,
        "Unsupported protocol: SPDY"
    );
    let e = HttpParseError::from(&SourceError::new("bad"));
    assert_eq!(e.0, "bad");
    assert_eq!(e.message(), "udpx::errors::HttpParseError: bad");
}

#[test]
fn methods_and_protocols_are_named_in_any_case() {
    assert_eq!(Method::from("GET"), Method::GET);
    assert_eq!(Method::from("get"), Method::GET);
    assert_eq!(Method::from("pOsT"), Method::POST);
    assert_eq!(Method::from("PUT"), Method::Unsupported);
    assert_eq!(Method::from(""), Method::Unsupported);
    assert_eq!(Method::from("GETS"), Method::Unsupported);
    assert_eq!(Method::default(), Method::Unsupported);
    assert_eq!(Proto::from("HTTP/1.1"), Proto::HTTP1_1);
    assert_eq!(Proto::from("http/1.0"), Proto::HTTP1_0);
    assert_eq!(Proto::from("HTTP/2"), Proto::Unsupported);
    assert_eq!(Proto::default(), Proto::HTTP1_1);
}

#[test]
fn request_line_gives_protocol_method_and_path() {
    let mut scnr = BullshitScanner::new(b"  GET \t /hello.txt   HTTP/1.0  extra\r\nrest");
    let (proto, method, path) = parse_request_line(&mut scnr).unwrap();
    assert_eq!(proto, Proto::HTTP1_0);
    assert_eq!(method, Method::GET);
    assert_eq!(path, "/hello.txt");
    assert_eq!(scnr.next_byte().unwrap(), b'r');
}

#[test]
fn request_line_errors_name_what_is_wrong() {
    let parse = |line: &str| {
        let mut scnr = BullshitScanner::new(line.as_bytes());
        parse_request_line(&mut scnr).unwrap_err().message()
    };
    assert_eq!(
        parse("GET /\n"),
        "udpx::errors::ServerError: Malformed request: no protocol found in request line"
    );
    assert_eq!(
        parse("\n"),
        "udpx::errors::ServerError: Malformed request: no protocol found in request line"
    );
    assert_eq!(
        parse("GET / SPDY/3\n"),
        "udpx::errors::ServerError: Unsupported protocol: SPDY/3"
    );
    assert_eq!(
        parse("BREW / HTTP/1.1\n"),
        "udpx::errors::ServerError: Unsupported HTTP method: BREW"
    );
    // The protocol is looked at first.
    assert_eq!(
        parse("BREW / SPDY/3\n"),
        "udpx::errors::ServerError: Unsupported protocol: SPDY/3"
    );
    assert_eq!(parse("GET / HTTP/1.1"), "EOF");
    assert_eq!(parse(""), "EOF");
}

#[test]
fn headers_end_with_an_empty_line() {
    let mut scnr =
        BullshitScanner::new(b"Host: localhost:8080\r\n  Accept :  */* \r\nX:a:b\r\n\r\nbody");
    let headers = parse_headers(&mut scnr).unwrap();
    assert_eq!(
        headers,
        vec![
            ("Host".to_string(), "localhost:8080".to_string()),
            ("Accept".to_string(), "*/*".to_string()),
            ("X".to_string(), "a:b".to_string()),
        ]
    );
    assert_eq!(scnr.next_byte().unwrap(), b'b');
    assert_eq!(header(&headers, "Accept"), Some(&"*/*".to_string()));
    assert_eq!(header(&headers, "accept"), None);
}

#[test]
fn headers_errors_name_what_is_wrong() {
    let mut scnr = BullshitScanner::new(b"Host: x\r\n");
    let e = parse_headers(&mut scnr).unwrap_err();
    assert_eq!(e.message(), "");
    assert_eq!(
        e.source(),
        Some(
            "Malformed request: invalid request headers, headers must end with '\\r\\n'"
                .to_string()
        )
    );
    let mut scnr = BullshitScanner::new(b"Host: x\r\nnonsense\r\n\r\n");
    let e = parse_headers(&mut scnr).unwrap_err();
    assert_eq!(
        e.source(),
        Some("Malformed request: failed to parse request header 'nonsense'".to_string())
    );
}

#[test]
fn the_last_header_of_a_name_counts() {
    let headers = vec![
        ("Content-Length".to_string(), "1".to_string()),
        ("Other".to_string(), "x".to_string()),
        ("Content-Length".to_string(), "2".to_string()),
    ];
    assert_eq!(header(&headers, "Content-Length"), Some(&"2".to_string()));
    assert_eq!(header(&headers, "Missing"), None);
}

#[test]
fn numbers_are_read_in_decimal() {
    assert_eq!(parse_u64(b"0"), Some(0));
    assert_eq!(parse_u64(b"13"), Some(13));
    assert_eq!(parse_u64(b"+13"), Some(13));
    assert_eq!(parse_u64(b"007"), Some(7));
    assert_eq!(parse_u64(b"18446744073709551615"), Some(u64::MAX));
    assert_eq!(parse_u64(b"18446744073709551616"), None);
    assert_eq!(parse_u64(b""), None);
    assert_eq!(parse_u64(b"+"), None);
    assert_eq!(parse_u64(b"-1"), None);
    assert_eq!(parse_u64(b"1 "), None);
    assert_eq!(parse_u64(b"1a"), None);
    for n in [0u64, 9, 10, 99, 100, 12345, u64::MAX] {
        assert_eq!(decimal_text(n), n.to_string().into_bytes());
        assert_eq!(parse_u64(&decimal_text(n)), Some(n));
    }
}

#[test]
fn request_is_head_and_body() {
    let scnr = BullshitScanner::new(
        b"POST /up.txt HTTP/1.1\r\nContent-Length: 5\r\nHost: x\r\n\r\nHello world!",
    );
    let mut req = parse_http_request(scnr).unwrap();
    assert_eq!(req.proto, Proto::HTTP1_1);
    assert_eq!(req.method, Method::POST);
    assert_eq!(req.file, "/up.txt");
    assert_eq!(req.headers.len(), 2);
    assert_eq!(req.limit, 5);
    let mut body = Vec::new();
    assert_eq!(req.read_body(&mut body, 3), 3);
    assert_eq!(req.read_body(&mut body, 3), 2);
    assert_eq!(req.read_body(&mut body, 3), 0);
    assert_eq!(body, b"Hello");
}

#[test]
fn request_without_a_length_has_no_body() {
    let get = "GET /../../hello.txt HTTP/1.1\r\n\r\n";
    let req = parse_http_request(BullshitScanner::new(get.as_bytes())).unwrap();
    assert_eq!(req.method, Method::GET);
    assert_eq!(req.file, "/../../hello.txt");
    assert!(req.headers.is_empty());
    assert_eq!(req.limit, 0);
    let scnr = BullshitScanner::new(b"POST / HTTP/1.1\r\nContent-Length: many\r\n\r\nbody");
    assert_eq!(parse_http_request(scnr).unwrap().limit, 0);
    assert!(parse_http_request(BullshitScanner::new(b"GET /\r\n\r\n")).is_err());
    assert!(parse_http_request(BullshitScanner::new(b"GET / HTTP/1.1\r\nbad\r\n\r\n")).is_err());
}

#[test]
fn paths_are_freed_of_dots() {
    let norm = |p: &str| String::from_utf8(normalize(p.as_bytes())).unwrap();
    assert_eq!(norm("/srv/files/hello.txt"), "/srv/files/hello.txt");
    assert_eq!(norm("/srv//files/./hello.txt"), "/srv/files/hello.txt");
    assert_eq!(norm("/srv/files/../hello.txt"), "/srv/hello.txt");
    assert_eq!(norm("srv/files/"), "/srv/files");
    assert_eq!(norm(""), "/");
    assert_eq!(norm("/"), "/");
    // The first segment is never taken back.
    assert_eq!(norm("/srv/../../etc"), "/srv/etc");
    assert_eq!(norm("/../etc"), "/etc");
}

#[test]
fn files_outside_the_directory_are_not_allowed() {
    assert!(!Requested::file_not_allowed(
        "/srv/files/hello.txt",
        "/srv/files"
    ));
    assert!(!Requested::file_not_allowed("/srv/files", "/srv/files"));
    assert!(Requested::file_not_allowed(
        "/srv/files/../hello.txt",
        "/srv/files"
    ));
    assert!(Requested::file_not_allowed("/hello.txt", "/srv/files"));
    assert!(!Requested::file_not_allowed(
        "/srv/files/a/../b",
        "/srv/files"
    ));
}

#[test]
fn requests_ask_for_one_operation() {
    let dir = "/srv/files";
    let inside = || "/srv/files/hello.txt".to_string();
    assert!(matches!(
        Requested::parse(dir, inside(), Method::GET, FileKind::File),
        Requested::File(f) if f == inside()
    ));
    assert!(matches!(
        Requested::parse(dir, inside(), Method::GET, FileKind::Dir),
        Requested::Dir(f) if f == inside()
    ));
    assert!(matches!(
        Requested::parse(dir, inside(), Method::GET, FileKind::Other),
        Requested::Nothing
    ));
    assert!(matches!(
        Requested::parse(dir, inside(), Method::POST, FileKind::Other),
        Requested::Upload(f) if f == inside()
    ));
    assert!(matches!(
        Requested::parse(dir, inside(), Method::Unsupported, FileKind::File),
        Requested::Nothing
    ));
    let outside = || "/hello.txt".to_string();
    for method in [Method::GET, Method::POST, Method::Unsupported] {
        assert!(matches!(
            Requested::parse(dir, outside(), method, FileKind::File),
            Requested::NotAllowed(f) if f == outside()
        ));
    }
}

#[test]
fn content_types_follow_the_name() {
    assert_eq!(parse_mimetype("Makefile"), "text/plain");
    assert_eq!(parse_mimetype("/srv/Makefile"), "text/plain");
    assert_eq!(parse_mimetype("a.png"), "image/png");
    assert_eq!(parse_mimetype("/x/y.z/a.jpg"), "image/jpeg");
    assert_eq!(parse_mimetype("a.txt"), "text/plain");
    assert_eq!(parse_mimetype("a.js"), "application/javascript");
    assert_eq!(parse_mimetype("a.css"), "text/css");
    assert_eq!(parse_mimetype("a.xml"), "text/xml");
    assert_eq!(parse_mimetype("a.json"), "application/json");
    assert_eq!(parse_mimetype("a.b.html"), "text/html");
    assert_eq!(parse_mimetype("a.pdf"), "application/pdf");
    assert_eq!(parse_mimetype(".gitignore"), "text/plain");
    assert_eq!(parse_mimetype("Cargo.lock"), "text/plain");
    assert_eq!(parse_mimetype("README.md"), "text/markdown");
    assert_eq!(parse_mimetype("Cargo.toml"), "application/toml");
    assert_eq!(parse_mimetype("a.unknown"), "text/plain");
    assert_eq!(parse_mimetype("noextension"), "text/plain");
    assert_eq!(parse_mimetype("png"), "image/png");
    assert_eq!(parse_mimetype("a.PNG"), "text/plain");
    assert_eq!(parse_mimetype("dir.png/file"), "text/plain");
}

#[test]
fn response_head_gives_length_and_headers() {
    let headers = vec![("Content-Type".to_string(), "text/plain".to_string())];
    assert_eq!(
        String::from_utf8(response_head("200 OK", 12, &headers)).unwrap(),
        "HTTP/1.1 200 OK\r\nContent-Length: 12\r\nContent-Type: text/plain\r\n\r\n"
    );
    assert_eq!(
        String::from_utf8(response_head("201 Created", 0, &vec![])).unwrap(),
        "HTTP/1.1 201 Created\r\nContent-Length: 0\r\n\r\n"
    );
    // A header that gives the length is not doubled.
    let headers = vec![
        ("A".to_string(), "b".to_string()),
        ("Content-Length".to_string(), "7".to_string()),
    ];
    assert_eq!(
        String::from_utf8(response_head("200 OK", 12, &headers)).unwrap(),
        "HTTP/1.1 200 OK\r\nA: b\r\nContent-Length: 7\r\n\r\n"
    );
}

#[test]
fn responses_are_head_and_body() {
    assert_eq!(
        String::from_utf8(write_response("200 OK", "text/html", b"<p>hi</p>")).unwrap(),
        "HTTP/1.1 200 OK\r\nContent-Length: 9\r\nContent-Type: text/html\r\n\r\n<p>hi</p>"
    );
    let not_found = String::from_utf8(write_404("hello.txt", "./")).unwrap();
    assert!(not_found.starts_with("HTTP/1.1 404 Not Found\r\n"));
    assert!(not_found.ends_with(
        "\r\n\r\nFile 'hello.txt' could not be found on the server (directory being served is ./)\n"
    ));
    let forbidden = String::from_utf8(write_not_allowed("/hello.txt", "/srv")).unwrap();
    assert!(forbidden.contains("403 Forbidden"));
    assert!(forbidden.contains("hello.txt' is located outside the directory that is being served"));
    assert!(forbidden.ends_with("Only files in directory '/srv' may be accessed\r\n"));
    let body = "File '/hello.txt' is located outside the directory that is being served\r\n\r\nOnly files in directory '/srv' may be accessed\r\n";
    assert!(forbidden.contains(&format!("Content-Length: {}\r\n", body.len())));
    let failed = String::from_utf8(write_500("oops")).unwrap();
    assert_eq!(
        failed,
        "HTTP/1.1 500 Internal Server Error\r\nContent-Length: 4\r\nContent-Type: text/plain\r\n\r\noops"
    );
}

#[test]
fn accept_loop_stops_on_request_or_failure() {
    assert_eq!(
        accept_loop_step(Accepted::Stream, false, 500),
        LoopAction::Dispatch
    );
    assert_eq!(
        accept_loop_step(Accepted::Stream, true, 500),
        LoopAction::Dispatch
    );
    assert_eq!(
        accept_loop_step(Accepted::WouldBlock, false, 500),
        LoopAction::Pause(500)
    );
    assert_eq!(
        accept_loop_step(Accepted::WouldBlock, true, 500),
        LoopAction::Stop
    );
    assert_eq!(
        accept_loop_step(Accepted::Failed, false, 1),
        LoopAction::Stop
    );
}

#[test]
fn listing_page_links_every_file() {
    let page = template(&vec!["a.txt".to_string(), "dir/".to_string()]);
    assert!(page.starts_with("\n<!DOCTYPE html>"));
    assert!(page.ends_with("</html>\n"));
    assert!(page.contains(
        "    <a href=\"..\">../</a>\n    <a href=\"a.txt\">a.txt</a>\n    <a href=\"dir/\">dir/</a>\n\n  </p>"
    ));
    assert_eq!(
        template(&vec![]),
        format!("{}{}", HTML_BEFORE_LINKS, HTML_AFTER_LINKS)
    );
}

#[test]
fn listing_over_the_transport_is_one_name_to_a_line() {
    let nowhere = Endpoint {
        ip: [0, 0, 0, 0],
        port: 0,
    };
    let s = UdpxStream::new(nowhere, 3, 4, None, nowhere, None);
    assert_eq!(
        s.template(vec!["a".to_string(), "b/".to_string(), "c".to_string()]),
        "a\nb/\nc"
    );
    assert_eq!(s.template(vec![]), "");
    assert_eq!(s.template(vec!["only".to_string()]), "only");
    assert_eq!(
        JoinIter::join(vec!["1".to_string(), "2".to_string()], ", "),
        "1, 2"
    );
}

#[test]
fn truncate_left_cuts_the_front() {
    let mut v = vec![1, 2, 3, 4, 5];
    v.truncate_left(2);
    assert_eq!(v, vec![3, 4, 5]);
    v.truncate_left(0);
    assert_eq!(v, vec![3, 4, 5]);
    v.truncate_left(3);
    assert!(v.is_empty());
}

#[test]
fn small_things() {
    assert_eq!(udpx::random_udp_socket_addr(), "127.0.0.1:0");
    assert_eq!(udpx::LOCALHOST, "127.0.0.1");
    assert_eq!(udpx::ANY_PORT, 0);
    assert_eq!(udpx::NINE_THOUSAND, 9000);
    assert_eq!(log_level(true), "debug");
    assert_eq!(log_level(false), "info");
    assert_eq!(err_to_exit_code(&TransportError::TimedOut), 1);
    assert_eq!(udpx::util::EXIT_OKAY, 0);
}

#[test]
fn config_needs_its_directory() {
    let config = || Config {
        verbose: true,
        dir: "./".to_string(),
        port: 8080,
    };
    let ok = config().verify(true).unwrap();
    assert_eq!((ok.verbose, ok.dir.as_str(), ok.port), (true, "./", 8080));
    assert_eq!(config().verify(false).unwrap_err().0, "ConfigError");
}

#[test]
fn directories_are_listed_without_links() {
    let entries = vec![
        (EntryKind::File, "a.txt".to_string()),
        (EntryKind::Symlink, "link".to_string()),
        (EntryKind::Dir, "sub".to_string()),
        (EntryKind::Unknown, "odd".to_string()),
        (EntryKind::File, "b".to_string()),
    ];
    assert_eq!(dir_listing(&entries), vec!["a.txt", "sub/", "b"]);
    assert!(dir_listing(&vec![]).is_empty());
}

#[test]
fn uploads_spare_directories_and_links() {
    assert!(check_upload(EntryKind::File).is_ok());
    assert!(check_upload(EntryKind::Unknown).is_ok());
    assert_eq!(
        check_upload(EntryKind::Dir).unwrap_err().message(),
        "udpx::errors::ServerError: File exists and is a directory"
    );
    assert_eq!(
        check_upload(EntryKind::Symlink).unwrap_err().message(),
        "udpx::errors::ServerError: File exists and is a symlink"
    );
}

#[test]
fn a_file_is_sent_under_its_own_name() {
    assert_eq!(
        String::from_utf8(write_file("/srv/files/hello!.txt", 13)).unwrap(),
        "HTTP/1.1 200 OK\r\nContent-Length: 13\r\nContent-Type: text/plain\r\nContent-Disposition: attachment; filename=\"hello!.txt\"\r\n\r\n"
    );
    assert!(String::from_utf8(write_file("pic.png", 0))
        .unwrap()
        .contains("Content-Type: image/png\r\nContent-Disposition: attachment; filename=\"pic.png\""));
}

/// A file server whose files live in a table: it answers one request as the
/// real server does, with the table in place of the disk.
fn answer(dir: &str, files: &mut Vec<(String, Vec<u8>)>, request: &[u8]) -> Vec<u8> {
    let mut req = match parse_http_request(BullshitScanner::new(request)) {
        Ok(req) => req,
        Err(e) => return write_500(&e.message()),
    };
    let filename = req.file.clone();
    let file = String::from_utf8(normalize(
        format!("{}/{}", dir, req.file.trim_start_matches('/')).as_bytes(),
    ))
    .unwrap();
    let joined = format!("{}/{}", dir, req.file.trim_start_matches('/'));
    let kind = if files.iter().any(|(name, _)| *name == file) {
        FileKind::File
    } else if file == dir {
        FileKind::Dir
    } else {
        FileKind::Other
    };
    match Requested::parse(dir, joined, req.method, kind) {
        Requested::Dir(_) => {
            let entries = files
                .iter()
                .map(|(name, _)| {
                    (
                        EntryKind::File,
                        name.trim_start_matches(dir).trim_start_matches('/').to_string(),
                    )
                })
                .collect();
            write_response(
                "200 OK",
                "text/html",
                template(&dir_listing(&entries)).as_bytes(),
            )
        }
        Requested::File(_) => {
            let contents = &files.iter().find(|(name, _)| *name == file).unwrap().1;
            let mut out = write_file(&file, contents.len() as u64);
            out.extend_from_slice(contents);
            out
        }
        Requested::Upload(_) => {
            let mut body = Vec::new();
            while req.read_body(&mut body, 1024) > 0 {}
            files.retain(|(name, _)| *name != file);
            files.push((file, body));
            response_head(
                "201 Created",
                0,
                &vec![("Content-Type".to_string(), "".to_string())],
            )
        }
        Requested::Nothing => write_404(&filename, dir),
        Requested::NotAllowed(f) => write_not_allowed(&f, dir),
    }
}

fn status_and_body(response: &[u8]) -> (u16, String) {
    let text = String::from_utf8(response.to_vec()).unwrap();
    let (head, body) = text.split_once("\r\n\r\n").unwrap();
    let status = head.split(' ').nth(1).unwrap().parse().unwrap();
    (status, body.to_string())
}

#[test]
fn httpfs_test_simple_get() {
    let contents = "Hello world!\n";
    let mut files = vec![("/srv/hello!.txt".to_string(), contents.as_bytes().to_vec())];
    let got = answer("/srv", &mut files, b"GET /hello!.txt HTTP/1.1\r\n\r\n");
    assert_eq!((200, contents.to_string()), status_and_body(&got));
}

#[test]
fn httpfs_test_simple_post() {
    let contents = "Hello world!\n";
    let mut files = vec![("/srv/hello.txt".to_string(), vec![])];
    let request = format!(
        "POST /hello.txt HTTP/1.1\r\nContent-Length: {}\r\n\r\n{}",
        contents.len(),
        contents
    );
    let posted = answer("/srv", &mut files, request.as_bytes());

    // Check that the file was uploaded properly
    assert_eq!(status_and_body(&posted).0, 201);

    // Check the contents of the file
    let got = answer("/srv", &mut files, b"GET /hello.txt HTTP/1.1\r\n\r\n");
    assert_eq!(contents, &status_and_body(&got).1);
}

#[test]
fn httpfs_test_not_found() {
    let mut files = vec![];
    let got = answer("/srv", &mut files, b"GET /hello.txt HTTP/1.1\r\n\r\n");
    assert_eq!(status_and_body(&got).0, 404);
}

#[test]
fn httpfs_test_forbidden() {
    let mut files = vec![("/srv/hello.txt".to_string(), vec![])];
    let got = answer(
        "/srv/files",
        &mut files,
        b"GET /../../hello.txt HTTP/1.1\r\n\r\n",
    );
    let response = String::from_utf8(got).unwrap();
    assert!(response.contains("403 Forbidden"));
    assert!(
        response.contains("hello.txt' is located outside the directory that is being served")
    );
}

#[test]
fn httpfs_test_multiple_clients_get_same_file() {
    let contents = "Hello world\n";
    let mut files = vec![("/srv/hello.txt".to_string(), contents.as_bytes().to_vec())];
    for i in 0..25 {
        let got = answer("/srv", &mut files, b"GET /hello.txt HTTP/1.1\r\n\r\n");
        let (status, body) = status_and_body(&got);
        assert_eq!(status, 200, "Got an error on request {}: {}", i, body);
        assert_eq!(body, contents);
    }
}

#[test]
fn head_length_tells_when_the_head_is_whole() {
    let request = b"GET / HTTP/1.1\r\nHost: x\r\n\r\nbody";
    for n in 0..request.len() {
        let expected = if n >= 27 { Some(27) } else { None };
        assert_eq!(head_length(&request[..n]), expected, "after {} bytes", n);
    }
    assert_eq!(head_length(b"GET / HTTP/1.1\n\n"), Some(16));
    assert_eq!(head_length(b"\r\n\r\n"), Some(4));
    assert_eq!(head_length(b"\n"), None);
    assert_eq!(head_length(b""), None);
}

#[test]
fn httpfs_test_multiple_clients_reading_and_writing_same_file() {
    let mut files = vec![("/srv/hello.txt".to_string(), b"Hello world\n".to_vec())];
    for i in 0..25 {
        let (status, body) = if i % 2 == 0 {
            status_and_body(&answer(
                "/srv",
                &mut files,
                b"GET /hello.txt HTTP/1.1\r\n\r\n",
            ))
        } else {
            let contents = format!("From thread {}", i);
            let request = format!(
                "POST /hello.txt HTTP/1.1\r\nContent-Length: {}\r\n\r\n{}",
                contents.len(),
                contents
            );
            status_and_body(&answer("/srv", &mut files, request.as_bytes()))
        };
        assert!(
            status == 200 || status == 201,
            "Expected status 200 or 201 but got {}",
            status
        );
        if status == 200 && i > 0 {
            assert!(body.starts_with("From thread"), "Body: {}", body);
        }
    }
}

#[test]
fn filling_the_buffer_hands_nothing_out() {
    let mut scnr = BullshitScanner::with_capacity(b"abc\ndef", 64);
    scnr.load_empty();
    scnr.load_empty();
    assert!(!scnr.cannot_read_anymore());
    assert_eq!(scnr.next_line().unwrap(), ("abc".to_string(), 4));
    scnr.load_empty();
    let mut rest = Vec::new();
    assert_eq!(scnr.read(&mut rest, 10), 3);
    assert_eq!(rest, b"def");

    let mut scnr = BullshitScanner::new(b"");
    assert!(!scnr.cannot_read_anymore());
    scnr.load_empty();
    assert!(scnr.cannot_read_anymore());
    scnr.load_empty();
    assert_eq!(scnr.next_byte().unwrap_err().message(), "EOF");
}

/// The words of a text, as the library cuts them.
fn words(text: &str) -> Vec<String> {
    let b = text.as_bytes();
    let mut out = Vec::new();
    let mut from = 0;
    while let Some((s, e)) = next_word(b, from) {
        out.push(String::from_utf8(b[s..e].to_vec()).unwrap());
        from = e;
    }
    out
}

#[test]
fn white_space_is_what_the_standard_library_takes_for_it() {
    // Every character of one, two and three bytes.
    for code in 0u32..0x1_0000 {
        let Some(c) = char::from_u32(code) else {
            continue;
        };
        let text = c.to_string();
        let expected = if c.is_whitespace() { text.len() } else { 0 };
        assert_eq!(space_len(text.as_bytes(), 0), expected, "U+{:04X}", code);
        let framed = format!("a{}b", c);
        assert_eq!(space_len(framed.as_bytes(), 1), expected, "U+{:04X}", code);
        assert_eq!(
            words(&framed),
            framed.split_whitespace().collect::<Vec<_>>(),
            "U+{:04X}",
            code
        );
        let padded = format!("{}x{}y{}{}", c, c, c, c);
        assert_eq!(
            String::from_utf8(trim_all(padded.as_bytes())).unwrap(),
            padded.trim(),
            "U+{:04X}",
            code
        );
    }
    // A form that is cut short is no white space.
    assert_eq!(space_len(&[0xE2, 0x80], 0), 0);
    assert_eq!(space_len(&[0xC2], 0), 0);
    assert_eq!(space_len(b"", 0), 0);
    assert_eq!(space_len(b" ", 1), 0);
}

#[test]
fn words_and_headers_are_cut_at_any_white_space() {
    let line = "GET\u{00A0}/hello.txt\u{3000}\u{2003} HTTP/1.1\u{0085}\r\nrest";
    let mut scnr = BullshitScanner::new(line.as_bytes());
    let (proto, method, path) = parse_request_line(&mut scnr).unwrap();
    assert_eq!(
        (proto, method, path.as_str()),
        (Proto::HTTP1_1, Method::GET, "/hello.txt")
    );
    let head = "\u{2028}Name\u{205F}: \u{1680}va lue\u{202F}\t\r\n\r\n";
    let mut scnr = BullshitScanner::new(head.as_bytes());
    assert_eq!(
        parse_headers(&mut scnr).unwrap(),
        vec![("Name".to_string(), "va lue".to_string())]
    );
    // A zero-width space is no white space.
    assert_eq!(words("a\u{200B}b c"), vec!["a\u{200B}b", "c"]);
    assert_eq!(trim(b"xx  ab  yy", 2, 8), b"ab");
    assert_eq!(trim_all("\u{3000}".as_bytes()), b"");
    assert_eq!(trim_all(b""), b"");
}
