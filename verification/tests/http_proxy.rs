use quic_proxy::stream_handler::http_proxy::{
    authenticate, credentials_from_decoded, decode_credentials, has_request_line_fields, serialize_headers,
    AuthConfig, ForwardError, HeadError, HeadStep, HttpProxy, HttpRequest, HttpRequestLine, ProxyAction,
    RequestHeadParser, auth_required, connection_established, forward_request,
};
use quic_proxy::url_parts::UrlParts;

fn read_head(lines: &[&str], then_eof: bool) -> Result<HttpRequest, HeadError> {
    let mut parser = RequestHeadParser::new();
    for line in lines {
        match parser.feed(Some(line.to_string()))? {
            HeadStep::Continue(next) => parser = next,
            HeadStep::Complete(request) => return Ok(request),
        }
    }
    if then_eof {
        match parser.feed(None)? {
            HeadStep::Continue(_) => panic!("the end of the stream completes the head"),
            HeadStep::Complete(request) => Ok(request),
        }
    } else {
        panic!("the head did not complete")
    }
}

fn request(method: &str, uri: &str, auth: Option<(&str, &str)>, headers: &[(&str, &str)]) -> HttpRequest {
    HttpRequest {
        request_line: HttpRequestLine {
            method: method.to_string(),
            uri: uri.to_string(),
            version: "HTTP/1.1".to_string(),
        },
        auth: auth.map(|(u, p)| (u.to_string(), p.to_string())),
        headers: headers.iter().map(|(k, v)| (k.to_string(), v.to_string())).collect(),
    }
}

#[test]
fn auth_config_verifies_both_fields() {
    let config = AuthConfig::new("alice", "secret");
    assert!(config.verify("alice", "secret"));
    assert!(!config.verify("alice", "Secret"));
    assert!(!config.verify("bob", "secret"));
    assert!(!config.verify("", ""));
}

#[test]
fn authenticate_cases() {
    let config = AuthConfig::new("alice", "secret");
    let with = request("GET", "http://a/", Some(("alice", "secret")), &[]);
    let wrong = request("GET", "http://a/", Some(("alice", "nope")), &[]);
    let without = request("GET", "http://a/", None, &[]);
    assert!(authenticate(Some(&config), &with));
    assert!(!authenticate(Some(&config), &wrong));
    assert!(!authenticate(Some(&config), &without));
    assert!(authenticate(None, &with));
    assert!(authenticate(None, &without));
}

#[test]
fn request_line_fields() {
    let line = HttpRequestLine::parse("GET http://example.com/index.html HTTP/1.1".to_string());
    assert_eq!(line.method, "GET");
    assert_eq!(line.uri, "http://example.com/index.html");
    assert_eq!(line.version, "HTTP/1.1");

    let line = HttpRequestLine::parse("CONNECT example.com:443 HTTP/1.1 trailing words".to_string());
    assert_eq!(line.method, "CONNECT");
    assert_eq!(line.uri, "example.com:443");
    assert_eq!(line.version, "HTTP/1.1");

    let line = HttpRequestLine::parse("A  B".to_string());
    assert_eq!(line.method, "A");
    assert_eq!(line.uri, "");
    assert_eq!(line.version, "B");

    assert!(has_request_line_fields("GET / HTTP/1.0"));
    assert!(!has_request_line_fields("GET /"));
    assert!(!has_request_line_fields(""));
}

#[test]
fn request_line_round_trip_example() {
    let text = format!("{} {} {}", "PUT", "http://h/x?y=1", "HTTP/1.0");
    let line = HttpRequestLine::parse(text);
    assert_eq!((line.method.as_str(), line.uri.as_str(), line.version.as_str()), ("PUT", "http://h/x?y=1", "HTTP/1.0"));
}

#[test]
fn headers_are_serialized_as_a_block() {
    let headers = vec![("Host".to_string(), "example.com".to_string()), ("Accept".to_string(), "*/*".to_string())];
    assert_eq!(serialize_headers(&headers), "Host: example.com\r\nAccept: */*\r\n\r\n");
    assert_eq!(serialize_headers(&Vec::new()), "\r\n\r\n");
    let one = vec![("X".to_string(), "".to_string())];
    assert_eq!(serialize_headers(&one), "X: \r\n\r\n");
}

#[test]
fn reads_a_head_with_credentials() {
    let request = read_head(
        &[
            "GET http://example.com/ HTTP/1.1",
            "Host: example.com",
            "Proxy-Authorization: Basic dXNlcjpwYXNz",
            "User-Agent: test: yes",
            "",
        ],
        false,
    )
    .unwrap();
    assert_eq!(request.request_line.method, "GET");
    assert_eq!(request.request_line.uri, "http://example.com/");
    assert_eq!(request.request_line.version, "HTTP/1.1");
    assert_eq!(request.auth, Some(("user".to_string(), "pass".to_string())));
    assert_eq!(
        request.headers,
        vec![
            ("Host".to_string(), "example.com".to_string()),
            ("User-Agent".to_string(), "test: yes".to_string()),
        ]
    );
}

#[test]
fn forwarded_headers_keep_client_lines() {
    let lines = ["Host: example.com", "pRoXy-AUTHORIZATION: Basic dXNlcjpwYXNz", "Accept: text/html", "X-Empty: "];
    let mut all = vec!["GET http://example.com/ HTTP/1.1"];
    all.extend_from_slice(&lines);
    let request = read_head(&all, true).unwrap();
    assert_eq!(serialize_headers(&request.headers), "Host: example.com\r\nAccept: text/html\r\nX-Empty: \r\n\r\n");
    assert_eq!(request.auth, Some(("user".to_string(), "pass".to_string())));
}

#[test]
fn last_credentials_win() {
    let request = read_head(
        &[
            "GET http://a/ HTTP/1.1",
            "Proxy-Authorization: Basic dXNlcjpwYXNz",
            "Proxy-Authorization: Basic YTpiOmM=",
        ],
        true,
    )
    .unwrap();
    assert_eq!(request.auth, Some(("a".to_string(), "b:c".to_string())));
    assert!(request.headers.is_empty());
}

#[test]
fn head_errors() {
    assert_eq!(RequestHeadParser::new().feed(None).err(), Some(HeadError::MissingRequestLine));
    assert_eq!(read_head(&["GET /"], true).err(), Some(HeadError::MalformedRequestLine));
    assert_eq!(read_head(&[""], true).err(), Some(HeadError::MalformedRequestLine));
    assert_eq!(read_head(&["GET / HTTP/1.1", "Host:example.com"], true).err(), Some(HeadError::MalformedHeader));
    assert_eq!(
        read_head(&["GET / HTTP/1.1", "Proxy-Authorization: Basic"], true).err(),
        Some(HeadError::MalformedAuthorization)
    );
    assert_eq!(
        read_head(&["GET / HTTP/1.1", "Proxy-Authorization: Basic !!!!"], true).err(),
        Some(HeadError::InvalidBase64)
    );
    assert_eq!(
        read_head(&["GET / HTTP/1.1", "Proxy-Authorization: Basic dXNlcjpwYXNz="], true).err(),
        Some(HeadError::InvalidBase64)
    );
    assert_eq!(
        read_head(&["GET / HTTP/1.1", "Proxy-Authorization: Basic __4="], true).err(),
        Some(HeadError::InvalidUtf8)
    );
    assert_eq!(
        read_head(&["GET / HTTP/1.1", "Proxy-Authorization: Basic bm9jb2xvbg=="], true).err(),
        Some(HeadError::MalformedCredentials)
    );
    assert!(!HeadError::MissingRequestLine.is_malformed());
    assert!(!HeadError::InvalidBase64.is_malformed());
    assert!(!HeadError::InvalidUtf8.is_malformed());
    assert!(HeadError::MalformedRequestLine.is_malformed());
    assert!(HeadError::MalformedHeader.is_malformed());
    assert!(HeadError::MalformedAuthorization.is_malformed());
    assert!(HeadError::MalformedCredentials.is_malformed());
}

#[test]
fn head_ends_at_the_end_of_the_stream() {
    let request = read_head(&["GET http://a/ HTTP/1.1", "A: b"], true).unwrap();
    assert_eq!(request.headers, vec![("A".to_string(), "b".to_string())]);
    assert_eq!(request.auth, None);
}

#[test]
fn credentials_use_the_url_safe_alphabet() {
    assert_eq!(decode_credentials("Basic w6k6cD8-"), Ok(("\u{e9}".to_string(), "p?>".to_string())));
    assert_eq!(decode_credentials("Basic dXNlcjpwYXNz"), Ok(("user".to_string(), "pass".to_string())));
    assert_eq!(decode_credentials("Basic w6k6cD8+"), Err(HeadError::InvalidBase64));
    assert_eq!(decode_credentials("Basic"), Err(HeadError::MalformedAuthorization));
    assert_eq!(decode_credentials("Bearer  dXNlcjpwYXNz"), Err(HeadError::InvalidBase64));
}

#[test]
fn credentials_from_decoded_bytes() {
    assert_eq!(credentials_from_decoded(None), Err(HeadError::InvalidBase64));
    assert_eq!(credentials_from_decoded(Some(vec![0xff])), Err(HeadError::InvalidUtf8));
    assert_eq!(credentials_from_decoded(Some(b"nocolon".to_vec())), Err(HeadError::MalformedCredentials));
    assert_eq!(credentials_from_decoded(Some(b":".to_vec())), Ok((String::new(), String::new())));
    assert_eq!(credentials_from_decoded(Some(b"u:p:q".to_vec())), Ok(("u".to_string(), "p:q".to_string())));
}

#[test]
fn responses() {
    assert_eq!(
        auth_required(),
        "HTTP/1.1 407 Proxy Authentication Required\r\nProxy-Authenticate: Basic realm=\"QUIC Proxy\"\r\n\r\n"
    );
    assert_eq!(connection_established(), "HTTP/1.1 200 Connection Established\r\n\r\n");
}

#[test]
fn plan_rejects_bad_credentials() {
    let proxy = HttpProxy::new(Some(AuthConfig::new("alice", "secret")));
    match proxy.plan(&request("GET", "http://a/", None, &[])).unwrap() {
        ProxyAction::Reject { response } => assert_eq!(response, auth_required()),
        _ => panic!("expected a rejection"),
    }
    match proxy.plan(&request("CONNECT", "a:443", Some(("alice", "x")), &[])).unwrap() {
        ProxyAction::Reject { response } => assert_eq!(response, auth_required()),
        _ => panic!("expected a rejection"),
    }
    match proxy.plan(&request("CONNECT", "a:443", Some(("alice", "secret")), &[])).unwrap() {
        ProxyAction::Tunnel { target, reply } => {
            assert_eq!(target, "a:443");
            assert_eq!(reply, connection_established());
        },
        _ => panic!("expected a tunnel"),
    }
}

#[test]
fn plan_without_credentials_never_rejects() {
    let proxy = HttpProxy::new(None);
    assert!(proxy.auth_config().is_none());
    match proxy.plan(&request("CONNECT", "example.com:443", Some(("x", "y")), &[])).unwrap() {
        ProxyAction::Tunnel { target, .. } => assert_eq!(target, "example.com:443"),
        _ => panic!("expected a tunnel"),
    }
}

#[test]
fn plan_forwards_plain_requests() {
    let proxy = HttpProxy::new(None);
    let req = request("GET", "http://example.com:8080/a/b?c=d#e", None, &[("Host", "example.com"), ("Accept", "*/*")]);
    match proxy.plan(&req).unwrap() {
        ProxyAction::Forward { target, head } => {
            assert_eq!(target, "example.com:8080");
            assert_eq!(head, "GET /a/b?c=d#e HTTP/1.1\r\nHost: example.com\r\nAccept: */*\r\n\r\n");
        },
        _ => panic!("expected forwarding"),
    }
    match proxy.plan(&request("POST", "http://example.com", None, &[])).unwrap() {
        ProxyAction::Forward { target, head } => {
            assert_eq!(target, "example.com:80");
            assert_eq!(head, "POST / HTTP/1.1\r\n\r\n\r\n");
        },
        _ => panic!("expected forwarding"),
    }
    match proxy.plan(&request("GET", "https://secure.example/x", None, &[])).unwrap() {
        ProxyAction::Forward { target, .. } => assert_eq!(target, "secure.example:80"),
        _ => panic!("expected forwarding"),
    }
}

#[test]
fn plan_forward_errors() {
    let proxy = HttpProxy::new(None);
    assert_eq!(proxy.plan(&request("GET", "/relative/path", None, &[])).err(), Some(ForwardError::InvalidUri));
    assert_eq!(proxy.plan(&request("GET", "mailto:someone@example.com", None, &[])).err(), Some(ForwardError::MissingHost));
}

#[test]
fn forward_request_from_parts() {
    let req = request("HEAD", "ignored", None, &[("A", "1")]);
    let parts = UrlParts {
        scheme: "http".to_string(),
        host: Some("h".to_string()),
        port: Some(65535),
        from_path: "/p".to_string(),
    };
    assert_eq!(
        forward_request(&req, Some(parts)),
        Ok(("h:65535".to_string(), "HEAD /p HTTP/1.1\r\nA: 1\r\n\r\n".to_string()))
    );
    let no_host = UrlParts { scheme: "x".to_string(), host: None, port: None, from_path: String::new() };
    assert_eq!(forward_request(&req, Some(no_host)), Err(ForwardError::MissingHost));
    assert_eq!(forward_request(&req, None), Err(ForwardError::InvalidUri));
    let port_zero = UrlParts { scheme: "http".to_string(), host: Some("h".to_string()), port: Some(0), from_path: "".to_string() };
    assert_eq!(forward_request(&req, Some(port_zero)).unwrap().0, "h:0");
}

#[test]
fn credentials_round_trip_example() {
    let text = format!("{}:{}", "jos\u{e9}", "p:a:ss");
    assert_eq!(
        credentials_from_decoded(Some(text.into_bytes())),
        Ok(("jos\u{e9}".to_string(), "p:a:ss".to_string()))
    );
}

#[test]
fn parsed_headers_are_the_splits_of_client_lines() {
    let lines = ["Host: h", "Cookie: a=1: b=2", "Proxy-Authorization: Basic dXNlcjpwYXNz", "X:  y"];
    let mut all = vec!["GET http://h/ HTTP/1.1"];
    all.extend_from_slice(&lines);
    all.push("");
    all.push("Ignored: after the head");
    let request = read_head(&all, false).unwrap();
    let expected: Vec<(String, String)> = lines
        .iter()
        .filter_map(|l| l.split_once(": "))
        .filter(|(k, _)| k.to_lowercase() != "proxy-authorization")
        .map(|(k, v)| (k.to_string(), v.to_string()))
        .collect();
    assert_eq!(request.headers, expected);
}
