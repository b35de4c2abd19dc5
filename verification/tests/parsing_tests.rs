use meowping::cli::Arguments;
use meowping::colors::HyperLink;
use meowping::http::{
    build_request, classify_status, extract_asn_from_response, parse_http_body,
    parse_http_status, simplify_http_error,
};
use meowping::parser::{dedup_destinations, parse_multiple_destinations, Extracted, Parser};

#[test]
fn url_parse_full_form() {
    let p = Parser::parse("https://example.com:8080/a/b?c=1").unwrap();
    assert_eq!(p.scheme, "https");
    assert_eq!(p.host, "example.com");
    assert_eq!(p.port, Some(8080));
    assert_eq!(p.path, "/a/b?c=1");
}

#[test]
fn url_parse_defaults_path_to_slash() {
    let p = Parser::parse("http://example.com").unwrap();
    assert_eq!(p.scheme, "http");
    assert_eq!(p.host, "example.com");
    assert_eq!(p.port, None);
    assert_eq!(p.path, "/");
}

#[test]
fn url_parse_drops_unusable_port() {
    let p = Parser::parse("http://example.com:notaport/x").unwrap();
    assert_eq!(p.host, "example.com");
    assert_eq!(p.port, None);
    let q = Parser::parse("http://example.com:99999/x").unwrap();
    assert_eq!(q.port, None);
}

#[test]
fn url_parse_requires_scheme() {
    assert_eq!(Parser::parse("example.com/x").err(), Some("Missing scheme"));
}

#[test]
fn url_parse_requires_host() {
    assert_eq!(Parser::parse("http:///x").err(), Some("Invalid host"));
    assert_eq!(Parser::parse("http://:80/x").err(), Some("Invalid host"));
}

#[test]
fn extract_url_hands_back_the_host() {
    match Parser::extract_url("https://ping.example.org/deep/path") {
        Extracted::Success(host) => assert_eq!(host, "ping.example.org"),
        Extracted::Error => panic!("expected a host"),
    }
    assert!(matches!(Parser::extract_url("no-scheme"), Extracted::Error));
}

#[test]
fn hyperlink_rebuilds_the_link() {
    let h = HyperLink::new("meowping", "https://github.com/example/meowping").unwrap();
    assert_eq!(h.text(), "meowping");
    assert_eq!(h.link(), "https://github.com/example/meowping");
}

#[test]
fn hyperlink_sheds_the_port() {
    let h = HyperLink::new("x", "http://example.com:8080/p").unwrap();
    assert_eq!(h.link(), "http://example.com/p");
}

#[test]
fn hyperlink_rejects_bad_urls() {
    assert_eq!(
        HyperLink::new("x", "not a url").err().unwrap(),
        "Invalid URL"
    );
}

fn args_of(list: &[&str]) -> Arguments {
    Arguments::new(list.iter().map(|s| s.to_string()).collect())
}

#[test]
fn contains_finds_flags_plain_and_with_values() {
    let args = args_of(&["dest", "-m", "--timeout=500"]);
    assert!(args.contains(&["-m", "--minimal"]));
    assert!(args.contains(&["-t", "--timeout"]));
    assert!(!args.contains(&["-p", "--port"]));
}

#[test]
fn free_from_str_takes_the_first_positional() {
    let mut args = args_of(&["-m", "8.8.8.8", "-t"]);
    assert_eq!(args.free_from_str(), Ok("8.8.8.8".to_string()));
    assert_eq!(args.args, vec!["-m".to_string(), "-t".to_string()]);
    let mut none = args_of(&["-m", "--x"]);
    assert_eq!(
        none.free_from_str(),
        Err("Missing positional argument".to_string())
    );
}

#[test]
fn opt_value_from_str_reads_equals_form() {
    let mut args = args_of(&["dest", "--timeout=500"]);
    assert_eq!(
        args.opt_value_from_str(&["-t", "--timeout"]),
        Ok(Some("500".to_string()))
    );
    assert_eq!(args.args, vec!["dest".to_string()]);
}

#[test]
fn opt_value_from_str_reads_two_token_form() {
    let mut args = args_of(&["-t", "750", "dest"]);
    assert_eq!(
        args.opt_value_from_str(&["-t", "--timeout"]),
        Ok(Some("750".to_string()))
    );
    assert_eq!(args.args, vec!["dest".to_string()]);
}

#[test]
fn opt_value_from_str_absent_option_is_none() {
    let mut args = args_of(&["dest", "-m"]);
    assert_eq!(args.opt_value_from_str(&["-t", "--timeout"]), Ok(None));
    assert_eq!(args.args, vec!["dest".to_string(), "-m".to_string()]);
}

#[test]
fn opt_value_from_str_trailing_option_misses_its_value() {
    let mut args = args_of(&["dest", "-t"]);
    assert_eq!(
        args.opt_value_from_str(&["-t", "--timeout"]),
        Err("Missing value for option -t".to_string())
    );
}

#[test]
fn http_status_is_read_from_the_first_line() {
    assert_eq!(
        parse_http_status(b"HTTP/1.1 200 OK\r\nServer: x\r\n\r\nbody"),
        Ok(200)
    );
    assert_eq!(parse_http_status(b"HTTP/1.0 404 Not Found\n"), Ok(404));
    assert_eq!(
        parse_http_status(b"garbage"),
        Err("Failed to parse status code")
    );
    assert_eq!(
        parse_http_status(b"HTTP/1.1 20x OK\r\n"),
        Err("Failed to parse status code")
    );
}

#[test]
fn http_body_follows_the_blank_line() {
    assert_eq!(
        parse_http_body(b"HTTP/1.1 200 OK\r\nA: b\r\n\r\nhello"),
        Ok(b"hello".to_vec())
    );
    assert_eq!(
        parse_http_body(b"HTTP/1.1 200 OK\r\nA: b\r\n"),
        Err("No response body")
    );
}

#[test]
fn request_names_host_and_path() {
    let req = build_request("example.com", "/status");
    assert!(req.starts_with("GET /status HTTP/1.1\r\nHost: example.com\r\n"));
    assert!(req.ends_with("Connection: close\r\n\r\n"));
}

#[test]
fn status_classes_cover_all_codes() {
    assert_eq!(classify_status(200), ("online", true));
    assert_eq!(classify_status(399), ("online", true));
    assert_eq!(classify_status(404), ("online (client error)", true));
    assert_eq!(classify_status(503), ("offline (server error)", false));
    assert_eq!(classify_status(100), ("unknown status", true));
    assert_eq!(classify_status(700), ("unknown status", true));
}

#[test]
fn transport_errors_are_simplified() {
    assert_eq!(
        simplify_http_error("failed to lookup address information: no such host"),
        "Failed to resolve host"
    );
    assert_eq!(
        simplify_http_error("connection timed out after 5s"),
        "Connection timed out"
    );
    assert_eq!(
        simplify_http_error("Connection refused (os error 111)"),
        "Connection refused"
    );
    assert_eq!(simplify_http_error("something else"), "something else");
}

#[test]
fn asn_is_read_from_metadata_text() {
    let reply = "{\"ip\": \"8.8.8.8\", \"org\": \"AS15169 Google LLC\", \"city\": \"x\"}";
    assert_eq!(extract_asn_from_response(reply), "AS15169 Google LLC");
    assert_eq!(extract_asn_from_response("{}"), "Unknown ASN");
    // With no quoted value after the key, the search for the value's
    // opening quote restarts at the beginning of the text.
    assert_eq!(extract_asn_from_response("{\"org\": nothing"), "{");
}

#[test]
fn destinations_split_on_commas_and_brackets() {
    assert_eq!(
        parse_multiple_destinations("[a.com, b.com , ]"),
        vec!["a.com".to_string(), "b.com".to_string()]
    );
    assert_eq!(
        parse_multiple_destinations("a.com,b.com"),
        vec!["a.com".to_string(), "b.com".to_string()]
    );
    assert_eq!(
        parse_multiple_destinations("  single.example  "),
        vec!["single.example".to_string()]
    );
    assert_eq!(parse_multiple_destinations(""), vec!["".to_string()]);
}

#[test]
fn duplicate_destinations_keep_first_appearance() {
    let list = vec![
        "a".to_string(),
        "b".to_string(),
        "a".to_string(),
        "c".to_string(),
        "b".to_string(),
    ];
    assert_eq!(
        dedup_destinations(&list),
        vec!["a".to_string(), "b".to_string(), "c".to_string()]
    );
}
