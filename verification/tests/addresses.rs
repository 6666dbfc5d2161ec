use gremlin::networking::status::Status;
use gremlin::networking::{page_text, response_body, CertVerifier, ResponseError, Scheme, UrlParsed};

fn parts(u: &UrlParsed) -> (Scheme, String, String, String) {
    (u.scheme(), u.get_name().to_string(), u.get_request().to_string(), u.get_port().to_string())
}

#[test]
fn gemini_address_with_path() {
    let u = UrlParsed::new("gemini://example.org/docs/page.gmi");
    assert_eq!(
        parts(&u),
        (
            Scheme::Gemini,
            "example.org".to_string(),
            "gemini://example.org/docs/page.gmi/\r\n".to_string(),
            ":1965".to_string()
        )
    );
}

#[test]
fn bare_address_is_gemini() {
    let u = UrlParsed::new("example.org");
    assert_eq!(
        parts(&u),
        (
            Scheme::Gemini,
            "example.org".to_string(),
            "gemini://example.org/\r\n".to_string(),
            ":1965".to_string()
        )
    );
}

#[test]
fn file_address_strips_every_scheme_prefix() {
    let u = UrlParsed::new("file://file:///tmp/page.gmi");
    assert_eq!(
        parts(&u),
        (Scheme::File, "/tmp/page.gmi".to_string(), "/tmp/page.gmi".to_string(), ":443".to_string())
    );
}

#[test]
fn help_address() {
    let u = UrlParsed::new("help://");
    assert_eq!(
        parts(&u),
        (
            Scheme::HelpScreen,
            "Help screen".to_string(),
            "Never used!".to_string(),
            ":443".to_string()
        )
    );
    assert_eq!(UrlParsed::new("help://x").scheme(), Scheme::Gemini);
}

#[test]
fn https_address_builds_http_request() {
    let u = UrlParsed::new("https://wiki.example");
    assert_eq!(
        parts(&u),
        (
            Scheme::Https,
            "wiki.example".to_string(),
            "GET / HTTP/1.1 Host: wiki.example Accept: text/html\r\n".to_string(),
            ":443".to_string()
        )
    );
}

#[test]
fn gemini_host_only_and_repeated_prefix() {
    let u = UrlParsed::new("gemini://gemini://host.example");
    assert_eq!(u.get_name(), "host.example");
    assert_eq!(u.get_request(), "gemini://gemini://host.example/\r\n");
}

#[test]
fn socket_address_joins_host_and_port() {
    assert_eq!(UrlParsed::new("gemini://a.example/x").socket_address(), "a.example:1965");
    assert_eq!(UrlParsed::new("https://b.example").socket_address(), "b.example:443");
}

#[test]
fn dns_names_checked_by_webpki() {
    assert!(UrlParsed::new("gemini.circumlunar.space").dns_name().is_some());
    assert!(UrlParsed::new("gemini://").dns_name().is_none());
    assert!(UrlParsed::new("bad name.example").dns_name().is_none());
    let long = "a".repeat(254);
    assert!(UrlParsed::new(&long).dns_name().is_none());
}

#[test]
fn cert_verifier_builds() {
    let _v = CertVerifier::new();
}

#[test]
fn status_codes() {
    let ok = Status::new("20 text/gemini".to_string());
    assert!(ok.is_ok());
    let missing = Status::new("51 Not found".to_string());
    assert!(!missing.is_ok());
    let odd = Status::new("29 ".to_string());
    assert!(odd.is_ok());
}

#[test]
fn response_body_cuts_the_status_line() {
    assert_eq!(
        response_body("20 text/gemini\r\n# Hello\nworld\n"),
        Ok("# Hello\nworld\n".to_string())
    );
    assert_eq!(response_body("20 x\n"), Ok("".to_string()));
}

#[test]
fn response_body_errors() {
    assert_eq!(response_body("20 text/gemini"), Err(ResponseError::MissingHeader));
    assert_eq!(response_body(""), Err(ResponseError::MissingHeader));
    assert_eq!(response_body("2 ok\nbody"), Err(ResponseError::MalformedStatus));
    assert_eq!(response_body("20x\nbody"), Err(ResponseError::MalformedStatus));
    assert_eq!(response_body("51 Not found\nbody"), Err(ResponseError::ErrorStatus));
    assert_eq!(response_body("20 \u{e9}\u{e9}\nX"), Err(ResponseError::SplitInsideCharacter));
}

#[test]
fn response_body_cuts_bytes_not_characters() {
    // The status line "20 é" has 4 characters but 5 bytes; 5 bytes are cut,
    // which ends right after the é.
    assert_eq!(response_body("20 \u{e9}\nbody"), Ok("\nbody".to_string()));
}

#[test]
fn page_text_strips_tags() {
    assert_eq!(page_text("<span><a href=\"#\">Summer</a> is nice</span>"), "Summer is nice");
    assert_eq!(page_text("no tags at all!"), "no tags at all!");
    assert_eq!(page_text(""), "");
}

#[test]
fn help_address_shows_the_help_page() {
    let page = UrlParsed::new("help://").builtin_page().unwrap();
    assert!(page.starts_with("Gremlin is a TUI client primarily for the Gemini protocol."));
    assert_eq!(page, gremlin::networking::help_page());
    assert!(UrlParsed::new("gemini://a.example").builtin_page().is_none());
    assert!(UrlParsed::new("file:///tmp/x").builtin_page().is_none());
}

#[test]
fn history_entry_of_short_addresses() {
    // A one-character bare address keeps its request when read back from the history.
    let u = UrlParsed::new("\r");
    let entry = u.get_request().trim_end_matches("/\r\n").to_string();
    assert_eq!(UrlParsed::new(&entry).get_request(), u.get_request());
    // CR LF alone is the one exception.
    let u = UrlParsed::new("\r\n");
    let entry = u.get_request().trim_end_matches("/\r\n").to_string();
    assert_eq!(entry, "gemini:/");
    assert_ne!(UrlParsed::new(&entry).get_request(), u.get_request());
}

#[test]
fn dns_name_is_the_host_typed() {
    let u = UrlParsed::new("gemini://host-a.example/page");
    let d = u.dns_name().unwrap();
    let text: &str = d.into();
    assert_eq!(text, "host-a.example");
}

#[test]
fn https_address_of_the_host() {
    assert_eq!(UrlParsed::new("https://wiki.example").https_address(), "https://wiki.example");
    assert_eq!(UrlParsed::new("https://https://x.example/p").https_address(), "https://x.example/p");
}

#[test]
fn history_entry_keeps_the_host() {
    for s in ["gemini://h.example/a/b", "h.example", "gemini://h.example"] {
        let u = UrlParsed::new(s);
        let entry = u.get_request().trim_end_matches("/\r\n").to_string();
        let v = UrlParsed::new(&entry);
        assert_eq!(v.get_name(), u.get_name());
        assert_eq!(v.get_port(), u.get_port());
        assert_eq!(v.get_request(), u.get_request());
    }
}
