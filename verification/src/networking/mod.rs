//! Addresses and responses: what a typed address asks for, and what is
//! shown of a server's answer.
use vstd::prelude::*;
use crate::text::{
    chars_of, starts_with, starts_with_at, string_of, strip_prefix_all, strip_prefix_all_chars,
    sub_chars, take_until, take_until_chars,
};
use crate::networking::status::{is_status_line, status_line_valid, status_of, Status};

pub mod status;

verus! {

/// The certificate verifier that Gemini connections use. The program gives
/// it to the TLS library through a verifier that accepts every server
/// certificate (Gemini servers commonly present self-signed ones); it holds
/// no data of its own.
pub struct CertVerifier {}

impl CertVerifier {
    pub fn new() -> (r: Self) {
        CertVerifier {}
    }
}

/// Where an address leads.
#[derive(PartialEq, Eq, Structural, Clone, Copy, Debug)]
pub enum Scheme {
    Gemini,
    File,
    HelpScreen,
    Https,
}

/// A parsed address: its scheme, host (or path), request line and port.
#[derive(Debug)]
pub struct UrlParsed {
    scheme: Scheme,
    dns_name: String,
    request: String,
    port: String,
}

/// The parts of a parsed address.
pub struct UrlView {
    pub scheme: Scheme,
    pub name: Seq<char>,
    pub request: Seq<char>,
    pub port: Seq<char>,
}

impl View for UrlParsed {
    type V = UrlView;

    closed spec fn view(&self) -> UrlView {
        UrlView {
            scheme: self.scheme,
            name: self.dns_name@,
            request: self.request@,
            port: self.port@,
        }
    }
}

/// The port that a scheme connects to.
pub open spec fn port_of(scheme: Scheme) -> Seq<char> {
    match scheme {
        Scheme::Gemini => ":1965"@,
        _ => ":443"@,
    }
}

/// What `UrlParsed::new` makes of the address `n`.
///
/// - `file://PATH`: a file, named and requested by `PATH`;
/// - `help://`: the help screen;
/// - `https://HOST`: a web page, with an HTTP request line for `HOST`;
/// - an address without a scheme: a Gemini host, requested as
///   `gemini://ADDRESS/` followed by CRLF;
/// - `gemini://HOST/...`: a Gemini page on `HOST`, requested as the address
///   followed by `/` and CRLF.
///
/// A scheme prefix is removed as often as it repeats.
pub open spec fn url_of(n: Seq<char>) -> UrlView {
    if starts_with(n, "file://"@) {
        let name = strip_prefix_all(n, "file://"@);
        UrlView { scheme: Scheme::File, name: name, request: name, port: port_of(Scheme::File) }
    } else if n == "help://"@ {
        UrlView {
            scheme: Scheme::HelpScreen,
            name: "Help screen"@,
            request: "Never used!"@,
            port: port_of(Scheme::HelpScreen),
        }
    } else if starts_with(n, "https://"@) {
        let name = strip_prefix_all(n, "https://"@);
        UrlView {
            scheme: Scheme::Https,
            name: name,
            request: "GET / HTTP/1.1 Host: "@ + name + " Accept: text/html\r\n"@,
            port: port_of(Scheme::Https),
        }
    } else if !starts_with(n, "gemini://"@) {
        UrlView {
            scheme: Scheme::Gemini,
            name: n,
            request: "gemini://"@ + n + "/\r\n"@,
            port: port_of(Scheme::Gemini),
        }
    } else {
        UrlView {
            scheme: Scheme::Gemini,
            name: take_until(strip_prefix_all(n, "gemini://"@), '/'),
            request: n + "/\r\n"@,
            port: port_of(Scheme::Gemini),
        }
    }
}

/// A `String` holding the characters of a literal.
fn string_lit(s: &str) -> (r: String)
    ensures
        r@ == s@,
{
    String::from_str(s)
}

/// `a` followed by `b` followed by `c`.
fn concat3(a: &str, b: &str, c: &str) -> (r: String)
    ensures
        r@ == a@ + b@ + c@,
{
    let mut r = String::from_str(a);
    r.append(b);
    r.append(c);
    r
}

fn port_string(scheme: Scheme) -> (r: String)
    ensures
        r@ == port_of(scheme),
{
    match scheme {
        Scheme::Gemini => string_lit(":1965"),
        _ => string_lit(":443"),
    }
}

impl UrlParsed {
    /// Parses an address as typed or followed (see `url_of`).
    pub fn new(name: &str) -> (r: Self)
        ensures
            r@ == url_of(name@),
    {
        let n = chars_of(name);
        let file = chars_of("file://");
        let help = chars_of("help://");
        let https = chars_of("https://");
        let gemini = chars_of("gemini://");
        let scheme: Scheme;
        let edited_name: String;
        let edited_request: String;
        assert(n@.skip(0) =~= n@);
        if starts_with_at(&n, 0, &file) {
            scheme = Scheme::File;
            let rest = strip_prefix_all_chars(&n, &file);
            edited_name = string_of(&rest);
            edited_request = string_of(&rest);
        } else if n.len() == help.len() && starts_with_at(&n, 0, &help) {
            assert(n@.take(n@.len() as int) =~= n@);
            scheme = Scheme::HelpScreen;
            edited_name = string_lit("Help screen");
            edited_request = string_lit("Never used!");
        } else if starts_with_at(&n, 0, &https) {
            scheme = Scheme::Https;
            let rest = strip_prefix_all_chars(&n, &https);
            edited_name = string_of(&rest);
            edited_request = concat3("GET / HTTP/1.1 Host: ", edited_name.as_str(), " Accept: text/html\r\n");
        } else if !starts_with_at(&n, 0, &gemini) {
            scheme = Scheme::Gemini;
            edited_name = string_of(&n);
            edited_request = concat3("gemini://", name, "/\r\n");
        } else {
            scheme = Scheme::Gemini;
            let rest = strip_prefix_all_chars(&n, &gemini);
            let host = take_until_chars(&rest, '/');
            edited_name = string_of(&host);
            let mut req = string_lit(name);
            req.append("/\r\n");
            edited_request = req;
        }
        UrlParsed {
            scheme: scheme,
            dns_name: edited_name,
            request: edited_request,
            port: port_string(scheme),
        }
    }

    /// The request to send for this address.
    pub fn get_request(&self) -> (r: &str)
        ensures
            r@ == self@.request,
    {
        self.request.as_str()
    }

    /// The host (or file path) of this address.
    pub fn get_name(&self) -> (r: &str)
        ensures
            r@ == self@.name,
    {
        self.dns_name.as_str()
    }

    /// The port of this address, with its leading colon.
    pub fn get_port(&self) -> (r: &str)
        ensures
            r@ == self@.port,
    {
        self.port.as_str()
    }

    /// The scheme of this address.
    pub fn scheme(&self) -> (r: Scheme)
        ensures
            r == self@.scheme,
    {
        self.scheme
    }
}


impl UrlParsed {
    /// The web address for the host: `https://` followed by the host.
    pub fn https_address(&self) -> (r: String)
        ensures
            r@ == "https://"@ + self@.name,
    {
        let mut r = string_lit("https://");
        r.append(self.dns_name.as_str());
        r
    }

    /// The address to open a connection to: host followed by port.
    pub fn socket_address(&self) -> (r: String)
        ensures
            r@ == self@.name + self@.port,
    {
        let mut r = string_lit(self.dns_name.as_str());
        r.append(self.port.as_str());
        r
    }

    /// The host as a name that TLS can verify against, or `None` where
    /// webpki refuses it as a DNS name.
    pub fn dns_name(&self) -> (r: Option<webpki::DNSNameRef<'_>>)
        ensures
            r is Some <==> webpki_accepts_dns_name(self@.name),
            r matches Some(d) ==> dns_name_text(d) == self@.name,
            self@.name.len() == 0 || self@.name.len() > 253 ==> r is None,
            (exists|i: int| 0 <= i < self@.name.len() && !is_dns_char(self@.name[i])) ==> r is None,
    {
        dns_name_ref(self.dns_name.as_str())
    }
}

#[verifier::external_type_specification]
#[verifier::external_body]
pub struct ExDnsNameRef<'a>(webpki::DNSNameRef<'a>);

/// The text of a DNS name that webpki has accepted.
pub uninterp spec fn dns_name_text(d: webpki::DNSNameRef<'_>) -> Seq<char>;

/// Whether webpki accepts `name` as a DNS name to connect to.
pub uninterp spec fn webpki_accepts_dns_name(name: Seq<char>) -> bool;

/// A character that may stand in a DNS name that webpki accepts.
pub open spec fn is_dns_char(c: char) -> bool {
    ||| ('a' <= c && c <= 'z')
    ||| ('A' <= c && c <= 'Z')
    ||| ('0' <= c && c <= '9')
    ||| c == '-'
    ||| c == '.'
    ||| c == '_'
}

/// Calls `webpki::DNSNameRef::try_from_ascii_str`. Trusted: the result is
/// present exactly when webpki accepts the name (`webpki_accepts_dns_name`),
/// and then it holds exactly the given name's bytes, which it gives back as
/// the same text (`dns_name_text`); webpki's source refuses an empty name, a
/// name longer than 253 bytes, and a name with a byte other than an ASCII
/// letter, digit, `-`, `.` or `_`.
#[verifier::external_body]
fn dns_name_ref(name: &str) -> (r: Option<webpki::DNSNameRef<'_>>)
    ensures
        r is Some <==> webpki_accepts_dns_name(name@),
        r matches Some(d) ==> dns_name_text(d) == name@,
        name@.len() == 0 || name@.len() > 253 ==> r is None,
        (exists|i: int| 0 <= i < name@.len() && !is_dns_char(name@[i])) ==> r is None,
{
    webpki::DNSNameRef::try_from_ascii_str(name).ok()
}

/// What voca_rs's `strip_tags` makes of an HTML text.
pub uninterp spec fn tags_stripped(html: Seq<char>) -> Seq<char>;

/// Calls `voca_rs::strip::strip_tags`. Trusted: the result is
/// `tags_stripped` of the argument, and, as the crate's source shows, a text
/// without `<` comes back unchanged.
#[verifier::external_body]
fn voca_strip_tags(html: &str) -> (r: String)
    ensures
        r@ == tags_stripped(html@),
        (forall|i: int| 0 <= i < html@.len() ==> html@[i] != '<') ==> r@ == html@,
{
    voca_rs::strip::strip_tags(html)
}

/// The text shown for an HTML page: the page with its tags removed.
pub fn page_text(html: &str) -> (r: String)
    ensures
        r@ == tags_stripped(html@),
        (forall|i: int| 0 <= i < html@.len() ==> html@[i] != '<') ==> r@ == html@,
{
    voca_strip_tags(html)
}

/// Why a Gemini response cannot be shown.
#[derive(PartialEq, Eq, Structural, Clone, Copy, Debug)]
pub enum ResponseError {
    /// The response holds no line break, so no status line.
    MissingHeader,
    /// The status line is longer than an `i32` can count.
    HeaderTooLong,
    /// The status line's length in characters, taken as a byte count, ends
    /// inside a character of the response.
    SplitInsideCharacter,
    /// The status line does not begin with two digits and a space.
    MalformedStatus,
    /// The status code does not begin with 2.
    ErrorStatus,
}

/// The number of bytes that UTF-8 takes for `c`.
pub open spec fn utf8_width(c: char) -> int {
    if (c as u32) < 0x80 {
        1
    } else if (c as u32) < 0x800 {
        2
    } else if (c as u32) < 0x10000 {
        3
    } else {
        4
    }
}

/// How many leading characters of `s` take exactly `n` bytes in UTF-8, or
/// `None` when byte `n` falls inside a character or past the end.
pub open spec fn chars_spanning(s: Seq<char>, n: int) -> Option<nat>
    decreases s.len(),
{
    if n == 0 {
        Some(0)
    } else if n < 0 || s.len() == 0 {
        None
    } else {
        match chars_spanning(s.drop_first(), n - utf8_width(s[0])) {
            Some(k) => Some(k + 1),
            None => None,
        }
    }
}

/// What is shown of a Gemini response `data`: the status line is the text
/// before the first line break; as many bytes as the status line and its
/// line break have characters are cut from the front; the status line must
/// hold a two-digit code beginning with 2.
pub open spec fn response_result(data: Seq<char>) -> Result<Seq<char>, ResponseError> {
    let h = take_until(data, '\n');
    if h.len() == data.len() {
        Err(ResponseError::MissingHeader)
    } else if h.len() + 1 > i32::MAX {
        Err(ResponseError::HeaderTooLong)
    } else {
        match chars_spanning(data, h.len() + 1int) {
            None => Err(ResponseError::SplitInsideCharacter),
            Some(k) => if !is_status_line(h) {
                Err(ResponseError::MalformedStatus)
            } else if status_of(h).first != 2 {
                Err(ResponseError::ErrorStatus)
            } else {
                Ok(data.skip(k as int))
            },
        }
    }
}

fn utf8_width_of(c: char) -> (w: usize)
    ensures
        w == utf8_width(c),
{
    let v = c as u32;
    if v < 0x80 {
        1
    } else if v < 0x800 {
        2
    } else if v < 0x10000 {
        3
    } else {
        4
    }
}

/// The number of leading characters of `s` that take exactly `n` bytes.
fn chars_spanning_exec(s: &[char], n: usize) -> (r: Option<usize>)
    requires
        n <= i32::MAX,
    ensures
        match chars_spanning(s@, n as int) {
            Some(k) => r matches Some(j) && j == k,
            None => r is None,
        },
        r matches Some(k) ==> k <= s.len(),
{
    let mut i: usize = 0;
    let mut bytes: usize = 0;
    assert(s@.skip(0) =~= s@);
    while bytes < n && i < s.len()
        invariant
            i <= s.len(),
            bytes <= n + 4,
            n <= i32::MAX,
            i <= bytes,
            chars_spanning(s@, n as int) == match chars_spanning(s@.skip(i as int), n - bytes) {
                Some(k) => Some((k + i) as nat),
                None => None::<nat>,
            },
        decreases s.len() - i,
    {
        assert(s@.skip(i as int).drop_first() =~= s@.skip(i + 1));
        bytes = bytes + utf8_width_of(s[i]);
        i = i + 1;
    }
    if bytes == n {
        Some(i)
    } else {
        None
    }
}

/// The page text of a Gemini response (see `response_result`).
pub fn response_body(data: &str) -> (r: Result<String, ResponseError>)
    ensures
        match response_result(data@) {
            Ok(body) => r matches Ok(b) && b@ == body,
            Err(e) => r == Err::<String, ResponseError>(e),
        },
{
    let chars = chars_of(data);
    let header = take_until_chars(&chars, '\n');
    if header.len() == chars.len() {
        return Err(ResponseError::MissingHeader);
    }
    if header.len() >= 0x7fff_ffff {
        return Err(ResponseError::HeaderTooLong);
    }
    match chars_spanning_exec(&chars, header.len() + 1) {
        None => Err(ResponseError::SplitInsideCharacter),
        Some(k) => {
            if !status_line_valid(&header) {
                return Err(ResponseError::MalformedStatus);
            }
            let status = Status::new(string_of(&header));
            if status.is_ok() {
                let body = sub_chars(&chars, k, chars.len());
                assert(body@ =~= data@.skip(k as int));
                Ok(string_of(&body))
            } else {
                Err(ResponseError::ErrorStatus)
            }
        }
    }
}


/// The help screen's text.
pub const HELP_PAGE: &'static str = "Gremlin is a TUI client primarily for the Gemini protocol.\n\n
* Hit Alt+n to navigate to a new URL\n\n
* Hit Enter to navigate after entering the URL.\n\n
* Use the 'https://' scheme to browse the web, or the 'file://' to open a file in your local file system\n\n
* Use the arrow keys to scroll and Ctrl+k and Ctrl+l to scroll links\n\n
* Use Alt+k and Alt+l to scroll through your history.\n\n
* This menu may be accesed at any time using 'help://' from the navigation popup.\n\n
=> https://wikipedia.com Here's not a link to the Gemini homepage";

/// The help screen's text, as characters.
pub open spec fn help_text() -> Seq<char> {
    HELP_PAGE@
}

/// The help screen.
pub fn help_page() -> (r: String)
    ensures
        r@ == help_text(),
{
    String::from_str(HELP_PAGE)
}

impl UrlParsed {
    /// The page shown without loading anything: the help screen for the
    /// help address, `None` for every address that is loaded.
    pub fn builtin_page(&self) -> (r: Option<String>)
        ensures
            r is Some <==> self@.scheme == Scheme::HelpScreen,
            r matches Some(p) ==> p@ == help_text(),
    {
        match self.scheme {
            Scheme::HelpScreen => Some(help_page()),
            _ => None,
        }
    }
}

} // verus!
