//! The API client: its configuration, error categories and exit codes, the
//! URL and response parsers of its HTTP transport, and path encoding.
use vstd::prelude::*;
use vstd::utf8::{decode_utf8, encode_utf8, valid_utf8};
use core::time::Duration;

use crate::api::{ApiProblem, ProblemKind, RouteSpec, route_manifest, route_triple, routes_spec};
use crate::text::{
    blank, decimal, decimal_text, is_blank, is_space, is_space_char, push_char, push_str, strip_trailing,
    trim_end_char, trim_start,
};

verus! {

#[derive(Debug, Clone, Copy, PartialEq, Eq)]
pub struct ExitCode(pub i32);

#[derive(Debug, Clone, Copy, PartialEq, Eq)]
pub enum ErrorCategory {
    Usage,
    BadRequest,
    NotFound,
    Conflict,
    Unavailable,
    Internal,
}

/// The process exit code of each error category.
pub open spec fn exit_code_of(c: ErrorCategory) -> i32 {
    match c {
        ErrorCategory::Usage => 2,
        ErrorCategory::BadRequest => 3,
        ErrorCategory::NotFound => 4,
        ErrorCategory::Conflict => 5,
        ErrorCategory::Unavailable => 6,
        ErrorCategory::Internal => 7,
    }
}

impl ErrorCategory {
    pub fn exit_code(self) -> (r: ExitCode)
        ensures
            r.0 == exit_code_of(self),
    {
        match self {
            ErrorCategory::Usage => ExitCode(2),
            ErrorCategory::BadRequest => ExitCode(3),
            ErrorCategory::NotFound => ExitCode(4),
            ErrorCategory::Conflict => ExitCode(5),
            ErrorCategory::Unavailable => ExitCode(6),
            ErrorCategory::Internal => ExitCode(7),
        }
    }
}

#[derive(Debug)]
pub enum ClientError {
    InvalidUrl(String),
    Transport(String),
    Timeout(String),
    Api(ApiProblem),
    InvalidResponse(String),
    Serialization(String),
}

/// The category of a client error.
pub open spec fn category_of(e: ClientError) -> ErrorCategory {
    match e {
        ClientError::InvalidUrl(_) => ErrorCategory::Unavailable,
        ClientError::Transport(_) => ErrorCategory::Unavailable,
        ClientError::Timeout(_) => ErrorCategory::Unavailable,
        ClientError::Api(p) => match p.kind {
            ProblemKind::BadRequest => ErrorCategory::BadRequest,
            ProblemKind::ThresholdMiss => ErrorCategory::BadRequest,
            ProblemKind::NotFound => ErrorCategory::NotFound,
            ProblemKind::Conflict => ErrorCategory::Conflict,
            ProblemKind::ServiceUnavailable => ErrorCategory::Unavailable,
            ProblemKind::Internal => ErrorCategory::Internal,
        },
        ClientError::InvalidResponse(_) => ErrorCategory::Internal,
        ClientError::Serialization(_) => ErrorCategory::Internal,
    }
}

impl ClientError {
    pub fn category(&self) -> (r: ErrorCategory)
        ensures
            r == category_of(*self),
    {
        match self {
            ClientError::InvalidUrl(_) | ClientError::Transport(_) | ClientError::Timeout(_) => {
                ErrorCategory::Unavailable
            },
            ClientError::Api(problem) => match problem.kind {
                ProblemKind::BadRequest | ProblemKind::ThresholdMiss => ErrorCategory::BadRequest,
                ProblemKind::NotFound => ErrorCategory::NotFound,
                ProblemKind::Conflict => ErrorCategory::Conflict,
                ProblemKind::ServiceUnavailable => ErrorCategory::Unavailable,
                ProblemKind::Internal => ErrorCategory::Internal,
            },
            ClientError::InvalidResponse(_) | ClientError::Serialization(_) => ErrorCategory::Internal,
        }
    }

    pub fn exit_code(&self) -> (r: ExitCode)
        ensures
            r.0 == exit_code_of(category_of(*self)),
    {
        self.category().exit_code()
    }

    /// The error as a message for people.
    pub fn message(&self) -> (r: String)
        ensures
            r@ == client_error_text(*self),
    {
        let (prefix, detail) = match self {
            ClientError::InvalidUrl(d) => ("invalid API URL: ", d),
            ClientError::Transport(d) => ("API transport error: ", d),
            ClientError::Timeout(d) => ("API request timed out: ", d),
            ClientError::Api(p) => {
                let mut r = p.title.clone();
                push_str(&mut r, ": ");
                push_str(&mut r, p.detail.as_str());
                return r;
            },
            ClientError::InvalidResponse(d) => ("invalid API response: ", d),
            ClientError::Serialization(d) => ("serialization error: ", d),
        };
        let mut r = String::from_str(prefix);
        push_str(&mut r, detail.as_str());
        r
    }
}

/// How a client error reads.
pub open spec fn client_error_text(e: ClientError) -> Seq<char> {
    match e {
        ClientError::InvalidUrl(d) => "invalid API URL: "@ + d@,
        ClientError::Transport(d) => "API transport error: "@ + d@,
        ClientError::Timeout(d) => "API request timed out: "@ + d@,
        ClientError::Api(p) => p.title@ + ": "@ + p.detail@,
        ClientError::InvalidResponse(d) => "invalid API response: "@ + d@,
        ClientError::Serialization(d) => "serialization error: "@ + d@,
    }
}

/// The duration that `std::time::Duration::from_millis` makes of a count of
/// milliseconds.
pub uninterp spec fn millis_duration(ms: u64) -> Duration;

/// `std::time::Duration::from_millis`: the duration of `ms` milliseconds,
/// named by `millis_duration`.
#[verifier::external_body]
fn duration_from_millis(ms: u64) -> (r: Duration)
    ensures
        r == millis_duration(ms),
{
    Duration::from_millis(ms)
}

/// `Duration` is `Copy`: its clone is the same duration.
pub assume_specification[ <Duration as Clone>::clone ](d: &Duration) -> (r: Duration)
    ensures
        r == *d,
;

#[derive(Debug, Clone, PartialEq, Eq)]
pub struct ApiClientConfig {
    pub api_url: String,
    pub timeout: Duration,
}

impl ApiClientConfig {
    /// A configuration for the API at `api_url`, without trailing slashes.
    pub fn new(api_url: &str, timeout: Duration) -> (r: Self)
        ensures
            r.api_url@ == strip_trailing(api_url@, '/'),
            r.timeout == timeout,
    {
        ApiClientConfig { api_url: trim_end_char(api_url, '/'), timeout }
    }
}

impl Default for ApiClientConfig {
    /// The local API, `http://127.0.0.1:8080`, with a five-second timeout.
    fn default() -> (r: Self)
        ensures
            r.api_url@ == strip_trailing("http://127.0.0.1:8080"@, '/'),
            r.timeout == millis_duration(5_000),
    {
        ApiClientConfig::new("http://127.0.0.1:8080", duration_from_millis(5_000))
    }
}

/// The scheme the transport speaks.
pub open spec fn http_prefix() -> Seq<char> {
    seq!['h', 't', 't', 'p', ':', '/', '/']
}

/// Index of the first `c` in `s`, or -1.
pub open spec fn first_index_of(s: Seq<char>, c: char) -> int
    decreases s.len(),
{
    if s.len() == 0 {
        -1
    } else if s[0] == c {
        0
    } else {
        let k = first_index_of(s.drop_first(), c);
        if k < 0 { -1 } else { k + 1 }
    }
}

/// Index of the last `c` in `s`, or -1.
pub open spec fn last_index_of(s: Seq<char>, c: char) -> int
    decreases s.len(),
{
    if s.len() == 0 {
        -1
    } else if s.last() == c {
        s.len() - 1
    } else {
        last_index_of(s.drop_last(), c)
    }
}

/// The first index of `c` in `s` is -1 or an index of `s` that holds `c`.
pub proof fn lemma_first_index_range(s: Seq<char>, c: char)
    ensures
        -1 <= first_index_of(s, c) < s.len(),
        first_index_of(s, c) >= 0 ==> s[first_index_of(s, c)] == c,
    decreases s.len(),
{
    if s.len() > 0 && s[0] != c {
        lemma_first_index_range(s.drop_first(), c);
    }
}

/// Where the first `c` in `s` stands, given the index at which a scan stopped.
pub proof fn lemma_first_index(s: Seq<char>, c: char, k: int)
    requires
        0 <= k <= s.len(),
        forall|j: int| 0 <= j < k ==> s[j] != c,
        k < s.len() ==> s[k] == c,
    ensures
        first_index_of(s, c) == if k < s.len() { k } else { -1 },
    decreases s.len(),
{
    if s.len() > 0 && k > 0 {
        lemma_first_index(s.drop_first(), c, k - 1);
    }
}

proof fn lemma_last_index(s: Seq<char>, c: char, k: int)
    requires
        -1 <= k < s.len(),
        forall|j: int| k < j < s.len() ==> s[j] != c,
        k >= 0 ==> s[k] == c,
    ensures
        last_index_of(s, c) == k,
    decreases s.len(),
{
    if s.len() > 0 && k < s.len() - 1 {
        lemma_last_index(s.drop_last(), c, k);
    }
}

pub open spec fn is_digit(c: char) -> bool {
    '0' <= c && c <= '9'
}

/// The number that a string of decimal digits writes.
pub open spec fn digits_value(d: Seq<char>) -> nat
    decreases d.len(),
{
    if d.len() == 0 {
        0
    } else {
        digits_value(d.drop_last()) * 10 + ((d.last() as u32) - ('0' as u32)) as nat
    }
}

/// A text without its leading `+`, if it has one.
pub open spec fn unsigned_part(s: Seq<char>) -> Seq<char> {
    if s.len() > 0 && s[0] == '+' { s.drop_first() } else { s }
}

pub open spec fn all_digits(d: Seq<char>) -> bool {
    forall|i: int| 0 <= i < d.len() ==> is_digit(#[trigger] d[i])
}

/// What `str::parse::<u16>` accepts: an optional `+`, then one or more
/// decimal digits whose value fits in 16 bits.
pub open spec fn parse_u16_text(s: Seq<char>) -> Option<u16> {
    let d = unsigned_part(s);
    if d.len() > 0 && all_digits(d) && digits_value(d) <= 65535 {
        Some(digits_value(d) as u16)
    } else {
        None
    }
}

proof fn lemma_digits_value_prefix(d: Seq<char>, k: int)
    requires
        0 <= k <= d.len(),
        forall|i: int| 0 <= i < d.len() ==> is_digit(#[trigger] d[i]),
    ensures
        digits_value(d.subrange(0, k)) <= digits_value(d),
    decreases d.len(),
{
    if k < d.len() {
        assert(is_digit(d.last()));
        lemma_digits_value_prefix(d.drop_last(), k);
        assert(d.drop_last().subrange(0, k) == d.subrange(0, k));
    } else {
        assert(d.subrange(0, k) == d);
    }
}

/// `s.parse::<u16>().ok()`.
pub fn parse_u16(s: &str) -> (r: Option<u16>)
    ensures
        r == parse_u16_text(s@),
{
    let n = s.unicode_len();
    if n == 0 {
        return None;
    }
    let mut start: usize = 0;
    if s.get_char(0) == '+' {
        start = 1;
    }
    let ghost d = unsigned_part(s@);
    assert(d == s@.subrange(start as int, n as int));
    if start == n {
        return None;
    }
    let mut i: usize = start;
    let mut v: u32 = 0;
    while i < n
        invariant
            n == s@.len(),
            start <= i <= n,
            d == unsigned_part(s@),
            d == s@.subrange(start as int, n as int),
            forall|j: int| 0 <= j < i - start ==> is_digit(#[trigger] d[j]),
            v as nat == digits_value(d.subrange(0, i - start)),
            v <= 65535,
        decreases n - i,
    {
        let c = s.get_char(i);
        if !('0' <= c && c <= '9') {
            assert(d[i - start] == c);
            assert(!is_digit(d[i - start]));
            assert(!all_digits(d));
            return None;
        }
        assert(d.subrange(0, i + 1 - start).drop_last() == d.subrange(0, i - start));
        assert(d.subrange(0, i + 1 - start).last() == c);
        v = v * 10 + ((c as u32) - ('0' as u32));
        if v > 65535 {
            proof {
                if all_digits(d) {
                    lemma_digits_value_prefix(d, i + 1 - start);
                }
            }
            return None;
        }
        i = i + 1;
    }
    assert(d.subrange(0, n - start) == d);
    Some(v as u16)
}

/// Index of the first `c` in `s` at or after `from`, or `s`'s length.
fn find_char(s: &str, c: char, from: usize) -> (r: usize)
    requires
        from <= s@.len(),
    ensures
        from <= r <= s@.len(),
        forall|j: int| from <= j < r ==> s@[j] != c,
        r < s@.len() ==> s@[r as int] == c,
{
    let n = s.unicode_len();
    let mut i = from;
    while i < n && s.get_char(i) != c
        invariant
            n == s@.len(),
            from <= i <= n,
            forall|j: int| from <= j < i ==> s@[j] != c,
        decreases n - i,
    {
        i = i + 1;
    }
    i
}

/// The host, port and base path of an API URL.
#[derive(Debug, Clone, PartialEq, Eq)]
pub struct ParsedUrl {
    pub host: String,
    pub port: u16,
    pub base_path: String,
}

/// What follows the scheme.
pub open spec fn url_rest(url: Seq<char>) -> Seq<char> {
    url.skip(7)
}

/// The authority: the rest up to the first `/`.
pub open spec fn url_authority(url: Seq<char>) -> Seq<char> {
    let rest = url_rest(url);
    let i = first_index_of(rest, '/');
    if i < 0 { rest } else { rest.subrange(0, i) }
}

/// The path: from the first `/` of the rest on, or nothing.
pub open spec fn url_path(url: Seq<char>) -> Seq<char> {
    let rest = url_rest(url);
    let i = first_index_of(rest, '/');
    if i < 0 { Seq::empty() } else { rest.skip(i) }
}

/// The host: the authority up to its last `:`.
pub open spec fn url_host(url: Seq<char>) -> Seq<char> {
    let a = url_authority(url);
    let j = last_index_of(a, ':');
    if j < 0 { a } else { a.subrange(0, j) }
}

/// The port: what follows the authority's last `:`, or 80 without one.
pub open spec fn url_port(url: Seq<char>) -> Option<u16> {
    let a = url_authority(url);
    let j = last_index_of(a, ':');
    if j < 0 { Some(80u16) } else { parse_u16_text(a.skip(j + 1)) }
}

/// What an API URL parses to: host, port and base path, or the reason it
/// is refused.
pub open spec fn parsed_url(url: Seq<char>) -> Result<(Seq<char>, u16, Seq<char>), Seq<char>> {
    if !(url.len() >= 7 && url.subrange(0, 7) == http_prefix()) {
        Err("only http:// URLs are supported"@)
    } else if is_blank(url_authority(url)) {
        Err("missing host"@)
    } else {
        match url_port(url) {
            None => Err("port must be an integer"@),
            Some(port) => Ok((url_host(url), port, strip_trailing(url_path(url), '/'))),
        }
    }
}

fn has_http_prefix(url: &str) -> (r: bool)
    ensures
        r == (url@.len() >= 7 && url@.subrange(0, 7) == http_prefix()),
{
    if url.unicode_len() < 7 {
        return false;
    }
    let r = url.get_char(0) == 'h' && url.get_char(1) == 't' && url.get_char(2) == 't'
        && url.get_char(3) == 'p' && url.get_char(4) == ':' && url.get_char(5) == '/'
        && url.get_char(6) == '/';
    proof {
        if r {
            assert(url@.subrange(0, 7) =~= http_prefix());
        } else {
            if url@.subrange(0, 7) == http_prefix() {
                assert(url@.subrange(0, 7)[0] == 'h');
                assert(url@.subrange(0, 7)[1] == 't');
                assert(url@.subrange(0, 7)[2] == 't');
                assert(url@.subrange(0, 7)[3] == 'p');
                assert(url@.subrange(0, 7)[4] == ':');
                assert(url@.subrange(0, 7)[5] == '/');
                assert(url@.subrange(0, 7)[6] == '/');
            }
        }
    }
    r
}

/// Splits an `http://host[:port][/base]` URL.
pub fn parse_http_url(url: &str) -> (r: Result<ParsedUrl, ClientError>)
    ensures
        match parsed_url(url@) {
            Ok((host, port, base)) => r matches Ok(p) && p.host@ == host && p.port == port
                && p.base_path@ == base,
            Err(m) => r matches Err(ClientError::InvalidUrl(e)) && e@ == m,
        },
{
    if !has_http_prefix(url) {
        return Err(ClientError::InvalidUrl(String::from_str("only http:// URLs are supported")));
    }
    let n = url.unicode_len();
    let slash = find_char(url, '/', 7);
    let ghost rest = url_rest(url@);
    proof {
        assert forall|j: int| 0 <= j < slash - 7 implies rest[j] != '/' by {
            assert(rest[j] == url@[j + 7]);
        }
        if slash < n {
            assert(rest[slash - 7] == url@[slash as int]);
        }
        lemma_first_index(rest, '/', slash - 7);
    }
    let authority = url.substring_char(7, slash);
    assert(authority@ == url_authority(url@));
    if blank(authority) {
        return Err(ClientError::InvalidUrl(String::from_str("missing host")));
    }
    let path = url.substring_char(slash, n);
    assert(path@ == url_path(url@));
    let m = authority.unicode_len();
    let mut j: usize = m;
    while j > 0 && authority.get_char(j - 1) != ':'
        invariant
            m == authority@.len(),
            j <= m,
            forall|k: int| j <= k < m ==> authority@[k] != ':',
        decreases j,
    {
        j = j - 1;
    }
    proof {
        lemma_last_index(authority@, ':', j - 1);
    }
    let host;
    let port;
    if j == 0 {
        host = String::from_str(authority);
        port = 80u16;
    } else {
        host = String::from_str(authority.substring_char(0, j - 1));
        match parse_u16(authority.substring_char(j, m)) {
            Some(p) => {
                port = p;
            },
            None => {
                return Err(ClientError::InvalidUrl(String::from_str("port must be an integer")));
            },
        }
    }
    let base_path = trim_end_char(path, '/');
    Ok(ParsedUrl { host, port, base_path })
}

/// The status and body of an HTTP response.
#[derive(Debug, Clone)]
pub struct RawResponse {
    pub status: u16,
    pub body: Vec<u8>,
}

/// The blank line that ends the headers starts at `i`.
pub open spec fn marker_at(r: Seq<u8>, i: int) -> bool {
    0 <= i && i + 4 <= r.len() && r[i] == 13 && r[i + 1] == 10 && r[i + 2] == 13 && r[i + 3] == 10
}

/// Index of the first header terminator at or after `i`, or -1.
pub open spec fn first_marker_from(r: Seq<u8>, i: int) -> int
    decreases r.len() - i,
{
    if i < 0 || i + 4 > r.len() {
        -1
    } else if marker_at(r, i) {
        i
    } else {
        first_marker_from(r, i + 1)
    }
}

/// What `str::lines` gives first: the text up to the first line feed, with
/// a carriage return before that line feed removed; none for empty text.
pub open spec fn first_line(h: Seq<char>) -> Option<Seq<char>> {
    if h.len() == 0 {
        None
    } else {
        let i = first_index_of(h, '\n');
        if i < 0 {
            Some(h)
        } else {
            let l = h.subrange(0, i);
            Some(if l.len() > 0 && l.last() == '\r' { l.drop_last() } else { l })
        }
    }
}

/// Length of the run of non-whitespace characters that starts `t`.
pub open spec fn token_len(t: Seq<char>) -> nat
    decreases t.len(),
{
    if t.len() == 0 || is_space(t[0]) {
        0
    } else {
        1 + token_len(t.drop_first())
    }
}

/// The second item of `split_whitespace`.
pub open spec fn second_token(l: Seq<char>) -> Option<Seq<char>> {
    let t0 = trim_start(l);
    if t0.len() == 0 {
        None
    } else {
        let t1 = trim_start(t0.skip(token_len(t0) as int));
        if t1.len() == 0 {
            None
        } else {
            Some(t1.subrange(0, token_len(t1) as int))
        }
    }
}

/// The status code that a header block declares, if any.
pub open spec fn status_of_header(h: Seq<char>) -> Option<u16> {
    match first_line(h) {
        None => None,
        Some(l) => match second_token(l) {
            None => None,
            Some(t) => parse_u16_text(t),
        },
    }
}

/// The text that `std` gives the error of decoding invalid UTF-8
/// (`FromUtf8Error` written with `Display`).
pub uninterp spec fn utf8_error_text(bytes: Seq<u8>) -> Seq<char>;

/// `String::from_utf8`: the decoded text when the bytes are valid UTF-8,
/// else the text of its error.
#[verifier::external_body]
fn decode_text(bytes: &[u8]) -> (r: Result<String, String>)
    ensures
        match r {
            Ok(s) => valid_utf8(bytes@) && s@ == decode_utf8(bytes@),
            Err(m) => !valid_utf8(bytes@) && m@ == utf8_error_text(bytes@),
        },
{
    match String::from_utf8(bytes.to_vec()) {
        Ok(s) => Ok(s),
        Err(e) => Err(e.to_string()),
    }
}

/// What an HTTP response parses to: status and body, or the reason it is
/// refused.
pub open spec fn parsed_response(r: Seq<u8>) -> Result<(u16, Seq<u8>), Seq<char>> {
    let i = first_marker_from(r, 0);
    if i < 0 {
        Err("missing header terminator"@)
    } else if !valid_utf8(r.subrange(0, i)) {
        Err("headers are not UTF-8: "@ + utf8_error_text(r.subrange(0, i)))
    } else {
        match status_of_header(decode_utf8(r.subrange(0, i))) {
            None => Err("missing status code"@),
            Some(status) => Ok((status, r.skip(i + 4))),
        }
    }
}

/// Index of the first non-whitespace character at or after `from`.
fn skip_spaces(s: &str, from: usize) -> (r: usize)
    requires
        from <= s@.len(),
    ensures
        from <= r <= s@.len(),
        s@.skip(r as int) == trim_start(s@.skip(from as int)),
{
    let n = s.unicode_len();
    let mut i = from;
    while i < n && is_space_char(s.get_char(i))
        invariant
            n == s@.len(),
            from <= i <= n,
            trim_start(s@.skip(i as int)) == trim_start(s@.skip(from as int)),
        decreases n - i,
    {
        assert(s@.skip(i as int).drop_first() == s@.skip(i + 1));
        i = i + 1;
    }
    i
}

/// End of the run of non-whitespace characters that starts at `from`.
fn token_end(s: &str, from: usize) -> (r: usize)
    requires
        from <= s@.len(),
    ensures
        from <= r <= s@.len(),
        r - from == token_len(s@.skip(from as int)),
{
    let n = s.unicode_len();
    let mut i = from;
    while i < n && !is_space_char(s.get_char(i))
        invariant
            n == s@.len(),
            from <= i <= n,
            (i - from) + token_len(s@.skip(i as int)) == token_len(s@.skip(from as int)),
        decreases n - i,
    {
        assert(s@.skip(i as int).drop_first() == s@.skip(i + 1));
        i = i + 1;
    }
    i
}

/// The first line of a header block.
fn line_of(h: &str) -> (r: Option<&str>)
    ensures
        match first_line(h@) {
            None => r is None,
            Some(l) => r matches Some(x) && x@ == l,
        },
{
    let n = h.unicode_len();
    if n == 0 {
        return None;
    }
    let nl = find_char(h, '\n', 0);
    proof {
        lemma_first_index(h@, '\n', nl as int);
    }
    let mut end = nl;
    if nl < n && nl > 0 && h.get_char(nl - 1) == '\r' {
        end = nl - 1;
    }
    let line = h.substring_char(0, end);
    proof {
        if nl < n {
            let l = h@.subrange(0, nl as int);
            if l.len() > 0 && l.last() == '\r' {
                assert(line@ == l.drop_last());
            } else {
                assert(line@ == l);
            }
        } else {
            assert(line@ == h@);
        }
    }
    Some(line)
}

/// The second whitespace-separated token of a line.
fn second_token_of(line: &str) -> (r: Option<&str>)
    ensures
        match second_token(line@) {
            None => r is None,
            Some(t) => r matches Some(x) && x@ == t,
        },
{
    let a = skip_spaces(line, 0);
    assert(line@.skip(0) == line@);
    let m = line.unicode_len();
    if a == m {
        return None;
    }
    let b = token_end(line, a);
    let c = skip_spaces(line, b);
    proof {
        let t0 = trim_start(line@);
        assert(t0 == line@.skip(a as int));
        assert(t0.skip(token_len(t0) as int) == line@.skip(b as int));
    }
    if c == m {
        return None;
    }
    let d = token_end(line, c);
    let token = line.substring_char(c, d);
    proof {
        let t1 = line@.skip(c as int);
        assert(token@ == t1.subrange(0, token_len(t1) as int));
    }
    Some(token)
}

/// The status code declared by the first line of a header block.
fn header_status(h: &str) -> (r: Option<u16>)
    ensures
        r == status_of_header(h@),
{
    match line_of(h) {
        None => None,
        Some(line) => match second_token_of(line) {
            None => None,
            Some(token) => parse_u16(token),
        },
    }
}

/// Splits an HTTP response into its status code and body.
pub fn parse_response(response: &[u8]) -> (r: Result<RawResponse, ClientError>)
    ensures
        match parsed_response(response@) {
            Ok((status, body)) => r matches Ok(raw) && raw.status == status && raw.body@ == body,
            Err(m) => r matches Err(ClientError::InvalidResponse(e)) && e@ == m,
        },
{
    let n = response.len();
    let mut i: usize = 0;
    while n >= 4 && i <= n - 4 && !(response[i] == 13 && response[i + 1] == 10 && response[i + 2]
        == 13 && response[i + 3] == 10)
        invariant
            n == response@.len(),
            i <= n,
            first_marker_from(response@, i as int) == first_marker_from(response@, 0),
        decreases n - i,
    {
        i = i + 1;
    }
    if n < 4 || i > n - 4 {
        return Err(ClientError::InvalidResponse(String::from_str("missing header terminator")));
    }
    let mut header_bytes: Vec<u8> = Vec::new();
    let mut k: usize = 0;
    while k < i
        invariant
            i + 4 <= n,
            n == response@.len(),
            k <= i,
            header_bytes@ == response@.subrange(0, k as int),
        decreases i - k,
    {
        header_bytes.push(response[k]);
        k = k + 1;
        assert(header_bytes@ =~= response@.subrange(0, k as int));
    }
    let header = match decode_text(header_bytes.as_slice()) {
        Ok(h) => h,
        Err(e) => {
            return Err(
                ClientError::InvalidResponse(String::from_str("headers are not UTF-8: ").concat(e.as_str())),
            );
        },
    };
    let status = match header_status(header.as_str()) {
        Some(s) => s,
        None => {
            return Err(ClientError::InvalidResponse(String::from_str("missing status code")));
        },
    };
    let mut body: Vec<u8> = Vec::new();
    let mut k: usize = i + 4;
    while k < n
        invariant
            i + 4 <= n,
            n == response@.len(),
            i + 4 <= k <= n,
            body@ == response@.subrange(i + 4, k as int),
        decreases n - k,
    {
        body.push(response[k]);
        k = k + 1;
        assert(body@ =~= response@.subrange(i + 4, k as int));
    }
    assert(body@ == response@.skip(i + 4));
    Ok(RawResponse { status, body })
}

/// Bytes that a path or query component keeps as they are.
pub open spec fn is_unreserved(b: u8) -> bool {
    (65 <= b <= 90) || (97 <= b <= 122) || (48 <= b <= 57) || b == 45 || b == 95 || b == 46 || b == 126
}

/// The upper-case hexadecimal digit for `d < 16`.
pub open spec fn hex_digit(d: nat) -> char {
    if d < 10 {
        ((d + 48) as u32) as char
    } else {
        ((d + 55) as u32) as char
    }
}

/// How one byte is written in a component.
pub open spec fn encode_byte(b: u8) -> Seq<char> {
    if is_unreserved(b) {
        seq![(b as u32) as char]
    } else {
        seq!['%', hex_digit((b / 16) as nat), hex_digit((b % 16) as nat)]
    }
}

/// The percent-encoding of a byte string.
pub open spec fn encoded(bs: Seq<u8>) -> Seq<char>
    decreases bs.len(),
{
    if bs.len() == 0 {
        Seq::empty()
    } else {
        encoded(bs.drop_last()) + encode_byte(bs.last())
    }
}

fn hex_char(d: u8) -> (c: char)
    requires
        d < 16,
    ensures
        c == hex_digit(d as nat),
{
    if d < 10 {
        (d + 48) as char
    } else {
        (d + 55) as char
    }
}

/// Percent-encodes the UTF-8 bytes of `value`, keeping ASCII letters,
/// digits and `-`, `_`, `.`, `~`.
pub fn encode_component(value: &str) -> (r: String)
    ensures
        r@ == encoded(encode_utf8(value@)),
{
    let bytes = value.as_bytes();
    let mut encoded_text = String::new();
    let mut i: usize = 0;
    while i < bytes.len()
        invariant
            bytes@ == encode_utf8(value@),
            i <= bytes@.len(),
            encoded_text@ == encoded(bytes@.subrange(0, i as int)),
        decreases bytes@.len() - i,
    {
        let b = bytes[i];
        assert(bytes@.subrange(0, i + 1).drop_last() == bytes@.subrange(0, i as int));
        if (65 <= b && b <= 90) || (97 <= b && b <= 122) || (48 <= b && b <= 57) || b == 45 || b
            == 95 || b == 46 || b == 126 {
            push_char(&mut encoded_text, b as char);
        } else {
            push_char(&mut encoded_text, '%');
            push_char(&mut encoded_text, hex_char(b / 16));
            push_char(&mut encoded_text, hex_char(b % 16));
        }
        i = i + 1;
    }
    assert(bytes@.subrange(0, bytes@.len() as int) == bytes@);
    encoded_text
}

pub fn encode_path(value: &str) -> (r: String)
    ensures
        r@ == encoded(encode_utf8(value@)),
{
    encode_component(value)
}

pub fn encode_query(value: &str) -> (r: String)
    ensures
        r@ == encoded(encode_utf8(value@)),
{
    encode_component(value)
}

#[derive(Debug, Clone)]
pub struct HttpTransport {
    config: ApiClientConfig,
}

impl HttpTransport {
    pub closed spec fn configuration(&self) -> ApiClientConfig {
        self.config
    }

    pub fn new(config: ApiClientConfig) -> (r: Self)
        ensures
            r.configuration() == config,
    {
        HttpTransport { config }
    }

    pub fn config(&self) -> (r: &ApiClientConfig)
        ensures
            *r == self.configuration(),
    {
        &self.config
    }

    /// Where a request to `path` goes and the head sent before its body of
    /// `body_len` bytes; a configured URL that does not parse is refused.
    pub fn plan_request(&self, method: &str, path: &str, body_len: usize) -> (r: Result<
        RequestPlan,
        ClientError,
    >)
        ensures
            match parsed_url(self.configuration().api_url@) {
                Err(m) => r matches Err(ClientError::InvalidUrl(e)) && e@ == m,
                Ok((host, port, base)) => r matches Ok(plan) && plan.address@ == address_text(
                    host,
                    port,
                ) && plan.head@ == request_head(method@, base + path@, host, body_len as nat),
            },
    {
        let parsed = match parse_http_url(self.config.api_url.as_str()) {
            Ok(p) => p,
            Err(e) => {
                return Err(e);
            },
        };
        let mut address = parsed.host.clone();
        push_str(&mut address, ":");
        push_str(&mut address, decimal_text(parsed.port as u64).as_str());
        let mut head = String::from_str(method);
        push_str(&mut head, " ");
        push_str(&mut head, parsed.base_path.as_str());
        push_str(&mut head, path);
        push_str(&mut head, " HTTP/1.1\r\nHost: ");
        push_str(&mut head, parsed.host.as_str());
        push_str(
            &mut head,
            "\r\nAccept: application/json\r\nContent-Type: application/json\r\nContent-Length: ",
        );
        push_str(&mut head, decimal_text(body_len as u64).as_str());
        push_str(&mut head, "\r\nConnection: close\r\n\r\n");
        Ok(RequestPlan { address, head })
    }
}

/// The address a request connects to and the request head it writes.
#[derive(Debug, Clone, PartialEq, Eq)]
pub struct RequestPlan {
    pub address: String,
    pub head: String,
}

/// `host:port`.
pub open spec fn address_text(host: Seq<char>, port: u16) -> Seq<char> {
    host + ":"@ + decimal(port as nat)
}

/// The head of an HTTP/1.1 request that closes its connection.
pub open spec fn request_head(
    method: Seq<char>,
    target: Seq<char>,
    host: Seq<char>,
    body_len: nat,
) -> Seq<char> {
    method + " "@ + target + " HTTP/1.1\r\nHost: "@ + host
        + "\r\nAccept: application/json\r\nContent-Type: application/json\r\nContent-Length: "@
        + decimal(body_len) + "\r\nConnection: close\r\n\r\n"@
}

/// A status in the success range 200 to 299.
pub fn is_success(status: u16) -> (r: bool)
    ensures
        r == (200 <= status < 300),
{
    200 <= status && status < 300
}

/// The path of a chunk: `/v1/memory/chunks/{chunk}`, its id encoded.
pub open spec fn chunk_path_text(chunk_id: Seq<char>) -> Seq<char> {
    "/v1/memory/chunks/"@ + encoded(encode_utf8(chunk_id))
}

/// The path that reads or deletes an agent's chunk.
pub fn chunk_query_path(agent_id: &str, chunk_id: &str) -> (r: String)
    ensures
        r@ == chunk_path_text(chunk_id@) + "?agent_id="@ + encoded(encode_utf8(agent_id@)),
{
    let mut r = String::from_str("/v1/memory/chunks/");
    push_str(&mut r, encode_path(chunk_id).as_str());
    push_str(&mut r, "?agent_id=");
    push_str(&mut r, encode_query(agent_id).as_str());
    r
}

/// The path that patches a chunk.
pub fn chunk_path(chunk_id: &str) -> (r: String)
    ensures
        r@ == chunk_path_text(chunk_id@),
{
    let mut r = String::from_str("/v1/memory/chunks/");
    push_str(&mut r, encode_path(chunk_id).as_str());
    r
}

/// The path that sets a buffer.
pub fn buffer_path(buffer_name: &str) -> (r: String)
    ensures
        r@ == "/v1/memory/buffers/"@ + encoded(encode_utf8(buffer_name@)),
{
    let mut r = String::from_str("/v1/memory/buffers/");
    push_str(&mut r, encode_path(buffer_name).as_str());
    r
}

#[derive(Debug, Clone, PartialEq, Eq)]
pub struct HttpRoute {
    pub method: String,
    pub path: String,
    pub purpose: String,
}

impl HttpRoute {
    pub fn from_spec(value: RouteSpec) -> (r: Self)
        ensures
            r.method@ == value.method@,
            r.path@ == value.path@,
            r.purpose@ == value.purpose@,
    {
        HttpRoute {
            method: String::from_str(value.method),
            path: String::from_str(value.path),
            purpose: String::from_str(value.purpose),
        }
    }
}

#[derive(Debug, Clone)]
pub struct NestorClient {
    http: HttpTransport,
}

impl NestorClient {
    pub closed spec fn configuration(&self) -> ApiClientConfig {
        self.http.configuration()
    }

    pub fn new(config: ApiClientConfig) -> (r: Self)
        ensures
            r.configuration() == config,
    {
        NestorClient { http: HttpTransport::new(config) }
    }

    pub fn config(&self) -> (r: &ApiClientConfig)
        ensures
            *r == self.configuration(),
    {
        self.http.config()
    }

    /// The routes of the API, as owned records.
    pub fn manifest(&self) -> (r: Vec<HttpRoute>)
        ensures
            r@.len() == routes_spec().len(),
            forall|i: int|
                0 <= i < r@.len() ==> ((#[trigger] r@[i]).method@, r@[i].path@, r@[i].purpose@)
                    == routes_spec()[i],
    {
        let routes = route_manifest();
        let ghost triples = routes@.map_values(|s: RouteSpec| route_triple(s));
        let mut out: Vec<HttpRoute> = Vec::new();
        let mut i: usize = 0;
        while i < routes.len()
            invariant
                i <= routes@.len(),
                triples == routes@.map_values(|s: RouteSpec| route_triple(s)),
                triples == routes_spec(),
                out@.len() == i,
                forall|k: int|
                    0 <= k < i ==> ((#[trigger] out@[k]).method@, out@[k].path@, out@[k].purpose@)
                        == routes_spec()[k],
            decreases routes@.len() - i,
        {
            let route = HttpRoute::from_spec(routes[i]);
            assert(triples[i as int] == route_triple(routes@[i as int]));
            out.push(route);
            i = i + 1;
        }
        out
    }
}

} // verus!
