//! HTTP status codes, methods, versions, and the text of requests and responses.
use crate::calendar::{calculate_hour_minute_second, calculate_year_month_day};
use crate::datetime::{civil_date, unix_seconds};
use crate::decimal::{decimal, pad_with, push_decimal, push_padded, zero_pad};
use crate::format::{push_escape, push_reset, reset, sgr};
use crate::text::{push_char, push_chars_of, push_str};
use vstd::prelude::*;
use vstd::string::StringSliceAdditionalSpecFns;

verus! {

/// The HTTP status codes that the library knows.
#[derive(Debug, Clone, Copy, PartialEq, Eq, Structural)]
pub enum HttpStatus {
    _100,
    _101,
    _102,
    _200,
    _201,
    _202,
    _203,
    _204,
    _205,
    _300,
    _301,
    _302,
    _400,
    _401,
    _403,
    _404,
    _405,
    _406,
    _408,
    _409,
    _410,
    _500,
    _501,
    _502,
    _503,
    _504,
    _507,
    _511,
    _599,
}

/// The status with code `v`, if there is one.
pub open spec fn status_of(v: u16) -> Option<HttpStatus> {
    if v == 100 {
        Some(HttpStatus::_100)
    } else if v == 101 {
        Some(HttpStatus::_101)
    } else if v == 102 {
        Some(HttpStatus::_102)
    } else if v == 200 {
        Some(HttpStatus::_200)
    } else if v == 201 {
        Some(HttpStatus::_201)
    } else if v == 202 {
        Some(HttpStatus::_202)
    } else if v == 203 {
        Some(HttpStatus::_203)
    } else if v == 204 {
        Some(HttpStatus::_204)
    } else if v == 205 {
        Some(HttpStatus::_205)
    } else if v == 300 {
        Some(HttpStatus::_300)
    } else if v == 301 {
        Some(HttpStatus::_301)
    } else if v == 302 {
        Some(HttpStatus::_302)
    } else if v == 400 {
        Some(HttpStatus::_400)
    } else if v == 401 {
        Some(HttpStatus::_401)
    } else if v == 403 {
        Some(HttpStatus::_403)
    } else if v == 404 {
        Some(HttpStatus::_404)
    } else if v == 405 {
        Some(HttpStatus::_405)
    } else if v == 406 {
        Some(HttpStatus::_406)
    } else if v == 408 {
        Some(HttpStatus::_408)
    } else if v == 409 {
        Some(HttpStatus::_409)
    } else if v == 410 {
        Some(HttpStatus::_410)
    } else if v == 500 {
        Some(HttpStatus::_500)
    } else if v == 501 {
        Some(HttpStatus::_501)
    } else if v == 502 {
        Some(HttpStatus::_502)
    } else if v == 503 {
        Some(HttpStatus::_503)
    } else if v == 504 {
        Some(HttpStatus::_504)
    } else if v == 507 {
        Some(HttpStatus::_507)
    } else if v == 511 {
        Some(HttpStatus::_511)
    } else if v == 599 {
        Some(HttpStatus::_599)
    } else {
        None
    }
}

impl HttpStatus {
    pub open spec fn code_spec(&self) -> u16 {
        match self {
            HttpStatus::_100 => 100,
            HttpStatus::_101 => 101,
            HttpStatus::_102 => 102,
            HttpStatus::_200 => 200,
            HttpStatus::_201 => 201,
            HttpStatus::_202 => 202,
            HttpStatus::_203 => 203,
            HttpStatus::_204 => 204,
            HttpStatus::_205 => 205,
            HttpStatus::_300 => 300,
            HttpStatus::_301 => 301,
            HttpStatus::_302 => 302,
            HttpStatus::_400 => 400,
            HttpStatus::_401 => 401,
            HttpStatus::_403 => 403,
            HttpStatus::_404 => 404,
            HttpStatus::_405 => 405,
            HttpStatus::_406 => 406,
            HttpStatus::_408 => 408,
            HttpStatus::_409 => 409,
            HttpStatus::_410 => 410,
            HttpStatus::_500 => 500,
            HttpStatus::_501 => 501,
            HttpStatus::_502 => 502,
            HttpStatus::_503 => 503,
            HttpStatus::_504 => 504,
            HttpStatus::_507 => 507,
            HttpStatus::_511 => 511,
            HttpStatus::_599 => 599,
        }
    }

    pub open spec fn message_spec(&self) -> Seq<char> {
        match self {
            HttpStatus::_100 => "Continue"@,
            HttpStatus::_101 => "Switching Protocols"@,
            HttpStatus::_102 => "Processing"@,
            HttpStatus::_200 => "OK"@,
            HttpStatus::_201 => "Created"@,
            HttpStatus::_202 => "Accepted"@,
            HttpStatus::_203 => "Non-Authoritative Information"@,
            HttpStatus::_204 => "No Content"@,
            HttpStatus::_205 => "Reset Content"@,
            HttpStatus::_300 => "Multiple Choices"@,
            HttpStatus::_301 => "Moved Permanently"@,
            HttpStatus::_302 => "Found"@,
            HttpStatus::_400 => "Bad Request"@,
            HttpStatus::_401 => "Unauthorized"@,
            HttpStatus::_403 => "Forbidden"@,
            HttpStatus::_404 => "Not Found"@,
            HttpStatus::_405 => "Method Not Allowed"@,
            HttpStatus::_406 => "Not Acceptable"@,
            HttpStatus::_408 => "Request Timeout"@,
            HttpStatus::_409 => "Conflict"@,
            HttpStatus::_410 => "Gone"@,
            HttpStatus::_500 => "Internal Server Error"@,
            HttpStatus::_501 => "Not Implemented"@,
            HttpStatus::_502 => "Bad Gateway"@,
            HttpStatus::_503 => "Service Unavailable"@,
            HttpStatus::_504 => "Gateway Timeout"@,
            HttpStatus::_507 => "Insufficient Storage"@,
            HttpStatus::_511 => "Network Authentication Required"@,
            HttpStatus::_599 => "Network Connect Timeout Error"@,
        }
    }

    /// The numeric code.
    pub fn code(&self) -> (r: u16)
        ensures
            r == self.code_spec(),
    {
        match self {
            HttpStatus::_100 => 100,
            HttpStatus::_101 => 101,
            HttpStatus::_102 => 102,
            HttpStatus::_200 => 200,
            HttpStatus::_201 => 201,
            HttpStatus::_202 => 202,
            HttpStatus::_203 => 203,
            HttpStatus::_204 => 204,
            HttpStatus::_205 => 205,
            HttpStatus::_300 => 300,
            HttpStatus::_301 => 301,
            HttpStatus::_302 => 302,
            HttpStatus::_400 => 400,
            HttpStatus::_401 => 401,
            HttpStatus::_403 => 403,
            HttpStatus::_404 => 404,
            HttpStatus::_405 => 405,
            HttpStatus::_406 => 406,
            HttpStatus::_408 => 408,
            HttpStatus::_409 => 409,
            HttpStatus::_410 => 410,
            HttpStatus::_500 => 500,
            HttpStatus::_501 => 501,
            HttpStatus::_502 => 502,
            HttpStatus::_503 => 503,
            HttpStatus::_504 => 504,
            HttpStatus::_507 => 507,
            HttpStatus::_511 => 511,
            HttpStatus::_599 => 599,
        }
    }

    /// The reason phrase.
    pub fn message(&self) -> (r: &'static str)
        ensures
            r@ == self.message_spec(),
    {
        match self {
            HttpStatus::_100 => "Continue",
            HttpStatus::_101 => "Switching Protocols",
            HttpStatus::_102 => "Processing",
            HttpStatus::_200 => "OK",
            HttpStatus::_201 => "Created",
            HttpStatus::_202 => "Accepted",
            HttpStatus::_203 => "Non-Authoritative Information",
            HttpStatus::_204 => "No Content",
            HttpStatus::_205 => "Reset Content",
            HttpStatus::_300 => "Multiple Choices",
            HttpStatus::_301 => "Moved Permanently",
            HttpStatus::_302 => "Found",
            HttpStatus::_400 => "Bad Request",
            HttpStatus::_401 => "Unauthorized",
            HttpStatus::_403 => "Forbidden",
            HttpStatus::_404 => "Not Found",
            HttpStatus::_405 => "Method Not Allowed",
            HttpStatus::_406 => "Not Acceptable",
            HttpStatus::_408 => "Request Timeout",
            HttpStatus::_409 => "Conflict",
            HttpStatus::_410 => "Gone",
            HttpStatus::_500 => "Internal Server Error",
            HttpStatus::_501 => "Not Implemented",
            HttpStatus::_502 => "Bad Gateway",
            HttpStatus::_503 => "Service Unavailable",
            HttpStatus::_504 => "Gateway Timeout",
            HttpStatus::_507 => "Insufficient Storage",
            HttpStatus::_511 => "Network Authentication Required",
            HttpStatus::_599 => "Network Connect Timeout Error",
        }
    }

    /// The status with code `value`, if there is one.
    pub fn from_u16(value: u16) -> (r: Option<Self>)
        ensures
            r == status_of(value),
    {
        match value {
            100 => Some(HttpStatus::_100),
            101 => Some(HttpStatus::_101),
            102 => Some(HttpStatus::_102),
            200 => Some(HttpStatus::_200),
            201 => Some(HttpStatus::_201),
            202 => Some(HttpStatus::_202),
            203 => Some(HttpStatus::_203),
            204 => Some(HttpStatus::_204),
            205 => Some(HttpStatus::_205),
            300 => Some(HttpStatus::_300),
            301 => Some(HttpStatus::_301),
            302 => Some(HttpStatus::_302),
            400 => Some(HttpStatus::_400),
            401 => Some(HttpStatus::_401),
            403 => Some(HttpStatus::_403),
            404 => Some(HttpStatus::_404),
            405 => Some(HttpStatus::_405),
            406 => Some(HttpStatus::_406),
            408 => Some(HttpStatus::_408),
            409 => Some(HttpStatus::_409),
            410 => Some(HttpStatus::_410),
            500 => Some(HttpStatus::_500),
            501 => Some(HttpStatus::_501),
            502 => Some(HttpStatus::_502),
            503 => Some(HttpStatus::_503),
            504 => Some(HttpStatus::_504),
            507 => Some(HttpStatus::_507),
            511 => Some(HttpStatus::_511),
            599 => Some(HttpStatus::_599),
            _ => None,
        }
    }

    /// The status with code `value`, if there is one.
    pub fn new(value: u16) -> (r: Option<Self>)
        ensures
            r == status_of(value),
    {
        Self::from_u16(value)
    }
}

impl Default for HttpStatus {
    /// `501 Not Implemented`.
    fn default() -> (r: Self)
        ensures
            r == HttpStatus::_501,
    {
        HttpStatus::_501
    }
}

/// The color code for a status: blue for 1xx, green for 2xx, magenta for 3xx,
/// yellow for 4xx, red for 5xx.
pub open spec fn status_color(code: u16) -> Seq<char> {
    if 100 <= code <= 199 {
        "34"@
    } else if 200 <= code <= 299 {
        "32"@
    } else if 300 <= code <= 399 {
        "35"@
    } else if 400 <= code <= 499 {
        "33"@
    } else if 500 <= code <= 599 {
        "31"@
    } else {
        "0"@
    }
}

impl HttpStatus {
    /// The colored code, a space, and the reason phrase.
    pub fn to_string(&self) -> (r: String)
        ensures
            r@ == sgr(status_color(self.code_spec())) + decimal(self.code_spec() as nat) + reset()
                + seq![' '] + self.message_spec(),
    {
        let code = self.code();
        let color = if 100 <= code && code <= 199 {
            "34"
        } else if 200 <= code && code <= 299 {
            "32"
        } else if 300 <= code && code <= 399 {
            "35"
        } else if 400 <= code && code <= 499 {
            "33"
        } else if 500 <= code && code <= 599 {
            "31"
        } else {
            "0"
        };
        let mut out = String::new();
        push_escape(&mut out);
        push_str(&mut out, color);
        push_char(&mut out, 'm');
        push_decimal(&mut out, code as u64, 0);
        push_reset(&mut out);
        push_char(&mut out, ' ');
        push_str(&mut out, self.message());
        assert(out@ =~= sgr(status_color(self.code_spec())) + decimal(self.code_spec() as nat)
            + reset() + seq![' '] + self.message_spec());
        out
    }
}

/// The HTTP request methods.
#[derive(Debug, Clone, Copy, PartialEq, Eq, Structural)]
pub enum HttpMethod {
    GET,
    POST,
    PUT,
    DELETE,
}

impl HttpMethod {
    pub open spec fn name(&self) -> Seq<char> {
        match self {
            HttpMethod::GET => "GET"@,
            HttpMethod::POST => "POST"@,
            HttpMethod::PUT => "PUT"@,
            HttpMethod::DELETE => "DELETE"@,
        }
    }

    /// The method's name, such as `GET`.
    pub fn as_str(&self) -> (r: &'static str)
        ensures
            r@ == self.name(),
    {
        match self {
            HttpMethod::GET => "GET",
            HttpMethod::POST => "POST",
            HttpMethod::PUT => "PUT",
            HttpMethod::DELETE => "DELETE",
        }
    }

    /// The method named `method`, if there is one.
    pub fn from_str(method: &str) -> (r: Option<Self>)
        ensures
            r matches Some(m) ==> m.name() == method@,
            r is None ==> method@ != "GET"@ && method@ != "POST"@ && method@ != "PUT"@
                && method@ != "DELETE"@,
    {
        if crate::console::text_eq(method, "GET") {
            Some(HttpMethod::GET)
        } else if crate::console::text_eq(method, "POST") {
            Some(HttpMethod::POST)
        } else if crate::console::text_eq(method, "PUT") {
            Some(HttpMethod::PUT)
        } else if crate::console::text_eq(method, "DELETE") {
            Some(HttpMethod::DELETE)
        } else {
            None
        }
    }
}

impl Default for HttpMethod {
    /// `GET`.
    fn default() -> (r: Self)
        ensures
            r == HttpMethod::GET,
    {
        HttpMethod::GET
    }
}

/// The HTTP versions.
#[derive(Debug, Clone, Copy, PartialEq, Eq, Structural)]
pub enum HttpVersion {
    Http1_0,
    Http1_1,
    Http2_0,
}

impl HttpVersion {
    pub open spec fn name(&self) -> Seq<char> {
        match self {
            HttpVersion::Http1_0 => "HTTP/1.0"@,
            HttpVersion::Http1_1 => "HTTP/1.1"@,
            HttpVersion::Http2_0 => "HTTP/2.0"@,
        }
    }

    /// The version's name, such as `HTTP/1.1`.
    pub fn as_str(&self) -> (r: &'static str)
        ensures
            r@ == self.name(),
    {
        match self {
            HttpVersion::Http1_0 => "HTTP/1.0",
            HttpVersion::Http1_1 => "HTTP/1.1",
            HttpVersion::Http2_0 => "HTTP/2.0",
        }
    }

    /// The version named `version`, if there is one.
    pub fn from_str(version: &str) -> (r: Option<Self>)
        ensures
            r matches Some(v) ==> v.name() == version@,
            r is None ==> version@ != "HTTP/1.0"@ && version@ != "HTTP/1.1"@ && version@
                != "HTTP/2.0"@,
    {
        if crate::console::text_eq(version, "HTTP/1.0") {
            Some(HttpVersion::Http1_0)
        } else if crate::console::text_eq(version, "HTTP/1.1") {
            Some(HttpVersion::Http1_1)
        } else if crate::console::text_eq(version, "HTTP/2.0") {
            Some(HttpVersion::Http2_0)
        } else {
            None
        }
    }
}

impl Default for HttpVersion {
    /// `HTTP/1.1`.
    fn default() -> (r: Self)
        ensures
            r == HttpVersion::Http1_1,
    {
        HttpVersion::Http1_1
    }
}

/// A request: method, version, URL and body.
#[derive(Debug, Clone)]
pub struct HttpRequest {
    pub method: HttpMethod,
    pub http_version: HttpVersion,
    pub url: String,
    pub body: String,
}

/// A copy of `s`.
fn owned(s: &str) -> (r: String)
    ensures
        r@ == s@,
{
    let mut out = String::new();
    push_str(&mut out, s);
    assert(out@ =~= s@);
    out
}

impl HttpRequest {
    pub fn new(method: HttpMethod, http_version: HttpVersion, url: &str, body: &str) -> (r:
        HttpRequest)
        ensures
            r.method == method,
            r.http_version == http_version,
            r.url@ == url@,
            r.body@ == body@,
    {
        HttpRequest { method, http_version, url: owned(url), body: owned(body) }
    }

    /// `METHOD url VERSION`, a blank line, then the body, lines ended by CR LF.
    pub fn to_string(&self) -> (r: String)
        ensures
            r@ == self.method.name() + seq![' '] + self.url@ + seq![' '] + self.http_version.name()
                + seq!['\r', '\n', '\r', '\n'] + self.body@,
    {
        let mut out = String::new();
        push_str(&mut out, self.method.as_str());
        push_char(&mut out, ' ');
        push_chars_of(&mut out, &self.url);
        push_char(&mut out, ' ');
        push_str(&mut out, self.http_version.as_str());
        push_str(&mut out, "\r\n\r\n");
        push_chars_of(&mut out, &self.body);
        proof {
            reveal_strlit("\r\n\r\n");
        }
        assert(out@ =~= self.method.name() + seq![' '] + self.url@ + seq![' ']
            + self.http_version.name() + seq!['\r', '\n', '\r', '\n'] + self.body@);
        out
    }
}

/// `YYYY-MM-DD HH:MM:SS` for `timestamp` seconds after 1970-01-01 00:00:00, the
/// year padded with spaces to four characters and the rest with zeros to two.
pub open spec fn clock_text(timestamp: nat) -> Seq<char> {
    let (y, mo, d) = civil_date(timestamp / 86400);
    let rest = timestamp % 86400;
    pad_with(decimal(y as nat), 4, ' ') + seq!['-'] + zero_pad(decimal(mo), 2) + seq!['-']
        + zero_pad(decimal(d), 2) + seq![' '] + zero_pad(decimal(rest / 3600), 2) + seq![':']
        + zero_pad(decimal(rest % 3600 / 60), 2) + seq![':'] + zero_pad(decimal(rest % 3600 % 60), 2)
}

/// The text of a response with `date` on its `Date:` line; the length is in UTF-8 bytes.
pub open spec fn response_text(r: HttpResponse, date: Seq<char>) -> Seq<char> {
    r.http_version.name() + seq![' '] + decimal(r.status.code_spec() as nat) + seq![' ']
        + r.status.message_spec() + "\r\nDate: "@ + date + "\r\nServer: Rust Server\r\nContent-Length: "@
        + decimal(len_bytes(r.body@)) + "\r\nContent-Type: text/html\r\nConnection: Closed\r\n\r\n"@ + r.body@
}

/// The length of text in UTF-8 bytes, as a `usize`.
pub open spec fn len_bytes(s: Seq<char>) -> nat {
    (vstd::utf8::encode_utf8(s).len() as usize) as nat
}

/// A response: status, version and body.
#[derive(Debug, Clone)]
pub struct HttpResponse {
    pub status: HttpStatus,
    pub http_version: HttpVersion,
    pub body: String,
}

impl HttpResponse {
    pub fn new(status: HttpStatus, http_version: HttpVersion, body: &str) -> (r: HttpResponse)
        ensures
            r.status == status,
            r.http_version == http_version,
            r.body@ == body@,
    {
        HttpResponse { status, http_version, body: owned(body) }
    }

    /// A response in `HTTP/1.1`.
    pub fn new_1_1(status: HttpStatus, body: &str) -> (r: HttpResponse)
        ensures
            r.status == status,
            r.http_version == HttpVersion::Http1_1,
            r.body@ == body@,
    {
        HttpResponse { status, http_version: HttpVersion::Http1_1, body: owned(body) }
    }

    /// `YYYY-MM-DD HH:MM:SS` for a timestamp.
    pub fn clock_string(timestamp: u64) -> (r: String)
        ensures
            r@ == clock_text(timestamp as nat),
    {
        let (days, hours, minutes, seconds) = calculate_hour_minute_second(timestamp);
        let (year, month, day) = calculate_year_month_day(days);
        let mut out = String::new();
        push_padded(&mut out, year, 4, ' ');
        push_char(&mut out, '-');
        push_decimal(&mut out, month as u64, 2);
        push_char(&mut out, '-');
        push_decimal(&mut out, day, 2);
        push_char(&mut out, ' ');
        push_decimal(&mut out, hours, 2);
        push_char(&mut out, ':');
        push_decimal(&mut out, minutes, 2);
        push_char(&mut out, ':');
        push_decimal(&mut out, seconds, 2);
        assert(out@ =~= clock_text(timestamp as nat));
        out
    }

    /// The current time six hours behind UTC as `YYYY-MM-DD HH:MM:SS`; a clock
    /// less than six hours past 1970-01-01 reads as that instant.
    pub fn now_hour_minute_second() -> (r: String)
        ensures
            exists|t: nat| r@ == clock_text(t),
    {
        let secs = unix_seconds();
        let timestamp = if secs >= 6 * 3600 {
            secs - 6 * 3600
        } else {
            0
        };
        Self::clock_string(timestamp)
    }

    /// The text of the response with `date` on its `Date:` line.
    pub fn to_string_at(&self, date: &str) -> (r: String)
        ensures
            r@ == response_text(*self, date@),
    {
        let mut out = String::new();
        push_str(&mut out, self.http_version.as_str());
        push_char(&mut out, ' ');
        push_decimal(&mut out, self.status.code() as u64, 0);
        push_char(&mut out, ' ');
        push_str(&mut out, self.status.message());
        push_str(&mut out, "\r\nDate: ");
        push_str(&mut out, date);
        push_str(&mut out, "\r\nServer: Rust Server\r\nContent-Length: ");
        let body = self.body.as_str();
        let length = body.len();
        assert(body.spec_bytes() == vstd::utf8::encode_utf8(self.body@));
        push_decimal(&mut out, length as u64, 0);
        push_str(&mut out, "\r\nContent-Type: text/html\r\nConnection: Closed\r\n\r\n");
        push_chars_of(&mut out, &self.body);
        assert(out@ =~= response_text(*self, date@));
        out
    }

    /// The text of the response, dated now.
    pub fn to_string(&self) -> (r: String)
        ensures
            exists|t: nat| r@ == response_text(*self, clock_text(t)),
    {
        let date = Self::now_hour_minute_second();
        self.to_string_at(date.as_str())
    }
}

} // verus!
