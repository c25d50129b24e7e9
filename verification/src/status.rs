//! HTTP status codes: reason phrases and status classes.
use vstd::prelude::*;

verus! {

/// The reason phrase registered for a status code; empty for unknown codes.
pub open spec fn reason_phrase(code: u16) -> Seq<char> {
    match code {
        100 => "Continue"@,
        101 => "Switching Protocols"@,
        102 => "Processing"@,
        103 => "Early Hints"@,
        200 => "OK"@,
        201 => "Created"@,
        202 => "Accepted"@,
        203 => "Non-Authoritative Information"@,
        204 => "No Content"@,
        205 => "Reset Content"@,
        206 => "Partial Content"@,
        207 => "Multi-Status"@,
        208 => "Already Reported"@,
        226 => "IM Used"@,
        300 => "Multiple Choices"@,
        301 => "Moved Permanently"@,
        302 => "Found"@,
        303 => "See Other"@,
        304 => "Not Modified"@,
        305 => "Use Proxy"@,
        307 => "Temporary Redirect"@,
        308 => "Permanent Redirect"@,
        400 => "Bad Request"@,
        401 => "Unauthorized"@,
        402 => "Payment Required"@,
        403 => "Forbidden"@,
        404 => "Not Found"@,
        405 => "Method Not Allowed"@,
        406 => "Not Acceptable"@,
        407 => "Proxy Authentication Required"@,
        408 => "Request Timeout"@,
        409 => "Conflict"@,
        410 => "Gone"@,
        411 => "Length Required"@,
        412 => "Precondition Failed"@,
        413 => "Request Entity Too Large"@,
        414 => "Request-URI Too Long"@,
        415 => "Unsupported Media Type"@,
        416 => "Requested Range Not Satisfiable"@,
        417 => "Expectation Failed"@,
        418 => "I'm a teapot"@,
        421 => "Misdirected Request"@,
        422 => "Unprocessable Entity"@,
        423 => "Locked"@,
        424 => "Failed Dependency"@,
        425 => "Too Early"@,
        426 => "Upgrade Required"@,
        428 => "Precondition Required"@,
        429 => "Too Many Requests"@,
        431 => "Request Header Fields Too Large"@,
        451 => "Unavailable For Legal Reasons"@,
        500 => "Internal Server Error"@,
        501 => "Not Implemented"@,
        502 => "Bad Gateway"@,
        503 => "Service Unavailable"@,
        504 => "Gateway Timeout"@,
        505 => "HTTP Version Not Supported"@,
        506 => "Variant Also Negotiates"@,
        507 => "Insufficient Storage"@,
        508 => "Loop Detected"@,
        510 => "Not Extended"@,
        511 => "Network Authentication Required"@,
        _ => ""@,
    }
}

/// The reason phrase registered for a status code, or `""` when the code is unknown.
pub fn reason_phrase_for_code(code: u16) -> (r: &'static str)
    ensures
        r@ == reason_phrase(code),
{
    match code {
        100 => "Continue",
        101 => "Switching Protocols",
        102 => "Processing",
        103 => "Early Hints",
        200 => "OK",
        201 => "Created",
        202 => "Accepted",
        203 => "Non-Authoritative Information",
        204 => "No Content",
        205 => "Reset Content",
        206 => "Partial Content",
        207 => "Multi-Status",
        208 => "Already Reported",
        226 => "IM Used",
        300 => "Multiple Choices",
        301 => "Moved Permanently",
        302 => "Found",
        303 => "See Other",
        304 => "Not Modified",
        305 => "Use Proxy",
        307 => "Temporary Redirect",
        308 => "Permanent Redirect",
        400 => "Bad Request",
        401 => "Unauthorized",
        402 => "Payment Required",
        403 => "Forbidden",
        404 => "Not Found",
        405 => "Method Not Allowed",
        406 => "Not Acceptable",
        407 => "Proxy Authentication Required",
        408 => "Request Timeout",
        409 => "Conflict",
        410 => "Gone",
        411 => "Length Required",
        412 => "Precondition Failed",
        413 => "Request Entity Too Large",
        414 => "Request-URI Too Long",
        415 => "Unsupported Media Type",
        416 => "Requested Range Not Satisfiable",
        417 => "Expectation Failed",
        418 => "I'm a teapot",
        421 => "Misdirected Request",
        422 => "Unprocessable Entity",
        423 => "Locked",
        424 => "Failed Dependency",
        425 => "Too Early",
        426 => "Upgrade Required",
        428 => "Precondition Required",
        429 => "Too Many Requests",
        431 => "Request Header Fields Too Large",
        451 => "Unavailable For Legal Reasons",
        500 => "Internal Server Error",
        501 => "Not Implemented",
        502 => "Bad Gateway",
        503 => "Service Unavailable",
        504 => "Gateway Timeout",
        505 => "HTTP Version Not Supported",
        506 => "Variant Also Negotiates",
        507 => "Insufficient Storage",
        508 => "Loop Detected",
        510 => "Not Extended",
        511 => "Network Authentication Required",
        _ => "",
    }
}

/// `100 <= code <= 199`.
pub fn is_informational(code: u16) -> (r: bool)
    ensures
        r == (100 <= code <= 199),
{
    100 <= code && code <= 199
}

/// `200 <= code <= 299`.
pub fn is_success(code: u16) -> (r: bool)
    ensures
        r == (200 <= code <= 299),
{
    200 <= code && code <= 299
}

/// `300 <= code <= 399`.
pub fn is_redirect(code: u16) -> (r: bool)
    ensures
        r == (300 <= code <= 399),
{
    300 <= code && code <= 399
}

/// `400 <= code <= 499`.
pub fn is_client_error(code: u16) -> (r: bool)
    ensures
        r == (400 <= code <= 499),
{
    400 <= code && code <= 499
}

/// `500 <= code <= 599`.
pub fn is_server_error(code: u16) -> (r: bool)
    ensures
        r == (500 <= code <= 599),
{
    500 <= code && code <= 599
}

/// `400 <= code <= 599`.
pub fn is_error(code: u16) -> (r: bool)
    ensures
        r == (400 <= code <= 599),
{
    400 <= code && code <= 599
}

/// The status codes, as the `codes` enumeration offers them to callers
/// that hold any integer.
pub struct StatusCodes;

impl StatusCodes {
    /// The reason phrase of a status code, `""` for a value that is no
    /// registered code.
    pub fn get_reason_phrase(value: i64) -> (r: &'static str)
        ensures
            0 <= value < 65536 ==> r@ == reason_phrase(value as u16),
            !(0 <= value < 65536) ==> r@ == ""@,
    {
        if 0 <= value && value < 65536 {
            reason_phrase_for_code(value as u16)
        } else {
            ""
        }
    }

    /// `100 <= value <= 199`.
    pub fn is_informational(value: i64) -> (r: bool)
        ensures
            r == (100 <= value <= 199),
    {
        100 <= value && value <= 199
    }

    /// `200 <= value <= 299`.
    pub fn is_success(value: i64) -> (r: bool)
        ensures
            r == (200 <= value <= 299),
    {
        200 <= value && value <= 299
    }

    /// `300 <= value <= 399`.
    pub fn is_redirect(value: i64) -> (r: bool)
        ensures
            r == (300 <= value <= 399),
    {
        300 <= value && value <= 399
    }

    /// `400 <= value <= 499`.
    pub fn is_client_error(value: i64) -> (r: bool)
        ensures
            r == (400 <= value <= 499),
    {
        400 <= value && value <= 499
    }

    /// `500 <= value <= 599`.
    pub fn is_server_error(value: i64) -> (r: bool)
        ensures
            r == (500 <= value <= 599),
    {
        500 <= value && value <= 599
    }

    /// `400 <= value <= 599`.
    pub fn is_error(value: i64) -> (r: bool)
        ensures
            r == (400 <= value <= 599),
    {
        400 <= value && value <= 599
    }
}

} // verus!
