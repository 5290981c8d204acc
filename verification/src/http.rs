//! Protocol model: request methods, MIME types, and the status-code reason
//! table. All functions are total and pure; only method parsing can fail.

use vstd::prelude::*;
use vstd::string::StringSliceAdditionalSpecFns;

verus! {

/// An HTTP request method. Parsed by exact, case-sensitive token match.
#[derive(Debug, Clone, Copy, PartialEq, Eq, Structural)]
pub enum Method {
    GET,
    POST,
    PUT,
    DELETE,
    HEAD,
    OPTIONS,
    CONNECT,
    TRACE,
    PATCH,
    LIST,
}

/// The method denoted by a token, or `None` for any token outside the
/// fixed set.
pub open spec fn method_of(token: Seq<u8>) -> Option<Method> {
    if token == "GET".spec_bytes() {
        Some(Method::GET)
    } else if token == "POST".spec_bytes() {
        Some(Method::POST)
    } else if token == "PUT".spec_bytes() {
        Some(Method::PUT)
    } else if token == "DELETE".spec_bytes() {
        Some(Method::DELETE)
    } else if token == "HEAD".spec_bytes() {
        Some(Method::HEAD)
    } else if token == "OPTIONS".spec_bytes() {
        Some(Method::OPTIONS)
    } else if token == "CONNECT".spec_bytes() {
        Some(Method::CONNECT)
    } else if token == "TRACE".spec_bytes() {
        Some(Method::TRACE)
    } else if token == "PATCH".spec_bytes() {
        Some(Method::PATCH)
    } else if token == "LIST".spec_bytes() {
        Some(Method::LIST)
    } else {
        None
    }
}

impl Method {
    /// Parse a method token; any token outside the fixed set is an error.
    pub fn from_str(token: &[u8]) -> (r: Result<Method, String>)
        ensures
            r matches Ok(m) ==> method_of(token@) == Some(m),
            r is Err ==> method_of(token@) is None,
    {
        if crate::bytes::bytes_eq(token, "GET".as_bytes()) {
            Ok(Method::GET)
        } else if crate::bytes::bytes_eq(token, "POST".as_bytes()) {
            Ok(Method::POST)
        } else if crate::bytes::bytes_eq(token, "PUT".as_bytes()) {
            Ok(Method::PUT)
        } else if crate::bytes::bytes_eq(token, "DELETE".as_bytes()) {
            Ok(Method::DELETE)
        } else if crate::bytes::bytes_eq(token, "HEAD".as_bytes()) {
            Ok(Method::HEAD)
        } else if crate::bytes::bytes_eq(token, "OPTIONS".as_bytes()) {
            Ok(Method::OPTIONS)
        } else if crate::bytes::bytes_eq(token, "CONNECT".as_bytes()) {
            Ok(Method::CONNECT)
        } else if crate::bytes::bytes_eq(token, "TRACE".as_bytes()) {
            Ok(Method::TRACE)
        } else if crate::bytes::bytes_eq(token, "PATCH".as_bytes()) {
            Ok(Method::PATCH)
        } else if crate::bytes::bytes_eq(token, "LIST".as_bytes()) {
            Ok(Method::LIST)
        } else {
            Err("Invalid method".to_owned())
        }
    }
}

/// A MIME type from the fixed table; unknown tokens fall back to
/// `application/octet-stream`.
#[derive(Debug, Clone, Copy, PartialEq, Eq, Structural)]
pub enum MimeType {
    TextPlain,
    TextHtml,
    TextCss,
    TextJavascript,
    ImagePng,
    ImageJpeg,
    ImageGif,
    ImageWebp,
    ImageSvg,
    ApplicationJson,
    ApplicationXml,
    ApplicationOctetStream,
}

/// The MIME type denoted by a token; anything unknown is the octet-stream
/// default.
pub open spec fn mime_of(token: Seq<u8>) -> MimeType {
    if token == "text/plain".spec_bytes() {
        MimeType::TextPlain
    } else if token == "text/html".spec_bytes() {
        MimeType::TextHtml
    } else if token == "text/css".spec_bytes() {
        MimeType::TextCss
    } else if token == "text/javascript".spec_bytes() {
        MimeType::TextJavascript
    } else if token == "image/png".spec_bytes() {
        MimeType::ImagePng
    } else if token == "image/jpeg".spec_bytes() {
        MimeType::ImageJpeg
    } else if token == "image/gif".spec_bytes() {
        MimeType::ImageGif
    } else if token == "image/webp".spec_bytes() {
        MimeType::ImageWebp
    } else if token == "image/svg+xml".spec_bytes() {
        MimeType::ImageSvg
    } else if token == "application/json".spec_bytes() {
        MimeType::ApplicationJson
    } else if token == "application/xml".spec_bytes() {
        MimeType::ApplicationXml
    } else {
        MimeType::ApplicationOctetStream
    }
}

/// The token of a MIME type: the inverse of `mime_of` on the fixed table.
pub open spec fn mime_token(m: MimeType) -> Seq<u8> {
    match m {
        MimeType::TextPlain => "text/plain".spec_bytes(),
        MimeType::TextHtml => "text/html".spec_bytes(),
        MimeType::TextCss => "text/css".spec_bytes(),
        MimeType::TextJavascript => "text/javascript".spec_bytes(),
        MimeType::ImagePng => "image/png".spec_bytes(),
        MimeType::ImageJpeg => "image/jpeg".spec_bytes(),
        MimeType::ImageGif => "image/gif".spec_bytes(),
        MimeType::ImageWebp => "image/webp".spec_bytes(),
        MimeType::ImageSvg => "image/svg+xml".spec_bytes(),
        MimeType::ApplicationJson => "application/json".spec_bytes(),
        MimeType::ApplicationXml => "application/xml".spec_bytes(),
        MimeType::ApplicationOctetStream => "application/octet-stream".spec_bytes(),
    }
}

/// Whether a MIME type carries UTF-8 decodable text.
pub open spec fn mime_is_utf8(m: MimeType) -> bool {
    match m {
        MimeType::TextPlain => true,
        MimeType::TextHtml => true,
        MimeType::TextCss => true,
        MimeType::TextJavascript => true,
        MimeType::ApplicationJson => true,
        _ => false,
    }
}

impl MimeType {
    /// Look a token up in the fixed table, defaulting to octet-stream.
    pub fn from_str(token: &[u8]) -> (r: MimeType)
        ensures
            r == mime_of(token@),
    {
        if crate::bytes::bytes_eq(token, "text/plain".as_bytes()) {
            MimeType::TextPlain
        } else if crate::bytes::bytes_eq(token, "text/html".as_bytes()) {
            MimeType::TextHtml
        } else if crate::bytes::bytes_eq(token, "text/css".as_bytes()) {
            MimeType::TextCss
        } else if crate::bytes::bytes_eq(token, "text/javascript".as_bytes()) {
            MimeType::TextJavascript
        } else if crate::bytes::bytes_eq(token, "image/png".as_bytes()) {
            MimeType::ImagePng
        } else if crate::bytes::bytes_eq(token, "image/jpeg".as_bytes()) {
            MimeType::ImageJpeg
        } else if crate::bytes::bytes_eq(token, "image/gif".as_bytes()) {
            MimeType::ImageGif
        } else if crate::bytes::bytes_eq(token, "image/webp".as_bytes()) {
            MimeType::ImageWebp
        } else if crate::bytes::bytes_eq(token, "image/svg+xml".as_bytes()) {
            MimeType::ImageSvg
        } else if crate::bytes::bytes_eq(token, "application/json".as_bytes()) {
            MimeType::ApplicationJson
        } else if crate::bytes::bytes_eq(token, "application/xml".as_bytes()) {
            MimeType::ApplicationXml
        } else {
            MimeType::ApplicationOctetStream
        }
    }

    /// The wire token of this MIME type.
    pub fn to_str(&self) -> (r: &'static str)
        ensures
            r.spec_bytes() == mime_token(*self),
    {
        match self {
            MimeType::TextPlain => "text/plain",
            MimeType::TextHtml => "text/html",
            MimeType::TextCss => "text/css",
            MimeType::TextJavascript => "text/javascript",
            MimeType::ImagePng => "image/png",
            MimeType::ImageJpeg => "image/jpeg",
            MimeType::ImageGif => "image/gif",
            MimeType::ImageWebp => "image/webp",
            MimeType::ImageSvg => "image/svg+xml",
            MimeType::ApplicationJson => "application/json",
            MimeType::ApplicationXml => "application/xml",
            MimeType::ApplicationOctetStream => "application/octet-stream",
        }
    }

    /// Whether the type is textual and may be decoded as UTF-8.
    pub fn is_utf8(&self) -> (r: bool)
        ensures
            r == mime_is_utf8(*self),
    {
        match self {
            MimeType::TextPlain => true,
            MimeType::TextHtml => true,
            MimeType::TextCss => true,
            MimeType::TextJavascript => true,
            MimeType::ApplicationJson => true,
            _ => false,
        }
    }
}

impl Default for MimeType {
    /// The default MIME type is the octet-stream fallback.
    fn default() -> (r: MimeType)
        ensures
            r == MimeType::ApplicationOctetStream,
    {
        MimeType::ApplicationOctetStream
    }
}

/// The reason phrase of a status code; unmapped codes read `Unknown`.
pub open spec fn status_reason(code: u16) -> Seq<u8> {
    match code {
        100u16 => "Continue".spec_bytes(),
        101u16 => "Switching Protocols".spec_bytes(),
        102u16 => "Processing".spec_bytes(),
        200u16 => "OK".spec_bytes(),
        201u16 => "Created".spec_bytes(),
        202u16 => "Accepted".spec_bytes(),
        203u16 => "Non-authoritative Information".spec_bytes(),
        204u16 => "No Content".spec_bytes(),
        205u16 => "Reset Content".spec_bytes(),
        206u16 => "Partial Content".spec_bytes(),
        207u16 => "Multi-Status".spec_bytes(),
        300u16 => "Multiple Choices".spec_bytes(),
        301u16 => "Moved Permanently".spec_bytes(),
        302u16 => "Found".spec_bytes(),
        303u16 => "See Other".spec_bytes(),
        304u16 => "Not Modified".spec_bytes(),
        400u16 => "Bad Request".spec_bytes(),
        401u16 => "Unauthorized".spec_bytes(),
        402u16 => "Payment Required".spec_bytes(),
        403u16 => "Forbidden".spec_bytes(),
        404u16 => "Not Found".spec_bytes(),
        418u16 => "I'm a teapot".spec_bytes(),
        500u16 => "Internal Server Error".spec_bytes(),
        501u16 => "Not Implemented".spec_bytes(),
        502u16 => "Bad Gateway".spec_bytes(),
        503u16 => "Service Unavailable".spec_bytes(),
        _ => "Unknown".spec_bytes(),
    }
}

/// Look up the reason phrase of a numeric status code.
pub fn status_code_lookup(code: u16) -> (r: &'static str)
    ensures
        r.spec_bytes() == status_reason(code),
{
    match code {
        100u16 => "Continue",
        101u16 => "Switching Protocols",
        102u16 => "Processing",
        200u16 => "OK",
        201u16 => "Created",
        202u16 => "Accepted",
        203u16 => "Non-authoritative Information",
        204u16 => "No Content",
        205u16 => "Reset Content",
        206u16 => "Partial Content",
        207u16 => "Multi-Status",
        300u16 => "Multiple Choices",
        301u16 => "Moved Permanently",
        302u16 => "Found",
        303u16 => "See Other",
        304u16 => "Not Modified",
        400u16 => "Bad Request",
        401u16 => "Unauthorized",
        402u16 => "Payment Required",
        403u16 => "Forbidden",
        404u16 => "Not Found",
        418u16 => "I'm a teapot",
        500u16 => "Internal Server Error",
        501u16 => "Not Implemented",
        502u16 => "Bad Gateway",
        503u16 => "Service Unavailable",
        _ => "Unknown",
    }
}

} // verus!
