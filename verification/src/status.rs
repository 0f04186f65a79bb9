//! HTTP status codes with their fixed reason phrases.

use vstd::prelude::*;

verus! {

/// The status codes the server knows, each paired with a fixed,
/// non-empty reason phrase.
#[derive(Copy, Clone, Debug, PartialEq, Eq, Structural)]
pub enum StatusCode {
    Continue,
    SwitchingProtocols,
    OK,
    Created,
    Accepted,
    NonAuthoritativeInformation,
    NoContent,
    ResetContent,
    PartialContent,
    MultipleChoices,
    MovedPermanently,
    Found,
    SeeOther,
    NotModified,
    UseProxy,
    TemporaryRedirect,
    BadRequest,
    Unauthorized,
    PaymentRequired,
    Forbidden,
    NotFound,
    MethodNotAllowed,
    NotAcceptable,
    ProxyAuthenticationRequired,
    RequestTimeout,
    Conflict,
    Gone,
    LengthRequired,
    PreconditionFailed,
    PayloadTooLarge,
    URITooLong,
    UnsupportedMediaType,
    RangeNotSatisfiable,
    ExpectationFailed,
    IAmATeapot,
    UpgradeRequired,
    InternalServerError,
    NotImplemented,
    BadGateway,
    ServiceUnavailable,
    GatewayTimeout,
    HTTPVersionNotSupported,
    Processing,
    MultiStatus,
    IMUsed,
    PermanentRedirect,
    UnprocessableEntity,
    Locked,
    FailedDependency,
    PreconditionRequired,
    TooManyRequests,
    RequestHeaderFieldsTooLarge,
    UnavailableForLegalReasons,
    VariantAlsoNegotiates,
    InsufficientStorage,
    NetworkAuthenticationRequired,
}

impl StatusCode {
    /// The numeric code.
    pub open spec fn spec_code(self) -> u16 {
        match self {
            StatusCode::Continue => 100,
            StatusCode::SwitchingProtocols => 101,
            StatusCode::OK => 200,
            StatusCode::Created => 201,
            StatusCode::Accepted => 202,
            StatusCode::NonAuthoritativeInformation => 203,
            StatusCode::NoContent => 204,
            StatusCode::ResetContent => 205,
            StatusCode::PartialContent => 206,
            StatusCode::MultipleChoices => 300,
            StatusCode::MovedPermanently => 301,
            StatusCode::Found => 302,
            StatusCode::SeeOther => 303,
            StatusCode::NotModified => 304,
            StatusCode::UseProxy => 305,
            StatusCode::TemporaryRedirect => 307,
            StatusCode::BadRequest => 400,
            StatusCode::Unauthorized => 401,
            StatusCode::PaymentRequired => 402,
            StatusCode::Forbidden => 403,
            StatusCode::NotFound => 404,
            StatusCode::MethodNotAllowed => 405,
            StatusCode::NotAcceptable => 406,
            StatusCode::ProxyAuthenticationRequired => 407,
            StatusCode::RequestTimeout => 408,
            StatusCode::Conflict => 409,
            StatusCode::Gone => 410,
            StatusCode::LengthRequired => 411,
            StatusCode::PreconditionFailed => 412,
            StatusCode::PayloadTooLarge => 413,
            StatusCode::URITooLong => 414,
            StatusCode::UnsupportedMediaType => 415,
            StatusCode::RangeNotSatisfiable => 416,
            StatusCode::ExpectationFailed => 417,
            StatusCode::IAmATeapot => 418,
            StatusCode::UpgradeRequired => 426,
            StatusCode::InternalServerError => 500,
            StatusCode::NotImplemented => 501,
            StatusCode::BadGateway => 502,
            StatusCode::ServiceUnavailable => 503,
            StatusCode::GatewayTimeout => 504,
            StatusCode::HTTPVersionNotSupported => 505,
            StatusCode::Processing => 102,
            StatusCode::MultiStatus => 207,
            StatusCode::IMUsed => 226,
            StatusCode::PermanentRedirect => 308,
            StatusCode::UnprocessableEntity => 422,
            StatusCode::Locked => 423,
            StatusCode::FailedDependency => 424,
            StatusCode::PreconditionRequired => 428,
            StatusCode::TooManyRequests => 429,
            StatusCode::RequestHeaderFieldsTooLarge => 431,
            StatusCode::UnavailableForLegalReasons => 451,
            StatusCode::VariantAlsoNegotiates => 506,
            StatusCode::InsufficientStorage => 507,
            StatusCode::NetworkAuthenticationRequired => 511,
        }
    }

    /// The reason phrase.
    pub open spec fn spec_phrase(self) -> Seq<char> {
        match self {
            StatusCode::Continue => "Continue"@,
            StatusCode::SwitchingProtocols => "Switching Protocols"@,
            StatusCode::OK => "OK"@,
            StatusCode::Created => "Created"@,
            StatusCode::Accepted => "Accepted"@,
            StatusCode::NonAuthoritativeInformation => "Non-Authoritative Information"@,
            StatusCode::NoContent => "No Content"@,
            StatusCode::ResetContent => "Reset Content"@,
            StatusCode::PartialContent => "Partial Content"@,
            StatusCode::MultipleChoices => "Multiple Choices"@,
            StatusCode::MovedPermanently => "Moved Permanently"@,
            StatusCode::Found => "Found"@,
            StatusCode::SeeOther => "See Other"@,
            StatusCode::NotModified => "Not Modified"@,
            StatusCode::UseProxy => "Use Proxy"@,
            StatusCode::TemporaryRedirect => "Temporary Redirect"@,
            StatusCode::BadRequest => "Bad Request"@,
            StatusCode::Unauthorized => "Unauthorized"@,
            StatusCode::PaymentRequired => "Payment Required"@,
            StatusCode::Forbidden => "Forbidden"@,
            StatusCode::NotFound => "Not Found"@,
            StatusCode::MethodNotAllowed => "Method Not Allowed"@,
            StatusCode::NotAcceptable => "Not Acceptable"@,
            StatusCode::ProxyAuthenticationRequired => "Proxy Authentication Required"@,
            StatusCode::RequestTimeout => "Request Timeout"@,
            StatusCode::Conflict => "Conflict"@,
            StatusCode::Gone => "Gone"@,
            StatusCode::LengthRequired => "Length Required"@,
            StatusCode::PreconditionFailed => "Precondition Failed"@,
            StatusCode::PayloadTooLarge => "Payload Too Large"@,
            StatusCode::URITooLong => "URI Too Long"@,
            StatusCode::UnsupportedMediaType => "Unsupported Media Type"@,
            StatusCode::RangeNotSatisfiable => "Range Not Satisfiable"@,
            StatusCode::ExpectationFailed => "Expectation Failed"@,
            StatusCode::IAmATeapot => "I'm a teapot"@,
            StatusCode::UpgradeRequired => "Upgrade Required"@,
            StatusCode::InternalServerError => "Internal Server Error"@,
            StatusCode::NotImplemented => "Not Implemented"@,
            StatusCode::BadGateway => "Bad Gateway"@,
            StatusCode::ServiceUnavailable => "Service Unavailable"@,
            StatusCode::GatewayTimeout => "Gateway Time-out"@,
            StatusCode::HTTPVersionNotSupported => "HTTP Version Not Supported"@,
            StatusCode::Processing => "Processing"@,
            StatusCode::MultiStatus => "Multi-Status"@,
            StatusCode::IMUsed => "IM Used"@,
            StatusCode::PermanentRedirect => "Permanent Redirect"@,
            StatusCode::UnprocessableEntity => "Unprocessable Entity"@,
            StatusCode::Locked => "Locked"@,
            StatusCode::FailedDependency => "Failed Dependency"@,
            StatusCode::PreconditionRequired => "Precondition Required"@,
            StatusCode::TooManyRequests => "Too Many Requests"@,
            StatusCode::RequestHeaderFieldsTooLarge => "Request Header Fields Too Large"@,
            StatusCode::UnavailableForLegalReasons => "Unavailable For Legal Reasons"@,
            StatusCode::VariantAlsoNegotiates => "Variant Also Negotiates"@,
            StatusCode::InsufficientStorage => "Insufficient Storage"@,
            StatusCode::NetworkAuthenticationRequired => "Network Authentication Required"@,
        }
    }

    /// The numeric code of this status.
    pub fn code(&self) -> (r: u16)
        ensures
            r == self.spec_code(),
    {
        match self {
            StatusCode::Continue => 100,
            StatusCode::SwitchingProtocols => 101,
            StatusCode::OK => 200,
            StatusCode::Created => 201,
            StatusCode::Accepted => 202,
            StatusCode::NonAuthoritativeInformation => 203,
            StatusCode::NoContent => 204,
            StatusCode::ResetContent => 205,
            StatusCode::PartialContent => 206,
            StatusCode::MultipleChoices => 300,
            StatusCode::MovedPermanently => 301,
            StatusCode::Found => 302,
            StatusCode::SeeOther => 303,
            StatusCode::NotModified => 304,
            StatusCode::UseProxy => 305,
            StatusCode::TemporaryRedirect => 307,
            StatusCode::BadRequest => 400,
            StatusCode::Unauthorized => 401,
            StatusCode::PaymentRequired => 402,
            StatusCode::Forbidden => 403,
            StatusCode::NotFound => 404,
            StatusCode::MethodNotAllowed => 405,
            StatusCode::NotAcceptable => 406,
            StatusCode::ProxyAuthenticationRequired => 407,
            StatusCode::RequestTimeout => 408,
            StatusCode::Conflict => 409,
            StatusCode::Gone => 410,
            StatusCode::LengthRequired => 411,
            StatusCode::PreconditionFailed => 412,
            StatusCode::PayloadTooLarge => 413,
            StatusCode::URITooLong => 414,
            StatusCode::UnsupportedMediaType => 415,
            StatusCode::RangeNotSatisfiable => 416,
            StatusCode::ExpectationFailed => 417,
            StatusCode::IAmATeapot => 418,
            StatusCode::UpgradeRequired => 426,
            StatusCode::InternalServerError => 500,
            StatusCode::NotImplemented => 501,
            StatusCode::BadGateway => 502,
            StatusCode::ServiceUnavailable => 503,
            StatusCode::GatewayTimeout => 504,
            StatusCode::HTTPVersionNotSupported => 505,
            StatusCode::Processing => 102,
            StatusCode::MultiStatus => 207,
            StatusCode::IMUsed => 226,
            StatusCode::PermanentRedirect => 308,
            StatusCode::UnprocessableEntity => 422,
            StatusCode::Locked => 423,
            StatusCode::FailedDependency => 424,
            StatusCode::PreconditionRequired => 428,
            StatusCode::TooManyRequests => 429,
            StatusCode::RequestHeaderFieldsTooLarge => 431,
            StatusCode::UnavailableForLegalReasons => 451,
            StatusCode::VariantAlsoNegotiates => 506,
            StatusCode::InsufficientStorage => 507,
            StatusCode::NetworkAuthenticationRequired => 511,
        }
    }

    /// The fixed reason phrase of this status.
    pub fn phrase(&self) -> (r: &'static str)
        ensures
            r@ == self.spec_phrase(),
    {
        match self {
            StatusCode::Continue => "Continue",
            StatusCode::SwitchingProtocols => "Switching Protocols",
            StatusCode::OK => "OK",
            StatusCode::Created => "Created",
            StatusCode::Accepted => "Accepted",
            StatusCode::NonAuthoritativeInformation => "Non-Authoritative Information",
            StatusCode::NoContent => "No Content",
            StatusCode::ResetContent => "Reset Content",
            StatusCode::PartialContent => "Partial Content",
            StatusCode::MultipleChoices => "Multiple Choices",
            StatusCode::MovedPermanently => "Moved Permanently",
            StatusCode::Found => "Found",
            StatusCode::SeeOther => "See Other",
            StatusCode::NotModified => "Not Modified",
            StatusCode::UseProxy => "Use Proxy",
            StatusCode::TemporaryRedirect => "Temporary Redirect",
            StatusCode::BadRequest => "Bad Request",
            StatusCode::Unauthorized => "Unauthorized",
            StatusCode::PaymentRequired => "Payment Required",
            StatusCode::Forbidden => "Forbidden",
            StatusCode::NotFound => "Not Found",
            StatusCode::MethodNotAllowed => "Method Not Allowed",
            StatusCode::NotAcceptable => "Not Acceptable",
            StatusCode::ProxyAuthenticationRequired => "Proxy Authentication Required",
            StatusCode::RequestTimeout => "Request Timeout",
            StatusCode::Conflict => "Conflict",
            StatusCode::Gone => "Gone",
            StatusCode::LengthRequired => "Length Required",
            StatusCode::PreconditionFailed => "Precondition Failed",
            StatusCode::PayloadTooLarge => "Payload Too Large",
            StatusCode::URITooLong => "URI Too Long",
            StatusCode::UnsupportedMediaType => "Unsupported Media Type",
            StatusCode::RangeNotSatisfiable => "Range Not Satisfiable",
            StatusCode::ExpectationFailed => "Expectation Failed",
            StatusCode::IAmATeapot => "I'm a teapot",
            StatusCode::UpgradeRequired => "Upgrade Required",
            StatusCode::InternalServerError => "Internal Server Error",
            StatusCode::NotImplemented => "Not Implemented",
            StatusCode::BadGateway => "Bad Gateway",
            StatusCode::ServiceUnavailable => "Service Unavailable",
            StatusCode::GatewayTimeout => "Gateway Time-out",
            StatusCode::HTTPVersionNotSupported => "HTTP Version Not Supported",
            StatusCode::Processing => "Processing",
            StatusCode::MultiStatus => "Multi-Status",
            StatusCode::IMUsed => "IM Used",
            StatusCode::PermanentRedirect => "Permanent Redirect",
            StatusCode::UnprocessableEntity => "Unprocessable Entity",
            StatusCode::Locked => "Locked",
            StatusCode::FailedDependency => "Failed Dependency",
            StatusCode::PreconditionRequired => "Precondition Required",
            StatusCode::TooManyRequests => "Too Many Requests",
            StatusCode::RequestHeaderFieldsTooLarge => "Request Header Fields Too Large",
            StatusCode::UnavailableForLegalReasons => "Unavailable For Legal Reasons",
            StatusCode::VariantAlsoNegotiates => "Variant Also Negotiates",
            StatusCode::InsufficientStorage => "Insufficient Storage",
            StatusCode::NetworkAuthenticationRequired => "Network Authentication Required",
        }
    }
}

/// Every status code used in the system carries a non-empty reason phrase,
/// and every numeric code lies in the registered range.
pub proof fn lemma_phrase_nonempty(c: StatusCode)
    ensures
        c.spec_phrase().len() > 0,
        100 <= c.spec_code() < 600,
{
    match c {
        StatusCode::Continue => { reveal_strlit("Continue"); },
        StatusCode::SwitchingProtocols => { reveal_strlit("Switching Protocols"); },
        StatusCode::OK => { reveal_strlit("OK"); },
        StatusCode::Created => { reveal_strlit("Created"); },
        StatusCode::Accepted => { reveal_strlit("Accepted"); },
        StatusCode::NonAuthoritativeInformation => { reveal_strlit("Non-Authoritative Information"); },
        StatusCode::NoContent => { reveal_strlit("No Content"); },
        StatusCode::ResetContent => { reveal_strlit("Reset Content"); },
        StatusCode::PartialContent => { reveal_strlit("Partial Content"); },
        StatusCode::MultipleChoices => { reveal_strlit("Multiple Choices"); },
        StatusCode::MovedPermanently => { reveal_strlit("Moved Permanently"); },
        StatusCode::Found => { reveal_strlit("Found"); },
        StatusCode::SeeOther => { reveal_strlit("See Other"); },
        StatusCode::NotModified => { reveal_strlit("Not Modified"); },
        StatusCode::UseProxy => { reveal_strlit("Use Proxy"); },
        StatusCode::TemporaryRedirect => { reveal_strlit("Temporary Redirect"); },
        StatusCode::BadRequest => { reveal_strlit("Bad Request"); },
        StatusCode::Unauthorized => { reveal_strlit("Unauthorized"); },
        StatusCode::PaymentRequired => { reveal_strlit("Payment Required"); },
        StatusCode::Forbidden => { reveal_strlit("Forbidden"); },
        StatusCode::NotFound => { reveal_strlit("Not Found"); },
        StatusCode::MethodNotAllowed => { reveal_strlit("Method Not Allowed"); },
        StatusCode::NotAcceptable => { reveal_strlit("Not Acceptable"); },
        StatusCode::ProxyAuthenticationRequired => { reveal_strlit("Proxy Authentication Required"); },
        StatusCode::RequestTimeout => { reveal_strlit("Request Timeout"); },
        StatusCode::Conflict => { reveal_strlit("Conflict"); },
        StatusCode::Gone => { reveal_strlit("Gone"); },
        StatusCode::LengthRequired => { reveal_strlit("Length Required"); },
        StatusCode::PreconditionFailed => { reveal_strlit("Precondition Failed"); },
        StatusCode::PayloadTooLarge => { reveal_strlit("Payload Too Large"); },
        StatusCode::URITooLong => { reveal_strlit("URI Too Long"); },
        StatusCode::UnsupportedMediaType => { reveal_strlit("Unsupported Media Type"); },
        StatusCode::RangeNotSatisfiable => { reveal_strlit("Range Not Satisfiable"); },
        StatusCode::ExpectationFailed => { reveal_strlit("Expectation Failed"); },
        StatusCode::IAmATeapot => { reveal_strlit("I'm a teapot"); },
        StatusCode::UpgradeRequired => { reveal_strlit("Upgrade Required"); },
        StatusCode::InternalServerError => { reveal_strlit("Internal Server Error"); },
        StatusCode::NotImplemented => { reveal_strlit("Not Implemented"); },
        StatusCode::BadGateway => { reveal_strlit("Bad Gateway"); },
        StatusCode::ServiceUnavailable => { reveal_strlit("Service Unavailable"); },
        StatusCode::GatewayTimeout => { reveal_strlit("Gateway Time-out"); },
        StatusCode::HTTPVersionNotSupported => { reveal_strlit("HTTP Version Not Supported"); },
        StatusCode::Processing => { reveal_strlit("Processing"); },
        StatusCode::MultiStatus => { reveal_strlit("Multi-Status"); },
        StatusCode::IMUsed => { reveal_strlit("IM Used"); },
        StatusCode::PermanentRedirect => { reveal_strlit("Permanent Redirect"); },
        StatusCode::UnprocessableEntity => { reveal_strlit("Unprocessable Entity"); },
        StatusCode::Locked => { reveal_strlit("Locked"); },
        StatusCode::FailedDependency => { reveal_strlit("Failed Dependency"); },
        StatusCode::PreconditionRequired => { reveal_strlit("Precondition Required"); },
        StatusCode::TooManyRequests => { reveal_strlit("Too Many Requests"); },
        StatusCode::RequestHeaderFieldsTooLarge => { reveal_strlit("Request Header Fields Too Large"); },
        StatusCode::UnavailableForLegalReasons => { reveal_strlit("Unavailable For Legal Reasons"); },
        StatusCode::VariantAlsoNegotiates => { reveal_strlit("Variant Also Negotiates"); },
        StatusCode::InsufficientStorage => { reveal_strlit("Insufficient Storage"); },
        StatusCode::NetworkAuthenticationRequired => { reveal_strlit("Network Authentication Required"); },
    }
}

/// Reason phrases are plain ASCII text with no line breaks.
pub proof fn lemma_phrase_wf(c: StatusCode)
    ensures
        vstd::utf8::is_ascii_chars(c.spec_phrase()),
        c.spec_phrase().len() > 0,
        forall|i: int|
            0 <= i < c.spec_phrase().len() ==> (#[trigger] c.spec_phrase()[i]) != '\r'
                && c.spec_phrase()[i] != '\n',
{
    match c {
        StatusCode::Continue => { reveal_strlit("Continue"); },
        StatusCode::SwitchingProtocols => { reveal_strlit("Switching Protocols"); },
        StatusCode::OK => { reveal_strlit("OK"); },
        StatusCode::Created => { reveal_strlit("Created"); },
        StatusCode::Accepted => { reveal_strlit("Accepted"); },
        StatusCode::NonAuthoritativeInformation => { reveal_strlit("Non-Authoritative Information"); },
        StatusCode::NoContent => { reveal_strlit("No Content"); },
        StatusCode::ResetContent => { reveal_strlit("Reset Content"); },
        StatusCode::PartialContent => { reveal_strlit("Partial Content"); },
        StatusCode::MultipleChoices => { reveal_strlit("Multiple Choices"); },
        StatusCode::MovedPermanently => { reveal_strlit("Moved Permanently"); },
        StatusCode::Found => { reveal_strlit("Found"); },
        StatusCode::SeeOther => { reveal_strlit("See Other"); },
        StatusCode::NotModified => { reveal_strlit("Not Modified"); },
        StatusCode::UseProxy => { reveal_strlit("Use Proxy"); },
        StatusCode::TemporaryRedirect => { reveal_strlit("Temporary Redirect"); },
        StatusCode::BadRequest => { reveal_strlit("Bad Request"); },
        StatusCode::Unauthorized => { reveal_strlit("Unauthorized"); },
        StatusCode::PaymentRequired => { reveal_strlit("Payment Required"); },
        StatusCode::Forbidden => { reveal_strlit("Forbidden"); },
        StatusCode::NotFound => { reveal_strlit("Not Found"); },
        StatusCode::MethodNotAllowed => { reveal_strlit("Method Not Allowed"); },
        StatusCode::NotAcceptable => { reveal_strlit("Not Acceptable"); },
        StatusCode::ProxyAuthenticationRequired => { reveal_strlit("Proxy Authentication Required"); },
        StatusCode::RequestTimeout => { reveal_strlit("Request Timeout"); },
        StatusCode::Conflict => { reveal_strlit("Conflict"); },
        StatusCode::Gone => { reveal_strlit("Gone"); },
        StatusCode::LengthRequired => { reveal_strlit("Length Required"); },
        StatusCode::PreconditionFailed => { reveal_strlit("Precondition Failed"); },
        StatusCode::PayloadTooLarge => { reveal_strlit("Payload Too Large"); },
        StatusCode::URITooLong => { reveal_strlit("URI Too Long"); },
        StatusCode::UnsupportedMediaType => { reveal_strlit("Unsupported Media Type"); },
        StatusCode::RangeNotSatisfiable => { reveal_strlit("Range Not Satisfiable"); },
        StatusCode::ExpectationFailed => { reveal_strlit("Expectation Failed"); },
        StatusCode::IAmATeapot => { reveal_strlit("I'm a teapot"); },
        StatusCode::UpgradeRequired => { reveal_strlit("Upgrade Required"); },
        StatusCode::InternalServerError => { reveal_strlit("Internal Server Error"); },
        StatusCode::NotImplemented => { reveal_strlit("Not Implemented"); },
        StatusCode::BadGateway => { reveal_strlit("Bad Gateway"); },
        StatusCode::ServiceUnavailable => { reveal_strlit("Service Unavailable"); },
        StatusCode::GatewayTimeout => { reveal_strlit("Gateway Time-out"); },
        StatusCode::HTTPVersionNotSupported => { reveal_strlit("HTTP Version Not Supported"); },
        StatusCode::Processing => { reveal_strlit("Processing"); },
        StatusCode::MultiStatus => { reveal_strlit("Multi-Status"); },
        StatusCode::IMUsed => { reveal_strlit("IM Used"); },
        StatusCode::PermanentRedirect => { reveal_strlit("Permanent Redirect"); },
        StatusCode::UnprocessableEntity => { reveal_strlit("Unprocessable Entity"); },
        StatusCode::Locked => { reveal_strlit("Locked"); },
        StatusCode::FailedDependency => { reveal_strlit("Failed Dependency"); },
        StatusCode::PreconditionRequired => { reveal_strlit("Precondition Required"); },
        StatusCode::TooManyRequests => { reveal_strlit("Too Many Requests"); },
        StatusCode::RequestHeaderFieldsTooLarge => { reveal_strlit("Request Header Fields Too Large"); },
        StatusCode::UnavailableForLegalReasons => { reveal_strlit("Unavailable For Legal Reasons"); },
        StatusCode::VariantAlsoNegotiates => { reveal_strlit("Variant Also Negotiates"); },
        StatusCode::InsufficientStorage => { reveal_strlit("Insufficient Storage"); },
        StatusCode::NetworkAuthenticationRequired => { reveal_strlit("Network Authentication Required"); },
    }
}

} // verus!
