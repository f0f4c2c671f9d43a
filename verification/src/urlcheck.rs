//! The URL validator: parsing through the URL primitive, then an
//! eight-way classification with one error class per failure.

use vstd::prelude::*;
use crate::args::is_tok;

verus! {

/// The pieces of a parsed absolute URL that validation reads: the
/// re-serialized text, the scheme, whether a host is present, and the
/// explicit port if one is kept (a scheme's default port is dropped by
/// the parser, and a kept port is never the default).
#[derive(Debug, PartialEq, Eq)]
pub struct UrlParts {
    pub text: String,
    pub scheme: String,
    pub has_host: bool,
    pub port: Option<u16>,
}

/// The model of the parsed pieces.
pub struct UrlPartsModel {
    pub text: Seq<char>,
    pub scheme: Seq<char>,
    pub has_host: bool,
    pub port: Option<u16>,
}

impl View for UrlParts {
    type V = UrlPartsModel;

    open spec fn view(&self) -> UrlPartsModel {
        UrlPartsModel {
            text: self.text@,
            scheme: self.scheme@,
            has_host: self.has_host,
            port: self.port,
        }
    }
}

/// How the URL primitive can fail to parse at all.
#[derive(Clone, Copy, PartialEq, Eq, Structural, Debug)]
pub enum UrlParseFailure {
    /// A malformed IPv4 literal stood in host position.
    BadIpv4,
    /// A malformed IPv6 literal stood in host position.
    BadIpv6,
    /// The port syntax was bad or the number out of range.
    BadPort,
    /// The string looks relative: no scheme and no authority.
    NoBase,
    /// Any other parse failure.
    OtherFailure,
}

/// The validator's error classes, one fixed user-facing message each.
#[derive(Clone, Copy, PartialEq, Eq, Structural, Debug)]
pub enum UrlError {
    InvalidProtocol,
    InvalidIpv4,
    InvalidIpv6,
    InvalidPort,
    MissingHost,
    RelativeWithoutBase,
    /// Any other parse failure: reported as "no valid host".
    Other,
}

/// The model of the parse wrapper's result.
pub open spec fn parse_result_view(
    r: Result<UrlParts, UrlParseFailure>,
) -> Result<UrlPartsModel, UrlParseFailure> {
    match r {
        Ok(p) => Ok(p@),
        Err(e) => Err(e),
    }
}

/// What the URL primitive answers on a given string; a function of the
/// string alone.
pub uninterp spec fn url_parse_of(s: Seq<char>) -> Result<UrlPartsModel, UrlParseFailure>;

/// Relies on url::Url::parse, and on the parsed URL's accessors as_str,
/// scheme, host and port: which absolute URLs parse, how a parse
/// failure is classified, and which pieces come back depend on the
/// string alone. host() is None exactly when the URL has no host;
/// port() is the explicit non-default port, if any.
#[verifier::external_body]
fn parse_url(s: &str) -> (r: Result<UrlParts, UrlParseFailure>)
    ensures
        parse_result_view(r) == url_parse_of(s@),
{
    match url::Url::parse(s) {
        Ok(u) => Ok(UrlParts {
            text: u.as_str().to_owned(),
            scheme: u.scheme().to_owned(),
            has_host: u.host().is_some(),
            port: u.port(),
        }),
        Err(url::ParseError::InvalidIpv4Address) => Err(UrlParseFailure::BadIpv4),
        Err(url::ParseError::InvalidIpv6Address) => Err(UrlParseFailure::BadIpv6),
        Err(url::ParseError::InvalidPort) => Err(UrlParseFailure::BadPort),
        Err(url::ParseError::RelativeUrlWithoutBase) => Err(UrlParseFailure::NoBase),
        Err(_) => Err(UrlParseFailure::OtherFailure),
    }
}

/// The eight-way classification: parse failures keep their class, then
/// the scheme must be exactly http or https, a host must be present,
/// and an explicit port must not be zero.
pub open spec fn classify(p: Result<UrlPartsModel, UrlParseFailure>) -> Result<
    UrlPartsModel,
    UrlError,
> {
    match p {
        Err(UrlParseFailure::BadIpv4) => Err(UrlError::InvalidIpv4),
        Err(UrlParseFailure::BadIpv6) => Err(UrlError::InvalidIpv6),
        Err(UrlParseFailure::BadPort) => Err(UrlError::InvalidPort),
        Err(UrlParseFailure::NoBase) => Err(UrlError::RelativeWithoutBase),
        Err(UrlParseFailure::OtherFailure) => Err(UrlError::Other),
        Ok(u) => {
            if u.scheme != "http"@ && u.scheme != "https"@ {
                Err(UrlError::InvalidProtocol)
            } else if !u.has_host {
                Err(UrlError::MissingHost)
            } else if u.port == Some(0u16) {
                Err(UrlError::InvalidPort)
            } else {
                Ok(u)
            }
        },
    }
}

/// A URL descriptor only the validator builds: scheme http or https, a
/// host present, and no zero port.
#[derive(Debug, PartialEq, Eq)]
pub struct ValidatedUrl {
    pub parts: UrlParts,
}

impl ValidatedUrl {
    /// The guarantee every validated URL carries.
    pub open spec fn wf(&self) -> bool {
        (self.parts@.scheme == "http"@ || self.parts@.scheme == "https"@) && self.parts@.has_host
            && self.parts@.port != Some(0u16)
    }

    /// The validated URL's text, as the parser re-serialized it.
    pub fn as_text(&self) -> (r: &str)
        ensures
            r@ == self.parts@.text,
    {
        self.parts.text.as_str()
    }
}

/// The model of the validator's result.
pub open spec fn validate_view(r: Result<ValidatedUrl, UrlError>) -> Result<
    UrlPartsModel,
    UrlError,
> {
    match r {
        Ok(v) => Ok(v.parts@),
        Err(e) => Err(e),
    }
}

/// Classifies an already-parsed answer, exactly as `classify` says; a
/// successful answer is wrapped as a `ValidatedUrl`.
pub fn classify_parse(p: Result<UrlParts, UrlParseFailure>) -> (r: Result<ValidatedUrl, UrlError>)
    ensures
        validate_view(r) == classify(parse_result_view(p)),
        r matches Ok(v) ==> v.wf(),
{
    match p {
        Err(UrlParseFailure::BadIpv4) => Err(UrlError::InvalidIpv4),
        Err(UrlParseFailure::BadIpv6) => Err(UrlError::InvalidIpv6),
        Err(UrlParseFailure::BadPort) => Err(UrlError::InvalidPort),
        Err(UrlParseFailure::NoBase) => Err(UrlError::RelativeWithoutBase),
        Err(UrlParseFailure::OtherFailure) => Err(UrlError::Other),
        Ok(parts) => {
            let http = is_tok(&parts.scheme, "http");
            let https = is_tok(&parts.scheme, "https");
            if !http && !https {
                Err(UrlError::InvalidProtocol)
            } else if !parts.has_host {
                Err(UrlError::MissingHost)
            } else if matches!(parts.port, Some(0u16)) {
                Err(UrlError::InvalidPort)
            } else {
                Ok(ValidatedUrl { parts })
            }
        },
    }
}

/// Validates a URL string: parses it through the URL primitive and
/// classifies the answer. No network traffic is involved.
pub fn validate_url(s: &str) -> (r: Result<ValidatedUrl, UrlError>)
    ensures
        validate_view(r) == classify(url_parse_of(s@)),
        r matches Ok(v) ==> v.wf(),
{
    classify_parse(parse_url(s))
}

/// Every parsed URL with scheme http or https, a host, and no zero
/// port is accepted.
pub proof fn lemma_validator_accepts(u: UrlPartsModel)
    requires
        u.scheme == "http"@ || u.scheme == "https"@,
        u.has_host,
        u.port matches Some(p) ==> p != 0,
    ensures
        classify(Ok(u)) == Ok::<UrlPartsModel, UrlError>(u),
{
}

/// A parsed URL whose scheme is neither http nor https is rejected as
/// an invalid protocol; a string without a base is rejected as
/// relative. Either way no URL with a foreign scheme passes.
pub proof fn lemma_validator_rejects_scheme(p: Result<UrlPartsModel, UrlParseFailure>)
    requires
        (p matches Ok(u) && u.scheme != "http"@ && u.scheme != "https"@) || p == Err::<
            UrlPartsModel,
            UrlParseFailure,
        >(UrlParseFailure::NoBase),
    ensures
        classify(p) == Err::<UrlPartsModel, UrlError>(UrlError::InvalidProtocol) || classify(p)
            == Err::<UrlPartsModel, UrlError>(UrlError::RelativeWithoutBase),
{
}

/// A zero port is rejected as an invalid port whenever scheme and host
/// pass, whatever the host is; and a port the parser itself refused is
/// rejected the same way.
pub proof fn lemma_validator_rejects_port_zero(u: UrlPartsModel)
    requires
        u.scheme == "http"@ || u.scheme == "https"@,
        u.has_host,
        u.port == Some(0u16),
    ensures
        classify(Ok(u)) == Err::<UrlPartsModel, UrlError>(UrlError::InvalidPort),
        classify(Err(UrlParseFailure::BadPort)) == Err::<UrlPartsModel, UrlError>(
            UrlError::InvalidPort,
        ),
{
}

} // verus!
