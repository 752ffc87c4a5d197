//! The referring site of a request, read from its `Referer` header.
//!
//! The header is parsed as a URL by the `url` crate. Whether that crate
//! accepts a text, and which domain it finds in it, is named here and not
//! defined; what is done with its answer is proved.

use vstd::prelude::*;
use vstd::string::StringExecFns;
use vstd::utf8::{decode_utf8, valid_utf8};

verus! {

/// Why a request names no referring site.
#[derive(Clone, Copy, Debug, PartialEq, Eq, Structural)]
pub enum ReferrerError {
    /// The request has no `Referer` header.
    Missing,
    /// The header is not UTF-8 text.
    NotUtf8,
    /// The header is not an absolute URL.
    InvalidUrl,
    /// The URL's host is not a domain name.
    NoDomain,
}

impl ReferrerError {
    /// The error in words.
    pub fn message(&self) -> (text: String)
        ensures
            text@ == (match *self {
                ReferrerError::Missing => "no referrer header"@,
                ReferrerError::NotUtf8 => "referrer header is not valid utf-8 string"@,
                ReferrerError::InvalidUrl => "referrer header is not valid URL"@,
                ReferrerError::NoDomain => "referrer header doesn't contains a valid domain"@,
            }),
    {
        match self {
            ReferrerError::Missing => String::from_str("no referrer header"),
            ReferrerError::NotUtf8 => String::from_str("referrer header is not valid utf-8 string"),
            ReferrerError::InvalidUrl => String::from_str("referrer header is not valid URL"),
            ReferrerError::NoDomain => String::from_str(
                "referrer header doesn't contains a valid domain",
            ),
        }
    }
}

/// The error of the `url` crate's parser.
#[verifier::external_type_specification]
#[verifier::external_body]
pub struct ExParseError(url::ParseError);

/// Whether `Url::parse` accepts the text as an absolute URL.
pub uninterp spec fn url_parses(text: Seq<char>) -> bool;

/// What `Url::domain` gives for the URL parsed from the text: its host
/// where that is a domain name.
pub uninterp spec fn url_domain(text: Seq<char>) -> Option<Seq<char>>;

/// `Url::parse` on the text, and `Url::domain` of the result: the call
/// fails exactly when the text is not accepted as a URL, and gives the
/// URL's host where that is a domain name.
#[verifier::external_body]
fn parse_domain(text: &str) -> (parsed: Result<Option<String>, url::ParseError>)
    ensures
        parsed is Ok <==> url_parses(text@),
        parsed matches Ok(found) ==> (match found {
            Some(domain) => url_domain(text@) == Some(domain@),
            None => url_domain(text@) is None,
        }),
{
    match url::Url::parse(text) {
        Ok(parsed) => match parsed.domain() {
            Some(domain) => Ok(Some(domain.to_string())),
            None => Ok(None),
        },
        Err(refused) => Err(refused),
    }
}

/// `String::from_utf8` of the standard library: the text that the bytes
/// encode, where they are valid UTF-8.
#[verifier::external_body]
fn text_from_utf8(bytes: Vec<u8>) -> (text: Option<String>)
    ensures
        text is Some <==> valid_utf8(bytes@),
        text matches Some(decoded) ==> decoded@ == decode_utf8(bytes@),
{
    match String::from_utf8(bytes) {
        Ok(decoded) => Some(decoded),
        Err(_) => None,
    }
}

/// The domain of the URL that `text` holds.
pub open spec fn domain_of_url(text: Seq<char>) -> Result<Seq<char>, ReferrerError> {
    if !url_parses(text) {
        Err(ReferrerError::InvalidUrl)
    } else {
        match url_domain(text) {
            Some(domain) => Ok(domain),
            None => Err(ReferrerError::NoDomain),
        }
    }
}

/// The referring domain that a `Referer` header names.
pub open spec fn referrer_domain(header: Option<Seq<u8>>) -> Result<Seq<char>, ReferrerError> {
    match header {
        None => Err(ReferrerError::Missing),
        Some(bytes) => if valid_utf8(bytes) {
            domain_of_url(decode_utf8(bytes))
        } else {
            Err(ReferrerError::NotUtf8)
        },
    }
}

/// The text of a result.
pub open spec fn text_of(outcome: Result<String, ReferrerError>) -> Result<Seq<char>, ReferrerError> {
    match outcome {
        Ok(domain) => Ok(domain@),
        Err(error) => Err(error),
    }
}

/// The bytes of a header.
pub open spec fn bytes_of(header: Option<Vec<u8>>) -> Option<Seq<u8>> {
    match header {
        Some(bytes) => Some(bytes@),
        None => None,
    }
}

/// What the parser's answer means for the request: its domain, or why
/// there is none.
pub fn settle_domain(parsed: Result<Option<String>, url::ParseError>) -> (outcome: Result<
    String,
    ReferrerError,
>)
    ensures
        text_of(outcome) == (match parsed {
            Ok(Some(domain)) => Ok::<Seq<char>, ReferrerError>(domain@),
            Ok(None) => Err(ReferrerError::NoDomain),
            Err(_) => Err(ReferrerError::InvalidUrl),
        }),
{
    match parsed {
        Ok(Some(domain)) => Ok(domain),
        Ok(None) => Err(ReferrerError::NoDomain),
        Err(_) => Err(ReferrerError::InvalidUrl),
    }
}

/// Reads the referring domain from the bytes of a `Referer` header.
pub fn get_domain_from_referrer(header: Option<Vec<u8>>) -> (outcome: Result<String, ReferrerError>)
    ensures
        text_of(outcome) == referrer_domain(bytes_of(header)),
{
    let bytes = match header {
        Some(bytes) => bytes,
        None => {
            return Err(ReferrerError::Missing);
        },
    };
    let text = match text_from_utf8(bytes) {
        Some(text) => text,
        None => {
            return Err(ReferrerError::NotUtf8);
        },
    };
    settle_domain(parse_domain(text.as_str()))
}

} // verus!
