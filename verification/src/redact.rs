//! What live subscribers hear of a visit: the visitor's address with its
//! middle masked, the country, and the member without its private fields.
//!
//! The masking is done by regular expressions of the `regex` crate. What a
//! pattern makes of a text is that crate's word and is named here, not
//! defined; the rest is proved.

use crate::membership_model::{Membership, MembershipView};
use vstd::prelude::*;
use vstd::string::StringExecFns;

verus! {

/// Pattern for a dotted address: what stands between the first and the
/// last group of digits is masked.
pub const IPV4_MASK: &'static str = "(\\d*\\.).*(\\.\\d*)";

/// Pattern for a colon-separated address: what stands between the first
/// two and the last two groups is masked.
pub const IPV6_MASK: &'static str = "(\\w*:\\w*:).*(:\\w*:\\w*)";

/// What takes the place of a match: its first group, the mask, its second
/// group.
pub const MASK_TEMPLATE: &'static str = "$1****$2";

/// The text that stands for an address of which nothing may be shown.
pub const MASK_ALL: &'static str = "****";

/// The error of the `regex` crate.
#[verifier::external_type_specification]
#[verifier::external_body]
pub struct ExRegexError(regex::Error);

/// Whether `Regex::new` accepts the pattern.
pub uninterp spec fn regex_compiles(pattern: Seq<char>) -> bool;

/// What `Regex::replace_all` of the compiled pattern makes of `text` with
/// the given replacement.
pub uninterp spec fn regex_replace_all(
    pattern: Seq<char>,
    text: Seq<char>,
    replacement: Seq<char>,
) -> Seq<char>;

/// `Regex::new` on the pattern, and `Regex::replace_all` of the result on
/// `text`: the call fails exactly when the pattern is not accepted, and
/// gives the text with every match replaced as the template says.
#[verifier::external_body]
fn replace_all(pattern: &str, text: &str, replacement: &str) -> (outcome: Result<
    String,
    regex::Error,
>)
    ensures
        outcome is Ok <==> regex_compiles(pattern@),
        outcome matches Ok(replaced) ==> replaced@ == regex_replace_all(
            pattern@,
            text@,
            replacement@,
        ),
{
    match regex::Regex::new(pattern) {
        Ok(compiled) => Ok(compiled.replace_all(text, replacement).into_owned()),
        Err(refused) => Err(refused),
    }
}

/// The text that a masking pattern leaves of `text`: nothing but the mask
/// where the pattern is not accepted.
pub open spec fn pattern_applied(pattern: Seq<char>, text: Seq<char>) -> Seq<char> {
    if regex_compiles(pattern) {
        regex_replace_all(pattern, text, MASK_TEMPLATE@)
    } else {
        MASK_ALL@
    }
}

/// An address as subscribers see it: masked as a dotted address, and what
/// that gives masked as a colon-separated one.
pub open spec fn masked_ip(ip: Seq<char>) -> Seq<char> {
    pattern_applied(IPV6_MASK@, pattern_applied(IPV4_MASK@, ip))
}

/// The masked text, or the bare mask where masking failed: an address is
/// never passed on unmasked.
pub fn masked_or_hidden(outcome: Result<String, regex::Error>) -> (text: String)
    ensures
        text@ == (match outcome {
            Ok(masked) => masked@,
            Err(_) => MASK_ALL@,
        }),
{
    match outcome {
        Ok(masked) => masked,
        Err(_) => String::from_str(MASK_ALL),
    }
}

/// Masks a visitor's address.
pub fn mask_ip(ip: &str) -> (masked: String)
    ensures
        masked@ == masked_ip(ip@),
{
    let dotted = masked_or_hidden(replace_all(IPV4_MASK, ip, MASK_TEMPLATE));
    masked_or_hidden(replace_all(IPV6_MASK, dotted.as_str(), MASK_TEMPLATE))
}

/// The summary of a visit that goes out to live subscribers.
#[derive(Clone, Debug)]
pub struct VisitEvent {
    pub ip: String,
    pub country: String,
    pub member: Membership,
}

/// A visit event as contracts see it.
pub struct VisitEventView {
    pub ip: Seq<char>,
    pub country: Seq<char>,
    pub member: MembershipView,
}

impl View for VisitEvent {
    type V = VisitEventView;

    open spec fn view(&self) -> VisitEventView {
        VisitEventView { ip: self.ip@, country: self.country@, member: self.member@ }
    }
}

/// The event that announces a visit from `ip` in `country` to `member`.
pub open spec fn event_of(ip: Seq<char>, country: Seq<char>, member: MembershipView) -> VisitEventView {
    VisitEventView { ip: masked_ip(ip), country, member: member.redacted() }
}

/// Puts an event together from an address that is already masked.
pub fn visit_event(masked: String, country: &str, member: &Membership) -> (event: VisitEvent)
    ensures
        event@ == (VisitEventView { ip: masked@, country: country@, member: member@.redacted() }),
{
    VisitEvent { ip: masked, country: String::from_str(country), member: member.redacted() }
}

/// The event that announces a visit: the address masked, the member
/// without its private fields.
pub fn announce(ip: &str, country: &str, member: &Membership) -> (event: VisitEvent)
    ensures
        event@ == event_of(ip@, country@, member@),
{
    visit_event(mask_ip(ip), country, member)
}

} // verus!
