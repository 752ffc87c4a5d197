use naive::app_error::{AppError, UserRepoError, NOT_FOUND, UNPROCESSABLE_ENTITY};
use naive::app_model::VisitorType;
use naive::app_router::badge_request;
use naive::referrer::{get_domain_from_referrer, settle_domain, ReferrerError};

fn header(text: &str) -> Option<Vec<u8>> {
    Some(text.as_bytes().to_vec())
}

#[test]
fn a_request_without_header_names_no_referrer() {
    assert_eq!(get_domain_from_referrer(None), Err(ReferrerError::Missing));
    assert_eq!(ReferrerError::Missing.message(), "no referrer header");
}

#[test]
fn a_header_that_is_not_text_names_no_referrer() {
    assert_eq!(get_domain_from_referrer(Some(vec![0x68, 0xff, 0xfe])), Err(ReferrerError::NotUtf8));
    assert_eq!(get_domain_from_referrer(Some(vec![0xc3])), Err(ReferrerError::NotUtf8));
    assert_eq!(ReferrerError::NotUtf8.message(), "referrer header is not valid utf-8 string");
}

#[test]
fn a_header_that_is_no_url_names_no_referrer() {
    assert_eq!(get_domain_from_referrer(header("not a url")), Err(ReferrerError::InvalidUrl));
    assert_eq!(get_domain_from_referrer(header("")), Err(ReferrerError::InvalidUrl));
    assert_eq!(get_domain_from_referrer(header("/relative/path")), Err(ReferrerError::InvalidUrl));
    assert_eq!(ReferrerError::InvalidUrl.message(), "referrer header is not valid URL");
}

#[test]
fn a_url_without_domain_names_no_referrer() {
    assert_eq!(get_domain_from_referrer(header("https://127.0.0.1/")), Err(ReferrerError::NoDomain));
    assert_eq!(
        get_domain_from_referrer(header("mailto:rms@example.net")),
        Err(ReferrerError::NoDomain)
    );
    assert_eq!(
        ReferrerError::NoDomain.message(),
        "referrer header doesn't contains a valid domain"
    );
}

#[test]
fn the_domain_of_the_referring_url_is_read() {
    assert_eq!(
        get_domain_from_referrer(header("https://example.com/path?x=1#top")),
        Ok("example.com".to_string())
    );
    assert_eq!(
        get_domain_from_referrer(header("http://Blog.Example.ORG:8080/")),
        Ok("blog.example.org".to_string())
    );
    assert_eq!(
        get_domain_from_referrer(header("https://sub.domain.example.net")),
        Ok("sub.domain.example.net".to_string())
    );
}

#[test]
fn the_answer_of_the_parser_is_settled() {
    assert_eq!(settle_domain(Ok(Some("example.com".to_string()))), Ok("example.com".to_string()));
    assert_eq!(settle_domain(Ok(None)), Err(ReferrerError::NoDomain));
    assert_eq!(settle_domain(Err(url::ParseError::EmptyHost)), Err(ReferrerError::InvalidUrl));
    assert_eq!(
        settle_domain(Err(url::ParseError::RelativeUrlWithoutBase)),
        Err(ReferrerError::InvalidUrl)
    );
}

#[test]
fn a_site_that_shows_its_own_badge_gets_a_badge_visit() {
    assert_eq!(
        badge_request("a.example".to_string(), "a.example".to_string()),
        (VisitorType::Badge, "a.example".to_string())
    );
}

#[test]
fn a_badge_asked_for_by_the_mark_belongs_to_the_referrer() {
    assert_eq!(
        badge_request("[domain]".to_string(), "a.example".to_string()),
        (VisitorType::Badge, "a.example".to_string())
    );
    assert_eq!(
        badge_request("[domain]".to_string(), "".to_string()),
        (VisitorType::Badge, "".to_string())
    );
    assert_eq!(
        badge_request("[domain]".to_string(), "[domain]".to_string()),
        (VisitorType::Badge, "[domain]".to_string())
    );
}

#[test]
fn a_badge_shown_elsewhere_is_an_icon_visit() {
    assert_eq!(
        badge_request("a.example".to_string(), "b.example".to_string()),
        (VisitorType::ICON, "a.example".to_string())
    );
    assert_eq!(
        badge_request("a.example".to_string(), "".to_string()),
        (VisitorType::ICON, "a.example".to_string())
    );
}

#[test]
fn errors_have_a_status_and_a_message() {
    let missing = AppError::from(UserRepoError::NotFound);
    assert_eq!(missing, AppError::UserRepo(UserRepoError::NotFound));
    assert_eq!(missing.status_code(), 404);
    assert_eq!(missing.status_code(), NOT_FOUND);
    assert_eq!(missing.error_message(), "User not found");
    let invalid: AppError = UserRepoError::InvalidUsername.into();
    assert_eq!(invalid.status_code(), 422);
    assert_eq!(invalid.status_code(), UNPROCESSABLE_ENTITY);
    assert_eq!(invalid.error_message(), "Invalid username");
}
