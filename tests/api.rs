use jmap_cluster::api::{
    Redirect, RequestError, RequestErrorType, RequestLimitError, StateChangeResponse, StateChangeType,
};
use jmap_cluster::store::{BaseId, Comparator, Language, TextQuery};

#[test]
fn not_found_is_blank_404() {
    let e = RequestError::not_found();
    assert_eq!(e.status, 404);
    assert_eq!(e.p_type, RequestErrorType::Other);
    assert_eq!(e.title.as_deref(), Some("Not Found"));
    assert_eq!(e.detail, "The requested resource does not exist on this server.");
    assert!(e.limit.is_none());
}

#[test]
fn limit_error_carries_kind() {
    let e = RequestError::limit(RequestLimitError::CallsIn);
    assert_eq!(e.status, 400);
    assert_eq!(e.p_type, RequestErrorType::Limit);
    assert!(e.title.is_none());
    assert_eq!(
        e.detail,
        "The request exceeds the maximum number of calls in a single request."
    );
    assert_eq!(e.limit, Some(RequestLimitError::CallsIn));
}

#[test]
fn unknown_capability_names_it() {
    let e = RequestError::unknown_capability("urn:x");
    assert_eq!(e.p_type, RequestErrorType::UnknownCapability);
    assert_eq!(
        e.detail,
        "The Request object used capability 'urn:x', which is not supportedby this server."
    );
}

#[test]
fn redirects() {
    let t = Redirect::temporary("/a".to_string());
    assert!(!t.is_permament);
    assert_eq!(t.status(), 307);
    let p = Redirect::permanent("/b".to_string());
    assert!(p.is_permament);
    assert_eq!(p.status(), 308);
    assert_eq!(p.to_string(), "/b");
}

#[test]
fn blank_errors_have_titles() {
    let e = RequestError::internal_server_error();
    assert_eq!(e.status, 500);
    assert_eq!(e.title.as_deref(), Some("Internal Server Error"));
    assert_eq!(
        e.to_string(),
        "There was a problem while processing your request. Please contact the system administrator."
    );
    assert_eq!(RequestError::unavailable().status, 503);
    assert_eq!(RequestError::invalid_parameters().status, 400);
    assert_eq!(RequestError::forbidden().status, 403);
    assert_eq!(RequestError::too_many_requests().status, 429);
    assert_eq!(
        RequestError::too_many_auth_attempts().title.as_deref(),
        Some("Too Many Authentication Attempts")
    );
    assert_eq!(RequestError::unauthorized().status, 401);
    let b = RequestError::blank(418, "Teapot", "Short and stout.");
    assert_eq!(b.title.as_deref(), Some("Teapot"));
    assert_eq!(b.detail, "Short and stout.");
}

#[test]
fn json_level_errors() {
    let e = RequestError::not_json();
    assert_eq!(e.p_type, RequestErrorType::NotJSON);
    assert_eq!(e.detail, "The Request object is not a valid JSON object.");
    let e = RequestError::not_request();
    assert_eq!(e.p_type, RequestErrorType::NotRequest);
    assert_eq!(e.status, 400);
    assert_eq!(
        RequestError::limit(RequestLimitError::Size).detail,
        "The request is larger than the server is willing to process."
    );
}

#[test]
fn state_change_starts_empty() {
    let r = StateChangeResponse::new();
    assert_eq!(r.type_, StateChangeType::StateChange);
    assert!(r.changed.is_empty());
    assert!(StateChangeResponse::default().changed.is_empty());
}

#[test]
fn store_constructors() {
    let b = BaseId::new(7, 3);
    assert_eq!((b.account_id, b.collection_id), (7, 3));
    assert_eq!(Comparator::ascending(4), Comparator { field: 4, ascending: true });
    assert_eq!(Comparator::descending(4), Comparator { field: 4, ascending: false });
}

#[test]
fn quoted_text_asks_for_phrase() {
    assert!(TextQuery::query("\"red fox\"", Language::English).match_phrase);
    assert!(TextQuery::query("'red fox'", Language::Unknown).match_phrase);
    assert!(!TextQuery::query("'red fox\"", Language::English).match_phrase);
    assert!(!TextQuery::query("red fox", Language::English).match_phrase);
    assert!(!TextQuery::query("", Language::English).match_phrase);
    assert!(TextQuery::query("\"", Language::English).match_phrase);
    let q = TextQuery::query_english("«x»");
    assert_eq!(q.language, Language::English);
    assert_eq!(q.text, "«x»");
    assert!(!q.match_phrase);
}
