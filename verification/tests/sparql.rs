use qrender::client::{cache_url, Cache};
use qrender::sparql::{build_query, cache_key, error_status, query_for, validate_language, validate_qid, QjsonError};

#[test]
fn qid_validation() {
    assert!(validate_qid("Q42").is_ok());
    assert!(validate_qid("Q").is_err());
    assert!(validate_qid("P42").is_err());
    assert!(validate_qid("Q42}").is_err());
}

#[test]
fn language_validation() {
    assert!(validate_language("en").is_ok());
    assert!(validate_language("zh-hans").is_ok());
    assert!(validate_language("").is_err());
    assert!(validate_language("en\" . ?x ?y ?z").is_err());
}

#[test]
fn invalid_input_errors_carry_the_input() {
    match validate_qid("X1") {
        Err(QjsonError::InvalidQid(q)) => assert_eq!(q, "X1"),
        other => panic!("unexpected {other:?}"),
    }
    match validate_language("e n") {
        Err(QjsonError::InvalidLanguage(l)) => assert_eq!(l, "e n"),
        other => panic!("unexpected {other:?}"),
    }
}

#[test]
fn query_names_item_and_language() {
    let query = build_query("Q42", "en");
    assert!(query.contains("wd:Q42"));
    assert!(query.contains("\"en, mul, en\""));
    let checked = query_for("Q42", "en").unwrap();
    assert_eq!(checked, query);
}

#[test]
fn query_is_refused_for_invalid_input() {
    assert!(matches!(query_for("Q4 2", "en"), Err(QjsonError::InvalidQid(_))));
    assert!(matches!(query_for("Q42", "en}"), Err(QjsonError::InvalidLanguage(_))));
}

#[test]
fn cache_keys_name_item_and_language() {
    assert_eq!(cache_key("Q42", "en"), "qjson:Q42:en");
    assert_eq!(Cache::key("Q3870", "sw"), "qjson:Q3870:sw");
}

#[test]
fn bare_redis_address_gets_a_scheme() {
    assert_eq!(cache_url("localhost:6379"), "redis://localhost:6379");
    assert_eq!(cache_url("redis://cache:6379"), "redis://cache:6379");
}

#[test]
fn redis_settings_enable_or_disable_caching() {
    assert!(Cache::from_env(Some("localhost:6379".to_string())).client.is_some());
    assert!(Cache::from_env(None).client.is_none());
}

#[test]
fn a_url_of_another_scheme_disables_caching() {
    assert!(Cache::from_env(Some("http://localhost:6379".to_string())).client.is_none());
}

#[test]
fn refused_requests_are_the_callers_fault() {
    assert_eq!(error_status(&QjsonError::InvalidQid("x".to_string())), 400);
    assert_eq!(error_status(&QjsonError::InvalidLanguage("x".to_string())), 400);
    assert_eq!(error_status(&QjsonError::WdqsStatus(503)), 502);
    assert_eq!(error_status(&QjsonError::Http("timeout".to_string())), 502);
}

#[test]
fn error_messages() {
    assert_eq!(QjsonError::InvalidQid("Q".to_string()).message(), "invalid QID: Q");
    assert_eq!(QjsonError::WdqsStatus(503).message(), "WDQS returned HTTP 503");
    let e = qrender::error::QRenderError::Fetch(QjsonError::Decode("eof".to_string()));
    assert_eq!(e.message(), "failed to fetch Wikidata item: failed to decode SPARQL response: eof");
}

#[test]
fn only_success_statuses_carry_results() {
    assert!(qrender::sparql::check_status(200).is_ok());
    assert!(qrender::sparql::check_status(204).is_ok());
    assert!(matches!(qrender::sparql::check_status(429), Err(QjsonError::WdqsStatus(429))));
    assert!(matches!(qrender::sparql::check_status(199), Err(QjsonError::WdqsStatus(199))));
}
