use stattracker::api::{
    accepts_invalid_certs, api_status_span, desk_view_route, join_url, load_failed_message,
    question_types_from_raw, tally_post_failed, ApiStatus, RawQuestionType,
};
use stattracker::config::normalize_base_url;

#[test]
fn urls_join_with_one_slash() {
    assert_eq!(join_url("https://x.org", "desks/index.json"), "https://x.org/desks/index.json");
    assert_eq!(join_url("https://x.org/", "desks/index.json"), "https://x.org/desks/index.json");
    let base = normalize_base_url(" https://x.org/app ");
    assert_eq!(join_url(&base, "question-tallies/add"), "https://x.org/app/question-tallies/add");
}

#[test]
fn desk_routes_and_messages() {
    assert_eq!(desk_view_route(12), "desks/view/12.json");
    assert_eq!(desk_view_route(-3), "desks/view/-3.json");
    assert_eq!(desk_view_route(i64::MIN), "desks/view/-9223372036854775808.json");
    assert_eq!(
        load_failed_message("desks", "404 Not Found"),
        "Could not load desks (HTTP 404 Not Found)."
    );
}

#[test]
fn self_signed_certificates_only_for_local_hosts() {
    assert!(accepts_invalid_certs("https://localhost:8443/"));
    assert!(accepts_invalid_certs("https://LocalHost/"));
    assert!(accepts_invalid_certs("https://stats.loc/"));
    assert!(accepts_invalid_certs("https://stats.local/app/"));
    assert!(accepts_invalid_certs("https://dev.test/"));
    assert!(accepts_invalid_certs("http://127.0.0.1:8765/"));
    assert!(!accepts_invalid_certs("https://example.com/"));
    assert!(!accepts_invalid_certs("https://local.example.com/"));
    assert!(!accepts_invalid_certs("not a url"));
}

#[test]
fn status_span_runs_from_first_brace_to_last() {
    assert_eq!(
        api_status_span("<p>{\"success\":true}</p>"),
        Some("{\"success\":true}".to_string())
    );
    assert_eq!(api_status_span("no json"), None);
    assert_eq!(api_status_span("} before {"), None);
}

#[test]
fn tally_failures_follow_the_server() {
    let ok = ApiStatus { success: Some(true), message: None };
    let refused = ApiStatus { success: Some(false), message: Some("Desk closed".to_string()) };
    let silent = ApiStatus { success: Some(false), message: None };
    let note = ApiStatus { success: None, message: Some("Bad input".to_string()) };
    assert_eq!(tally_post_failed(500, "500 Internal Server Error", Some(&ok)), None);
    assert_eq!(tally_post_failed(200, "200 OK", Some(&refused)), Some("Desk closed".to_string()));
    assert_eq!(
        tally_post_failed(200, "200 OK", Some(&silent)),
        Some("The server reported that the tally was not saved.".to_string())
    );
    assert_eq!(tally_post_failed(201, "201 Created", None), None);
    assert_eq!(tally_post_failed(422, "422 Unprocessable Entity", Some(&note)), Some("Bad input".to_string()));
    assert_eq!(
        tally_post_failed(302, "302 Found", None),
        Some("The server rejected a tally (HTTP 302 Found).".to_string())
    );
}

#[test]
fn raw_types_are_numbered_in_list_order() {
    let raw = vec![
        RawQuestionType { id: 9, name: "Printing".to_string(), description: "Printers".to_string() },
        RawQuestionType { id: 4, name: "Directions".to_string(), description: String::new() },
    ];
    let types = question_types_from_raw(raw);
    assert_eq!(types.len(), 2);
    assert_eq!((types[0].id, types[0].sort_order), (9, 0));
    assert_eq!((types[1].id, types[1].sort_order), (4, 1));
    assert_eq!(types[0].description, "Printers");
}
