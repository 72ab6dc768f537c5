//! Requests to search and to get.

use overfwd::imap::{MessageSummary, SearchResults};
use overfwd::routes::{
    bare_words, body_error, plan_search, GetRequest, SearchRequest, SearchResponse, DEFAULT_SEARCH_LIMIT,
    MAX_SEARCH_LIMIT,
};
use serde_json::Value;

/// The request that a body holds.
fn parse(body: &str) -> SearchRequest {
    let v: Value = serde_json::from_str(body).expect("body should deserialize");
    let text = |name: &str| v.get(name).and_then(Value::as_str).map(String::from);
    SearchRequest {
        folder: text("folder"),
        query: text("query").or(text("criteria")),
        from: text("from"),
        subject: text("subject"),
        text: text("text"),
        since: text("since"),
        limit: v.get("limit").and_then(Value::as_u64).map(|n| n as usize),
    }
}

/// The query that a body would send to IMAP, panicking if it is rejected.
fn query_of(body: &str) -> String {
    parse(body)
        .validated_query()
        .unwrap_or_else(|e| panic!("body {body} should be accepted, got: {}", e.to_text()))
}

fn refusal_of(body: &str) -> String {
    parse(body).validated_query().unwrap_err().to_text()
}

#[test]
fn absent_null_and_blank_query_all_mean_all() {
    for body in [r#"{}"#, r#"{"query":null}"#, r#"{"query":""}"#, r#"{"query":"   "}"#] {
        assert_eq!(query_of(body), "ALL", "body: {body}");
    }
}

#[test]
fn a_real_query_is_passed_through_trimmed() {
    assert_eq!(query_of(r#"{"query":"UNSEEN"}"#), "UNSEEN");
    assert_eq!(query_of(r#"{"query":"  UNSEEN  "}"#), "UNSEEN");
    assert_eq!(query_of(r#"{"query":"SUBJECT \"hi\""}"#), r#"SUBJECT "hi""#);
}

#[test]
fn criteria_alias_still_works() {
    assert_eq!(query_of(r#"{"criteria":"UNSEEN"}"#), "UNSEEN");
    assert_eq!(query_of(r#"{"criteria":""}"#), "ALL");
}

#[test]
fn valid_criteria_are_accepted() {
    for query in [
        "UNSEEN",
        "unseen",
        r#"FROM "John Smith""#,
        r#"SUBJECT "hi""#,
        "1:* NOT DELETED",
        "(OR SEEN UNSEEN)",
        "HEADER X-Spam-Flag YES",
        "SINCE 1-Jul-2025",
    ] {
        let request = SearchRequest { query: Some(query.to_string()), ..SearchRequest::default() };
        assert_eq!(request.validated_query().expect("should be accepted"), query);
    }
}

#[test]
fn bare_words_are_rejected_with_a_fix_suggestion() {
    for body in [r#"{"query":"John Smith"}"#, r#"{"criteria":"John Smith"}"#] {
        let err = parse(body).validated_query().expect_err("bare words should be rejected");
        assert_eq!(err.code(), "bad_request", "body: {body}");
        let message = err.message();
        assert!(
            message.contains(r#""John Smith""#),
            "message should quote the offending criteria, got: {message}"
        );
        assert!(
            message.contains(r#"FROM "John Smith""#) && message.contains(r#"TEXT "John Smith""#),
            "message should name the fix, got: {message}"
        );
    }
}

#[test]
fn a_refused_query_is_quoted_and_escaped() {
    let request = SearchRequest { query: Some("say \"hi\"".to_string()), ..SearchRequest::default() };
    assert_eq!(
        request.validated_query().unwrap_err().message(),
        "invalid criteria: \"say \\\"hi\\\"\" — bare words are not IMAP SEARCH keys. Did you mean \
         FROM \"say \\\"hi\\\"\" or TEXT \"say \\\"hi\\\"\"?"
    );
    assert_eq!(
        bare_words("'q'").message(),
        "invalid criteria: 'q' — bare words are not IMAP SEARCH keys. Did you mean FROM 'q' or \
         TEXT 'q'?"
    );
}

// --- Structured parameters ----------------------------------------------------------

#[test]
fn structured_params_search_and_and_together() {
    assert_eq!(query_of(r#"{"subject":"lunch"}"#), r#"SUBJECT "lunch""#);
    assert_eq!(
        query_of(r#"{"from":"alice@example.com","subject":"lunch"}"#),
        r#"FROM "alice@example.com" SUBJECT "lunch""#
    );
    assert_eq!(
        query_of(r#"{"text":"lunch tomorrow","subject":"lunch"}"#),
        r#"SUBJECT "lunch" TEXT "lunch tomorrow""#
    );
    assert_eq!(
        query_of(r#"{"subject":"lunch","since":"2020-01-01"}"#),
        r#"SUBJECT "lunch" SINCE 1-Jan-2020"#
    );
}

#[test]
fn structured_values_with_spaces_and_quotes_are_quoted() {
    assert_eq!(
        query_of(r#"{"subject":"quoting say \"hi\" now"}"#),
        r#"SUBJECT "quoting say \"hi\" now""#
    );
    assert_eq!(query_of(r#"{"text":"a\\b"}"#), r#"TEXT "a\\b""#);
    assert_eq!(query_of(r#"{"from":"x\" OR ALL"}"#), r#"FROM "x\" OR ALL""#);
}

#[test]
fn structured_blanks_are_no_filter() {
    assert_eq!(query_of(r#"{"from":"","subject":"  ","text":null,"since":" "}"#), "ALL");
    assert_eq!(query_of(r#"{"query":"UNSEEN","from":""}"#), "UNSEEN");
}

#[test]
fn structured_values_that_cannot_be_written_are_refused() {
    assert_eq!(
        refusal_of(r#"{"subject":"a\r\nb"}"#),
        "bad_request: `subject` must not contain line breaks or NUL"
    );
    assert_eq!(
        refusal_of(r#"{"from":"a\u0000b"}"#),
        "bad_request: `from` must not contain line breaks or NUL"
    );
    assert_eq!(
        refusal_of(r#"{"query":"UNSEEN","from":"alice"}"#),
        "bad_request: `query` cannot be combined with `from`, `subject`, `text` or `since`"
    );
}

#[test]
fn dates_are_days_of_the_calendar() {
    for (day, key) in [
        ("2024-02-29", "SINCE 29-Feb-2024"),
        ("2000-02-29", "SINCE 29-Feb-2000"),
        (" 1999-12-31 ", "SINCE 31-Dec-1999"),
        ("0001-04-30", "SINCE 30-Apr-0001"),
    ] {
        let request = SearchRequest { since: Some(day.to_string()), ..SearchRequest::default() };
        assert_eq!(request.validated_query().unwrap(), key);
    }
    for day in [
        "2023-02-29", "1900-02-29", "2024-04-31", "2024-13-01", "2024-00-10", "2024-01-00",
        "2024-1-1", "01-01-2024", "2024/01/01", "yesterday", "2024-01-011",
    ] {
        let request = SearchRequest { since: Some(day.to_string()), ..SearchRequest::default() };
        assert_eq!(
            request.validated_query().unwrap_err().message(),
            "`since` must be a date of the form YYYY-MM-DD",
            "{day}"
        );
    }
}

// --- Limits -------------------------------------------------------------------------

#[test]
fn default_limit_applies_when_absent() {
    for body in [r#"{}"#, r#"{"query":"UNSEEN"}"#, r#"{"limit":null}"#] {
        assert_eq!(parse(body).effective_limit(), DEFAULT_SEARCH_LIMIT, "body: {body}");
    }
}

#[test]
fn explicit_limit_under_cap_is_honoured() {
    assert_eq!(parse(r#"{"limit":5}"#).effective_limit(), 5);
    let at_cap = format!(r#"{{"limit":{MAX_SEARCH_LIMIT}}}"#);
    assert_eq!(parse(&at_cap).effective_limit(), MAX_SEARCH_LIMIT);
    assert_eq!(parse(r#"{"limit":0}"#).effective_limit(), 0);
}

#[test]
fn explicit_limit_over_cap_clamps() {
    let over_cap = format!(r#"{{"limit":{}}}"#, MAX_SEARCH_LIMIT + 1);
    assert_eq!(parse(&over_cap).effective_limit(), MAX_SEARCH_LIMIT);
    assert_eq!(parse(r#"{"limit":500}"#).effective_limit(), MAX_SEARCH_LIMIT);
    assert_eq!(
        parse(r#"{"limit":18446744073709551615}"#).effective_limit(),
        MAX_SEARCH_LIMIT
    );
}

#[test]
fn the_folder_is_the_inbox_unless_one_is_named() {
    let get = |folder: Option<&str>| GetRequest { folder: folder.map(String::from), uid: 1 };
    assert_eq!(get(None).mailbox(), "INBOX");
    assert_eq!(get(Some("Sent")).mailbox(), "Sent");
    assert_eq!(parse("{}").mailbox(), "INBOX");
    assert_eq!(parse(r#"{"folder":"Sent"}"#).mailbox(), "Sent");
}

#[test]
fn a_search_is_planned_whole_or_refused() {
    let plan = plan_search(&parse(r#"{"folder":"Sent","query":" UNSEEN","limit":99}"#)).unwrap();
    assert_eq!((plan.mailbox.as_str(), plan.query.as_str(), plan.limit), ("Sent", "UNSEEN", 50));
    let plan = plan_search(&parse("{}")).unwrap();
    assert_eq!((plan.mailbox.as_str(), plan.query.as_str(), plan.limit), ("INBOX", "ALL", 10));
    assert_eq!(plan_search(&parse(r#"{"query":"hello"}"#)).unwrap_err().code(), "bad_request");
}

// --- Responses ----------------------------------------------------------------------

fn summary(uid: u32) -> MessageSummary {
    MessageSummary { uid, from: None, to: None, subject: None, date: None, snippet: None }
}

fn envelope(summaries: Vec<MessageSummary>, total: usize) -> SearchResponse {
    SearchResponse::from_results(SearchResults { summaries, total })
}

#[test]
fn truncation_marker_is_set_when_more_matched_than_returned() {
    let response = envelope(vec![summary(9), summary(8)], 137);
    assert!(response.truncated);
    assert_eq!(response.total, 137);
    assert_eq!(response.results.len(), 2);
    // The rows themselves survive, in their order.
    assert_eq!(response.results[0].uid, 9);
    assert_eq!(response.results[1].uid, 8);
}

#[test]
fn truncation_marker_is_clear_when_everything_fit() {
    let response = envelope(vec![summary(2), summary(1)], 2);
    assert!(!response.truncated);
    assert_eq!(response.total, 2);

    let response = envelope(Vec::new(), 0);
    assert!(!response.truncated);
    assert_eq!(response.total, 0);
    assert_eq!(response.results.len(), 0);
}

#[test]
fn zero_limit_probe_is_truncated_when_matches_exist() {
    let response = envelope(Vec::new(), 44);
    assert_eq!(response.total, 44);
    assert!(response.truncated);
    assert_eq!(response.results.len(), 0);
}

#[test]
fn an_unreadable_body_is_a_bad_request() {
    assert_eq!(
        body_error("EOF while parsing").to_text(),
        "bad_request: invalid JSON request body: EOF while parsing"
    );
}
