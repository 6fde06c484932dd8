use rust_hive::fetch::{
    classify_reply, source_url, status_is_success, trim_body, FetchOutcome, HttpReply,
};

#[test]
fn url_holds_the_thai_year_twice() {
    assert_eq!(source_url(2023), "https://stat.bora.dopa.go.th/new_stat/file/66/stat_c66.txt");
    assert_eq!(source_url(1993), "https://stat.bora.dopa.go.th/new_stat/file/36/stat_c36.txt");
}

#[test]
fn url_is_built_for_every_year() {
    assert_eq!(source_url(1957), "https://stat.bora.dopa.go.th/new_stat/file/0/stat_c0.txt");
    assert_eq!(source_url(1900), "https://stat.bora.dopa.go.th/new_stat/file/-57/stat_c-57.txt");
    assert_eq!(
        source_url(i32::MIN),
        "https://stat.bora.dopa.go.th/new_stat/file/-2147485605/stat_c-2147485605.txt"
    );
}

#[test]
fn only_the_2xx_family_is_success() {
    assert!(status_is_success(200));
    assert!(status_is_success(204));
    assert!(status_is_success(299));
    assert!(!status_is_success(199));
    assert!(!status_is_success(300));
    assert!(!status_is_success(404));
    assert!(!status_is_success(500));
    assert!(!status_is_success(0));
    assert!(!status_is_success(u16::MAX));
}

#[test]
fn body_is_trimmed_of_spaces_and_line_feeds() {
    assert_eq!(trim_body(" \n a|b \n c\n\n "), "a|b \n c");
    assert_eq!(trim_body("\r\na\r\n"), "\r\na\r");
    assert_eq!(trim_body(""), "");
}

#[test]
fn an_answer_with_a_2xx_status_is_the_trimmed_extract() {
    let reply = HttpReply::Answer { status: 200, body: "\n line one\nline two \n".to_string() };
    match classify_reply(reply) {
        FetchOutcome::Success(blob) => assert_eq!(blob, "line one\nline two"),
        other => panic!("{:?}", other),
    }
}

#[test]
fn an_answer_with_another_status_is_not_found() {
    for status in [404, 500, 301, 100] {
        let reply = HttpReply::Answer { status, body: "ignored".to_string() };
        assert!(matches!(classify_reply(reply), FetchOutcome::NotFound));
    }
}

#[test]
fn a_broken_request_is_a_transient_failure() {
    let reply = HttpReply::Broken { reason: "timed out".to_string() };
    match classify_reply(reply) {
        FetchOutcome::TransientFailure(reason) => assert_eq!(reason, "timed out"),
        other => panic!("{:?}", other),
    }
}
