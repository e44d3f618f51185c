use std::collections::BTreeMap;

use lib::dom::{Document, FetchService};

fn service() -> FetchService {
    FetchService::new(
        "https://example.test",
        BTreeMap::from([("/message.txt".into(), "hello from TSVM".into())]),
    )
}

#[test]
fn a_text_read_after_it_was_set_gives_back_what_was_set() {
    let mut document = Document::from_text_nodes([("#app", ""), ("#title", "TSVM")]);

    document.set_text("#app", "updated");

    assert_eq!(document.text("#app"), Some("updated".into()));
    assert_eq!(document.text("#title"), Some("TSVM".into()));
    assert_eq!(document.text("#missing"), None);
}

#[test]
fn setting_an_unknown_selector_adds_a_node() {
    let mut document = Document::new();
    assert_eq!(document.text("#app"), None);

    document.set_text("#app", "first");
    document.set_text("#app", "second");

    assert_eq!(document.text("#app"), Some("second".into()));
    assert_eq!(document, Document::from_text_nodes([("#app", "second")]));
    assert_eq!(Document::default(), Document::new());
}

#[test]
fn fetch_reads_same_origin_resources() {
    let fetch = service();

    assert_eq!(fetch.text("/message.txt"), Ok("hello from TSVM".into()));
    assert_eq!(fetch.text("https://example.test/message.txt"), Ok("hello from TSVM".into()));
}

#[test]
fn fetch_blocks_cross_origin_urls() {
    let err = service().text("https://evil.test/message.txt").expect_err("cross-origin fetch should fail");

    assert_eq!(err.message, "cross-origin fetch blocked for `https://evil.test/message.txt`");
}

#[test]
fn fetch_reports_missing_and_malformed_urls() {
    let fetch = service();

    assert_eq!(
        fetch.text("/missing.txt").expect_err("missing resource").message,
        "fetch resource `/missing.txt` not found"
    );
    assert_eq!(
        fetch.text("https://example.testmessage.txt").expect_err("malformed URL").message,
        "invalid fetch URL `https://example.testmessage.txt`"
    );
}
