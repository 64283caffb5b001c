use medium::app::{normalize_device_label, normalize_label, normalized_label, summary, title, PRODUCT_NAME};

#[test]
fn title_matches_product_name() {
    assert_eq!(title(), "Medium");
}

#[test]
fn summary_marks_headless_role() {
    assert_eq!(summary(), "Medium CLI");
}

#[test]
fn summary_mentions_medium_name() {
    assert!(summary().contains("Medium"));
}

#[test]
fn normalize_device_label_trims_whitespace() {
    assert_eq!(normalize_device_label("  arch node  "), "arch node");
}

#[test]
fn normalize_label_trims_whitespace() {
    assert_eq!(normalize_label("  my phone  "), "my phone");
}

#[test]
fn product_name_is_the_title() {
    assert_eq!(PRODUCT_NAME, title());
}

#[test]
fn normalize_label_trims_tabs_and_newlines_only_at_the_ends() {
    assert_eq!(normalize_label("\t\n lab  box \r\n"), "lab  box");
    assert_eq!(normalize_label("   "), "");
    assert_eq!(normalize_label(""), "");
}

#[test]
fn normalizing_twice_is_normalizing_once() {
    let once = normalize_label("  \u{a0}node one\u{2003} ");
    assert_eq!(once, "node one");
    assert_eq!(normalize_label(&once), once);
    assert_eq!(normalized_label(once.clone()), once);
}
