use tcgscan::pages::{total_pages, DEFAULT_PAGES};

fn texts(v: &[&str]) -> Vec<String> {
    v.iter().map(|s| s.to_string()).collect()
}

#[test]
fn total_pages_is_the_largest_page_number() {
    assert_eq!(total_pages(&texts(&["1", "2", "3", "...", "417", "Next"])), 417);
    assert_eq!(total_pages(&texts(&["9", "12", "3"])), 12);
}

#[test]
fn total_pages_defaults_to_ten() {
    assert_eq!(total_pages(&texts(&[])), DEFAULT_PAGES);
    assert_eq!(total_pages(&texts(&["Prev", "Next", ""])), 10);
}

#[test]
fn total_pages_counts_any_number_that_parses() {
    assert_eq!(total_pages(&texts(&["-5", "-2"])), -2);
    assert_eq!(total_pages(&texts(&["+20", " 30", "4"])), 20);
}
