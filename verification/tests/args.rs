use web_scraper::args::{parse_args, EXPECTED_ARGUMENTS};

fn list(items: &[&str]) -> Vec<String> {
    items.iter().map(|item| String::from(*item)).collect()
}

#[test]
fn four_strings_are_taken_in_order() {
    let parsed = parse_args(&list(&[
        "example-spider",
        "https://example.com",
        "example.html",
        ".*?</p>",
    ]));
    let args = parsed.expect("four strings make a run");
    assert_eq!(args.name, "example-spider");
    assert_eq!(args.url, "https://example.com");
    assert_eq!(args.filename, "example.html");
    assert_eq!(args.pattern, ".*?</p>");
}

#[test]
fn expected_number_is_four() {
    assert_eq!(EXPECTED_ARGUMENTS, 4);
}

#[test]
fn no_strings_are_refused() {
    assert_eq!(parse_args(&list(&[])).err(), Some(0));
}

#[test]
fn three_strings_are_refused_with_their_number() {
    let parsed = parse_args(&list(&["example-spider", "https://example.com", "example.html"]));
    assert_eq!(parsed.err(), Some(3));
}

#[test]
fn five_strings_are_refused_with_their_number() {
    let parsed = parse_args(&list(&["a", "b", "c", "d", "e"]));
    assert_eq!(parsed.err(), Some(5));
}

#[test]
fn empty_strings_count_as_given() {
    let args = parse_args(&list(&["", "", "", ""])).expect("presence is all that is asked");
    assert_eq!(args.name, "");
    assert_eq!(args.pattern, "");
}
