use regex::regex::Regex;

fn setup(pattern: &str) -> Regex {
    let res = Regex::new(pattern);
    assert!(res.is_ok());
    res.unwrap()
}

fn assert_match(regex: &Regex, input: &str, pos: usize) {
    let result = regex.test(input);
    assert!(result.is_some());
    assert_eq!(result.unwrap(), pos);
}

fn assert_failure(regex: &Regex, input: &str) {
    assert!(regex.test(input).is_none());
}

#[test]
fn test_plain() {
    let regex = setup("string");
    assert_match(&regex, "string", 6);
    assert_failure(&regex, "strong");
}

#[test]
fn test_match_any() {
    let regex = setup("str.ng");
    assert_match(&regex, "string", 6);
    assert_match(&regex, "strong", 6);
    assert_failure(&regex, "spring");
}
