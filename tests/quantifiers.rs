use regex::regex::Regex;

fn setup(pattern: &str) -> Regex {
    let res = Regex::new(pattern);
    assert!(res.is_ok());
    res.unwrap()
}

fn assert_match(regex: &Regex, input: &str, pos: usize) {
    let result = regex.test(input);
    assert!(result.is_some());
    assert_eq!(result.unwrap(), pos);
}

fn assert_failure(regex: &Regex, input: &str) {
    assert!(regex.test(input).is_none());
}

#[test]
fn test_one_or_more() {
    let regex = setup("Bana+na");
    assert_match(&regex, "Banana", 6);
    assert_match(&regex, "Banaaaana", 9);
    assert_failure(&regex, "Banna");

    let regex_with_groups = setup("Ba(na)+na");
    assert_match(&regex_with_groups, "Banana", 6);
    assert_match(&regex_with_groups, "Bananananana", 12);
    assert_failure(&regex_with_groups, "Banaaaana");
    assert_failure(&regex_with_groups, "Banna");

    let nested_quantifiers = setup("Ba(na+)+na");
    assert_match(&nested_quantifiers, "Banaaanaaaana", 13);
    assert_match(&nested_quantifiers, "Banaaaaanaanaaanaaana", 21);
    assert_match(&nested_quantifiers, "Banaananaaa", 9);
    assert_failure(&nested_quantifiers, "Banna");
}

#[test]
fn test_zero_or_more() {
    let regex = setup("Bana*na");
    assert_match(&regex, "Banana", 6);
    assert_match(&regex, "Banaaaana", 9);
    assert_match(&regex, "Banna", 5);

    let regex_with_groups = setup("Ba(na)*na");
    assert_match(&regex_with_groups, "Banana", 6);
    assert_match(&regex_with_groups, "Bananananana", 12);
    assert_match(&regex_with_groups, "Bana", 4);
    assert_match(&regex_with_groups, "Banaaaana", 4);
    assert_failure(&regex_with_groups, "Banna");

    let nested_quantifiers = setup("Ba(na*)*na");
    assert_match(&nested_quantifiers, "Banaaanaaaana", 13);
    assert_match(&nested_quantifiers, "Banaaaaanaanaaanaaana", 21);
    assert_match(&nested_quantifiers, "Bannnnnnnnnna", 13);
    assert_match(&nested_quantifiers, "Banaananaaa", 9);
    assert_failure(&nested_quantifiers, "Banbna");
}

#[test]
fn test_multiple() {
    let regex = setup("P(ar+(is)*)*");

    assert_match(&regex, "Paris", 5);
    assert_match(&regex, "Parrrris", 8);
    assert_match(&regex, "Parrrr", 6);
    assert_match(&regex, "Parrisisis", 10);
    assert_match(&regex, "Parrrrrrisisisarrrrrrisisis", 27);
    assert_match(&regex, "Parisarisisarisisis", 19);
    assert_match(&regex, "Parrisarr", 9);

    assert_match(&regex, "Pais", 1);
    assert_match(&regex, "Parisisa", 7);
    assert_match(&regex, "Parsi", 3);
}

#[test]
fn test_wildcard() {
    let regex = setup("P.+ris");

    assert_match(&regex, "Paris", 5);
    assert_match(&regex, "Paoris", 6);
    assert_match(&regex, "Pawawaris", 9);

    let nested = setup("P(a.+)+ris");

    assert_match(&nested, "Parris", 6);
    assert_match(&nested, "Paorairis", 9);
    assert_match(&nested, "Pawawaris", 9);
    assert_match(&nested, "Paoaris", 7);

    assert_failure(&nested, "Paris");
}
