use ghtest::sizes::{
    action_input, get_sizes, parse_size_list, parse_token, ParseFault, SizeError, DEFAULT_EXPONENT,
};

fn chars(s: &str) -> Vec<char> {
    s.chars().collect()
}

fn text(s: &str) -> Option<String> {
    Some(s.to_string())
}

#[test]
fn default_exponent_is_a_mebibyte() {
    assert_eq!(DEFAULT_EXPONENT, 20);
}

#[test]
fn unset_resolves_to_default() {
    assert_eq!(get_sizes(None), Ok(vec![20]));
}

#[test]
fn empty_resolves_to_default() {
    assert_eq!(get_sizes(text("")), Ok(vec![20]));
}

#[test]
fn blank_resolves_to_default() {
    assert_eq!(get_sizes(text("   ")), Ok(vec![20]));
    assert_eq!(get_sizes(text("\t\n")), Ok(vec![20]));
}

#[test]
fn list_is_read_in_order() {
    assert_eq!(get_sizes(text("10, 12,14")), Ok(vec![10, 12, 14]));
}

#[test]
fn order_is_kept_not_sorted() {
    assert_eq!(get_sizes(text("18,16,16,4")), Ok(vec![18, 16, 16, 4]));
}

#[test]
fn two_sizes() {
    assert_eq!(get_sizes(text("16,18")), Ok(vec![16, 18]));
}

#[test]
fn bad_token_fails_the_list() {
    let r = get_sizes(text("10,x"));
    assert_eq!(
        r,
        Err(SizeError { index: 1, token: "x".to_string(), fault: ParseFault::InvalidDigit })
    );
}

#[test]
fn first_bad_token_is_reported() {
    let r = parse_size_list("1, two ,,4");
    assert_eq!(
        r,
        Err(SizeError { index: 1, token: "two".to_string(), fault: ParseFault::InvalidDigit })
    );
}

#[test]
fn empty_token_is_a_fault() {
    assert_eq!(
        parse_size_list("10,,12"),
        Err(SizeError { index: 1, token: String::new(), fault: ParseFault::Empty })
    );
    assert_eq!(
        parse_size_list("10,"),
        Err(SizeError { index: 1, token: String::new(), fault: ParseFault::Empty })
    );
    assert_eq!(
        parse_size_list(""),
        Err(SizeError { index: 0, token: String::new(), fault: ParseFault::Empty })
    );
}

#[test]
fn comma_alone_is_not_blank() {
    assert_eq!(
        get_sizes(text(" , ")),
        Err(SizeError { index: 0, token: String::new(), fault: ParseFault::Empty })
    );
}

#[test]
fn whitespace_around_tokens_is_ignored() {
    assert_eq!(parse_size_list(" 3 ,\t4\n, \u{3000}5\u{a0}"), Ok(vec![3, 4, 5]));
}

#[test]
fn whitespace_inside_a_token_is_a_fault() {
    assert_eq!(
        parse_size_list("1 0"),
        Err(SizeError { index: 0, token: "1 0".to_string(), fault: ParseFault::InvalidDigit })
    );
}

#[test]
fn token_forms() {
    assert_eq!(parse_token(&chars("0")), Ok(0));
    assert_eq!(parse_token(&chars("007")), Ok(7));
    assert_eq!(parse_token(&chars("+5")), Ok(5));
    assert_eq!(parse_token(&chars("20")), Ok(20));
    assert_eq!(parse_token(&chars("")), Err(ParseFault::Empty));
    assert_eq!(parse_token(&chars("+")), Err(ParseFault::InvalidDigit));
    assert_eq!(parse_token(&chars("-")), Err(ParseFault::InvalidDigit));
    assert_eq!(parse_token(&chars("-1")), Err(ParseFault::InvalidDigit));
    assert_eq!(parse_token(&chars("++1")), Err(ParseFault::InvalidDigit));
    assert_eq!(parse_token(&chars("1+")), Err(ParseFault::InvalidDigit));
    assert_eq!(parse_token(&chars("1.5")), Err(ParseFault::InvalidDigit));
    assert_eq!(parse_token(&chars("0x10")), Err(ParseFault::InvalidDigit));
    assert_eq!(parse_token(&chars("١")), Err(ParseFault::InvalidDigit));
}

#[test]
fn largest_value_parses_and_the_next_overflows() {
    let max = format!("{}", usize::MAX);
    assert_eq!(parse_token(&chars(&max)), Ok(usize::MAX));
    let next = format!("{}", usize::MAX as u128 + 1);
    assert_eq!(parse_token(&chars(&next)), Err(ParseFault::Overflow));
    assert_eq!(
        parse_token(&chars("99999999999999999999999999999999")),
        Err(ParseFault::Overflow)
    );
    assert_eq!(parse_token(&chars("000000000000000000000000000000001")), Ok(1));
}

#[test]
fn overflow_is_reported_with_the_token() {
    assert_eq!(
        get_sizes(text("1, 340282366920938463463374607431768211456")),
        Err(SizeError {
            index: 1,
            token: "340282366920938463463374607431768211456".to_string(),
            fault: ParseFault::Overflow,
        })
    );
}

#[test]
fn a_letter_after_too_many_digits_is_an_invalid_digit() {
    assert_eq!(
        parse_token(&chars("99999999999999999999999999999999x")),
        Err(ParseFault::InvalidDigit)
    );
}

#[test]
fn parse_token_agrees_with_std_on_success() {
    for s in ["0", "1", "+1", "-1", "", "+", "12a", "65535", " 1", "1 ", "00", "18446744073709551615"] {
        let ours = parse_token(&chars(s)).ok();
        let std = s.parse::<usize>().ok();
        assert_eq!(ours, std, "{:?}", s);
    }
}

#[test]
fn action_input_drops_unset_and_blank() {
    assert_eq!(action_input(None), None);
    assert_eq!(action_input(text("")), None);
    assert_eq!(action_input(text(" \t ")), None);
    assert_eq!(action_input(text("\u{2003}")), None);
}

#[test]
fn action_input_keeps_the_value_as_written() {
    assert_eq!(action_input(text(" 16, 18 ")), text(" 16, 18 "));
    assert_eq!(action_input(text("x")), text("x"));
    assert_eq!(action_input(text(",")), text(","));
}

#[test]
fn message_quotes_the_token() {
    let e = get_sizes(text("10, x1 ")).unwrap_err();
    assert_eq!(e.message(), "invalid size exponent: \"x1\"");
    let e = parse_size_list(",").unwrap_err();
    assert_eq!(e.message(), "invalid size exponent: \"\"");
}
