use tmux_control::command_stream::grammar::{get_args, join, parse_u64, terminator_sequence};

#[test]
fn get_args_returns_up_to_three_tokens() {
    let (a, b, c) = get_args(" 1618033988 42 1");
    assert_eq!(a, Some("1618033988"));
    assert_eq!(b, Some("42"));
    assert_eq!(c, Some("1"));
}

#[test]
fn get_args_tokens_are_positional_and_optional() {
    assert_eq!(get_args(""), (None, None, None));
    assert_eq!(get_args("   "), (None, None, None));
    assert_eq!(get_args(" only"), (Some("only"), None, None));
    assert_eq!(get_args("\t a \t b "), (Some("a"), Some("b"), None));
    assert_eq!(get_args(" a b c d e"), (Some("a"), Some("b"), Some("c")));
}

#[test]
fn parse_u64_reads_decimal_numerals() {
    assert_eq!(parse_u64("0"), Some(0));
    assert_eq!(parse_u64("123"), Some(123));
    assert_eq!(parse_u64("18446744073709551615"), Some(u64::MAX));
}

#[test]
fn parse_u64_rejects_what_is_not_a_numeral() {
    assert_eq!(parse_u64(""), None);
    assert_eq!(parse_u64("12x"), None);
    assert_eq!(parse_u64("-3"), None);
    assert_eq!(parse_u64("18446744073709551616"), None);
}

#[test]
fn terminator_sequence_is_the_second_token() {
    assert_eq!(terminator_sequence("%end 0 7 0"), Some(7));
    assert_eq!(terminator_sequence("%error 1618 12 1"), Some(12));
    assert_eq!(terminator_sequence("%end 0 12"), Some(12));
}

#[test]
fn terminator_sequence_is_mandatory() {
    assert_eq!(terminator_sequence("%end"), None);
    assert_eq!(terminator_sequence("%end 5"), None);
    assert_eq!(terminator_sequence("%error 0"), None);
    assert_eq!(terminator_sequence("%end 0 notanumber 0"), None);
}

#[test]
fn join_preserves_line_boundaries() {
    assert_eq!(join(&vec![]), "");
    assert_eq!(join(&vec![String::from("a")]), "a");
    assert_eq!(
        join(&vec![String::from("a"), String::from(""), String::from("b")]),
        "a\n\nb"
    );
}
