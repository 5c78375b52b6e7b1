use tim::text::{parse_usize, split_char, IntErrorKind};

#[test]
fn parse_usize_reads_as_from_str_does() {
    assert_eq!(parse_usize("42"), Ok(42));
    assert_eq!(parse_usize("+7"), Ok(7));
    assert_eq!(parse_usize("007"), Ok(7));
    assert_eq!(parse_usize(""), Err(IntErrorKind::Empty));
    assert_eq!(parse_usize("+"), Err(IntErrorKind::InvalidDigit));
    assert_eq!(parse_usize("-"), Err(IntErrorKind::InvalidDigit));
    assert_eq!(parse_usize("-1"), Err(IntErrorKind::InvalidDigit));
    assert_eq!(parse_usize(" 1"), Err(IntErrorKind::InvalidDigit));
    assert_eq!(parse_usize("18446744073709551615"), Ok(usize::MAX));
    assert_eq!(parse_usize("18446744073709551616"), Err(IntErrorKind::PosOverflow));
    assert_eq!(parse_usize("99999999999999999999x"), Err(IntErrorKind::PosOverflow));
    for s in ["12", "+3", "", "x", "4294967296", "18446744073709551616", "١"] {
        let expected = match s.parse::<usize>() {
            Ok(v) => Ok(v),
            Err(e) => Err(match e.kind() {
                std::num::IntErrorKind::Empty => IntErrorKind::Empty,
                std::num::IntErrorKind::PosOverflow => IntErrorKind::PosOverflow,
                _ => IntErrorKind::InvalidDigit,
            }),
        };
        assert_eq!(parse_usize(s), expected, "{s}");
    }
}

#[test]
fn split_char_gives_one_more_piece_than_separators() {
    let pieces: Vec<String> = split_char("now+1h+2:30", '+');
    assert_eq!(pieces, vec!["now", "1h", "2:30"]);
    assert_eq!(split_char("", '+'), vec![""]);
    assert_eq!(split_char("a+", '+'), vec!["a", ""]);
    assert_eq!(split_char("+a", '+'), vec!["", "a"]);
}
