use logon_report::number::decimal;
use logon_report::number::parse_usize;
use logon_report::number::signed_decimal;
use logon_report::ranking::ranking;
use logon_report::text::chars_of;
use logon_report::text::push_chars;
use logon_report::text::string_of;

#[test]
fn parse_usize_reads_plain_digits() {
    assert_eq!(parse_usize("4624"), Some(4624));
    assert_eq!(parse_usize("0"), Some(0));
    assert_eq!(parse_usize("007"), Some(7));
    assert_eq!(parse_usize("23"), Some(23));
}

#[test]
fn parse_usize_takes_a_plus_sign() {
    assert_eq!(parse_usize("+5"), Some(5));
    assert_eq!(parse_usize("+0042"), Some(42));
}

#[test]
fn parse_usize_refuses_other_text() {
    assert_eq!(parse_usize(""), None);
    assert_eq!(parse_usize("+"), None);
    assert_eq!(parse_usize("-"), None);
    assert_eq!(parse_usize("-5"), None);
    assert_eq!(parse_usize("++5"), None);
    assert_eq!(parse_usize("12a"), None);
    assert_eq!(parse_usize(" 12"), None);
    assert_eq!(parse_usize("12 "), None);
    assert_eq!(parse_usize("1_000"), None);
    assert_eq!(parse_usize("5+"), None);
    assert_eq!(parse_usize("\u{663}"), None);
}

#[test]
fn parse_usize_refuses_what_does_not_fit() {
    let max = usize::MAX.to_string();
    assert_eq!(parse_usize(&max), Some(usize::MAX));
    assert_eq!(parse_usize(&format!("{}0", max)), None);
    assert_eq!(parse_usize("340282366920938463463374607431768211456"), None);
    let above = (usize::MAX as u128 + 1).to_string();
    assert_eq!(parse_usize(&above), None);
}

#[test]
fn parse_usize_agrees_with_std() {
    let samples = vec![
        "", "0", "1", "9", "10", "4624", "4625", "+4624", "-4624", "04624", " 4624", "4624 ",
        "46 24", "4,624", "0x10", "+", "-", "+-1", "18446744073709551615",
        "18446744073709551616", "99999999999999999999999999", "1e3", "12.5", "\u{ff11}",
    ];
    for s in samples {
        assert_eq!(parse_usize(s), s.parse::<usize>().ok(), "{:?}", s);
    }
}

#[test]
fn decimal_writes_digits() {
    assert_eq!(decimal(0), "0");
    assert_eq!(decimal(7), "7");
    assert_eq!(decimal(10), "10");
    assert_eq!(decimal(4624), "4624");
    assert_eq!(decimal(usize::MAX), usize::MAX.to_string());
}

#[test]
fn decimal_is_read_back() {
    for n in [0usize, 1, 9, 10, 11, 99, 100, 101, 4624, 65535, usize::MAX] {
        assert_eq!(parse_usize(&decimal(n)), Some(n));
    }
}

#[test]
fn signed_decimal_writes_the_sign() {
    assert_eq!(signed_decimal(0), "0");
    assert_eq!(signed_decimal(42), "42");
    assert_eq!(signed_decimal(-1), "-1");
    assert_eq!(signed_decimal(-120), "-120");
    assert_eq!(signed_decimal(i32::MAX), "2147483647");
    assert_eq!(signed_decimal(i32::MIN), "-2147483648");
}

#[test]
fn chars_of_keeps_every_character() {
    assert_eq!(chars_of(""), Vec::<char>::new());
    assert_eq!(chars_of("aT:"), vec!['a', 'T', ':']);
    assert_eq!(chars_of("\u{e9}\u{4e16}!"), vec!['\u{e9}', '\u{4e16}', '!']);
}

#[test]
fn string_of_takes_a_range() {
    let chars = vec!['l', 'o', 'g', 'o', 'n'];
    assert_eq!(string_of(&chars, 0, 5), "logon");
    assert_eq!(string_of(&chars, 1, 3), "og");
    assert_eq!(string_of(&chars, 2, 2), "");
}

#[test]
fn push_chars_appends() {
    let chars = vec!['a', 'b', 'c'];
    let mut out = String::from("x");
    push_chars(&mut out, &chars, 1, 3);
    assert_eq!(out, "xbc");
}

#[test]
fn ranking_orders_by_falling_key() {
    assert_eq!(ranking(&vec![]), Vec::<usize>::new());
    assert_eq!(ranking(&vec![5]), vec![0]);
    assert_eq!(ranking(&vec![1, 3, 2]), vec![1, 2, 0]);
    assert_eq!(ranking(&vec![9, 8, 7]), vec![0, 1, 2]);
    assert_eq!(ranking(&vec![7, 8, 9]), vec![2, 1, 0]);
}

#[test]
fn ranking_keeps_equal_keys_in_place_order() {
    assert_eq!(ranking(&vec![2, 2, 2]), vec![0, 1, 2]);
    assert_eq!(ranking(&vec![1, 5, 1, 5, 3]), vec![1, 3, 4, 0, 2]);
    assert_eq!(ranking(&vec![0, u128::MAX, 0, u128::MAX]), vec![1, 3, 0, 2]);
}

#[test]
fn ranking_lists_every_place_once() {
    let keys: Vec<u128> = vec![3, 1, 4, 1, 5, 9, 2, 6, 5, 3, 5];
    let mut order = ranking(&keys);
    for pair in order.windows(2) {
        let (a, b) = (pair[0], pair[1]);
        assert!(keys[a] > keys[b] || (keys[a] == keys[b] && a < b));
    }
    order.sort();
    assert_eq!(order, (0..keys.len()).collect::<Vec<usize>>());
}
