use pick_full_wm::checks_wf::str_less;
use pick_full_wm::calc::{
    all_but_last, config_parse, get_full_size, get_position, is_ascii_text, last_char, percent_or_value, Dim,
};
use pick_full_wm::text::{chars_of, contains, parse_i32, split_once_exact, str_eq};

#[test]
fn parse_i32_reads_plain_and_signed_numbers() {
    assert_eq!(parse_i32("42"), Some(42));
    assert_eq!(parse_i32("-7"), Some(-7));
    assert_eq!(parse_i32("+5"), Some(5));
    assert_eq!(parse_i32("007"), Some(7));
    assert_eq!(parse_i32("2147483647"), Some(i32::MAX));
    assert_eq!(parse_i32("-2147483648"), Some(i32::MIN));
}

#[test]
fn parse_i32_refuses_what_str_parse_refuses() {
    assert_eq!(parse_i32(""), None);
    assert_eq!(parse_i32("-"), None);
    assert_eq!(parse_i32("+"), None);
    assert_eq!(parse_i32("12a"), None);
    assert_eq!(parse_i32(" 1"), None);
    assert_eq!(parse_i32("2147483648"), None);
    assert_eq!(parse_i32("-2147483649"), None);
    for s in ["0", "-0", "123", "+99", "x", "1-1", "99999999999"] {
        assert_eq!(parse_i32(s), s.parse::<i32>().ok(), "input {:?}", s);
    }
}

#[test]
fn split_once_exact_needs_exactly_one_separator() {
    assert_eq!(
        split_once_exact("80%x96%", 'x'),
        Some(("80%".to_string(), "96%".to_string()))
    );
    assert_eq!(split_once_exact("0,4%", ','), Some(("0".to_string(), "4%".to_string())));
    assert_eq!(split_once_exact("a,b,c", ','), None);
    assert_eq!(split_once_exact("abc", ','), None);
    assert_eq!(split_once_exact(",", ','), Some((String::new(), String::new())));
}

#[test]
fn text_helpers() {
    assert!(contains("pfwm help window", "pfwm help"));
    assert!(!contains("pfwm hel", "pfwm help"));
    assert!(contains("anything", ""));
    assert!(str_eq("tab", "tab"));
    assert!(!str_eq("tab", "Tab"));
    assert_eq!(chars_of("hé"), vec!['h', 'é']);
    assert!(is_ascii_text("80%x96%"));
    assert!(!is_ascii_text("80％"));
}

#[test]
fn last_char_and_all_but_last() {
    assert_eq!(last_char("80%"), '%');
    assert_eq!(last_char("7"), '7');
    assert_eq!(all_but_last("80%"), "80");
    assert_eq!(all_but_last("%"), "");
}

#[test]
fn percent_or_value_reads_percentages_and_pixels() {
    assert_eq!(percent_or_value("80%"), Some(Dim::Percent(80)));
    assert_eq!(percent_or_value("32"), Some(Dim::Pixels(32)));
    assert_eq!(percent_or_value("-4"), Some(Dim::Pixels(-4)));
    assert_eq!(percent_or_value(""), None);
    assert_eq!(percent_or_value("%"), None);
    assert_eq!(percent_or_value("x%"), None);
    assert_eq!(percent_or_value("4%%"), None);
    assert_eq!(percent_or_value("é"), None);
}

#[test]
fn layout_settings_of_the_defaults() {
    assert_eq!(get_full_size("80%x96%"), Some((Dim::Percent(80), Dim::Percent(96))));
    assert_eq!(get_full_size("80%x100%"), Some((Dim::Percent(80), Dim::Percent(100))));
    assert_eq!(get_position("0,4%"), Some((Dim::Pixels(0), Dim::Percent(4))));
    assert_eq!(get_position("0,0"), Some((Dim::Pixels(0), Dim::Pixels(0))));
}

#[test]
fn layout_settings_that_cannot_be_read() {
    assert_eq!(get_full_size("80%"), None);
    assert_eq!(get_full_size("80%x96%x1"), None);
    assert_eq!(get_full_size("ax1"), None);
    assert_eq!(get_position("1,"), None);
    assert_eq!(config_parse("1920;1080", ';'), Some((Dim::Pixels(1920), Dim::Pixels(1080))));
    assert_eq!(config_parse("1920;1080", ','), None);
}

#[test]
fn str_less_orders_by_characters() {
    assert!(str_less("a", "b"));
    assert!(str_less("ab", "abc"));
    assert!(!str_less("abc", "ab"));
    assert!(!str_less("a", "a"));
    assert!(str_less("", "a"));
    assert!(!str_less("b", "a"));
}
