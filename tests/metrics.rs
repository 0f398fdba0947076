use beautiful_mermaid::metrics::{
    get_char_width_units, is_combining_mark, is_fullwidth, line_width_units,
    split_label_lines, strip_formatting_tags, text_width_units, width_units_given,
};

#[test]
fn classifier_ranges() {
    assert!(is_combining_mark(0x0301));
    assert!(is_combining_mark(0xfe2f));
    assert!(!is_combining_mark(0x0370));
    assert!(is_fullwidth('测' as u32));
    assert!(is_fullwidth(0x20000));
    assert!(!is_fullwidth(0x1f600));
    assert!(!is_fullwidth('A' as u32));
}

#[test]
fn width_table_in_order() {
    assert_eq!(get_char_width_units("\u{0301}"), 0);
    assert_eq!(get_char_width_units("测"), 20);
    assert_eq!(get_char_width_units("☺"), 20);
    assert_eq!(get_char_width_units("😀"), 20);
    assert_eq!(get_char_width_units("A😀"), 20);
    assert_eq!(get_char_width_units(" "), 3);
    assert_eq!(get_char_width_units("W"), 15);
    assert_eq!(get_char_width_units("M"), 15);
    assert_eq!(get_char_width_units("w"), 12);
    assert_eq!(get_char_width_units("%"), 12);
    assert_eq!(get_char_width_units("i"), 4);
    assert_eq!(get_char_width_units("'"), 4);
    assert_eq!(get_char_width_units("("), 5);
    assert_eq!(get_char_width_units("`"), 5);
    assert_eq!(get_char_width_units("r"), 8);
    assert_eq!(get_char_width_units("A"), 12);
    assert_eq!(get_char_width_units("7"), 10);
    assert_eq!(get_char_width_units("a"), 10);
    assert_eq!(get_char_width_units(""), 0);
}

#[test]
fn width_rule_with_given_emoji_answer() {
    assert_eq!(width_units_given("a", true), 20);
    assert_eq!(width_units_given("a", false), 10);
    assert_eq!(width_units_given("\u{0301}", true), 0);
}

#[test]
fn text_width_sums_characters() {
    assert_eq!(text_width_units("Wi r"), 15 + 4 + 3 + 8);
    assert_eq!(text_width_units(""), 0);
    assert_eq!(text_width_units("测试"), 40);
}

#[test]
fn measured_lines_ignore_tags() {
    assert_eq!(strip_formatting_tags("<B>x</strong >"), "x");
    assert_eq!(line_width_units("<b>W</b>\nii"), vec![15, 8]);
    assert_eq!(line_width_units(""), vec![0]);
}

#[test]
fn lines_split_on_line_feed() {
    assert_eq!(
        split_label_lines("line1\nline2\nline3"),
        vec!["line1", "line2", "line3"]
    );
    assert_eq!(split_label_lines(""), vec![""]);
    assert_eq!(split_label_lines("a\n"), vec!["a", ""]);
}
