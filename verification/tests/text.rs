use bugglers::frame::frame_lines;
use bugglers::frame::widest_line;
use bugglers::text::byte_length;
use bugglers::text::push_decimal;
use bugglers::text::push_repeated;

#[test]
fn numbers_are_written_in_decimal() {
    for number in [0u64, 1, 9, 10, 11, 99, 100, 101, 4096, 230_400, u32::MAX as u64, u64::MAX] {
        let mut text = String::from("n=");
        push_decimal(&mut text, number);
        assert_eq!(text, format!("n={}", number));
    }
}

#[test]
fn largest_number_has_twenty_digits() {
    let mut text = String::new();
    push_decimal(&mut text, u64::MAX);
    assert_eq!(text, "18446744073709551615");
    assert_eq!(text.len(), 20);
}

#[test]
fn runs_repeat_one_character() {
    let mut text = String::from("[");
    push_repeated(&mut text, " ", 3);
    push_repeated(&mut text, "═", 2);
    push_repeated(&mut text, "x", 0);
    assert_eq!(text, "[   ══");
}

#[test]
fn length_is_counted_in_bytes() {
    assert_eq!(byte_length(&String::new()), 0);
    assert_eq!(byte_length(&String::from("abc")), 3);
    assert_eq!(byte_length(&String::from("é")), 2);
    assert_eq!(byte_length(&String::from("║")), 3);
    assert_eq!(byte_length(&String::from("𝄞")), 4);
    assert_eq!(byte_length(&String::from("\n║  Tips : ")), 13);
}

#[test]
fn widest_line_is_found() {
    let lines = vec![String::from("ab"), String::from("║"), String::from("abcd"), String::new()];
    assert_eq!(widest_line(&lines, 0), 4);
    assert_eq!(widest_line(&lines, 4), 4);
    assert_eq!(widest_line(&lines, 9), 9);
    assert_eq!(widest_line(&Vec::new(), 0), 0);
    assert_eq!(widest_line(&Vec::new(), 7), 7);
}

#[test]
fn lines_are_filled_up_and_closed() {
    let lines = vec![String::from("\n║ab"), String::from("\n║"), String::from("\n║abcd")];
    let mut drawn = String::from(">");
    frame_lines(&mut drawn, &lines, 8);
    assert_eq!(drawn, ">\n║ab    ║\n║      ║\n║abcd  ║");
    let mut untouched = String::from("only");
    frame_lines(&mut untouched, &Vec::new(), 3);
    assert_eq!(untouched, "only");
}
