use rustmon::say::{say, speech_bubble, split_into_lines};

#[test]
fn split_on_line_breaks() {
    assert_eq!(split_into_lines("a\nb"), vec!["a".to_string(), "b".to_string()]);
    assert_eq!(split_into_lines("a\r\nb"), vec!["a".to_string(), "b".to_string()]);
    assert_eq!(split_into_lines("a\n"), vec!["a".to_string()]);
    assert_eq!(split_into_lines("\n"), vec!["".to_string()]);
    assert_eq!(split_into_lines(""), Vec::<String>::new());
    // A carriage return not followed by a line break stays in the line.
    assert_eq!(split_into_lines("a\rb"), vec!["a\rb".to_string()]);
}

#[test]
fn bubble_centers_short_text_in_minimum_width() {
    let expected = "+--------------------------+\n|            hi            |\n+--------------------------+\n                //\n               //\n";
    assert_eq!(say("hi"), expected);
}

#[test]
fn bubble_puts_odd_padding_space_on_the_right() {
    // A 3-character line in the 24-wide bubble leaves 21 padding spaces:
    // 10 on the left and 11 on the right.
    let expected = "+--------------------------+\n|           abc            |\n+--------------------------+\n                //\n               //\n";
    assert_eq!(say("abc"), expected);
}

#[test]
fn bubble_grows_with_long_lines() {
    let long = "this line is longer than twenty-four characters";
    let content = vec![long.to_string(), "x".to_string()];
    let out = speech_bubble(&content);
    let lines: Vec<&str> = out.lines().collect();
    assert_eq!(lines.len(), 6);
    let width = long.chars().count();
    assert_eq!(lines[0], format!("+{}+", "-".repeat(width + 2)));
    assert_eq!(lines[1], format!("| {} |", long));
    let pad = width - 1;
    let left = pad / 2;
    let right = pad - left;
    assert_eq!(lines[2], format!("| {}x{} |", " ".repeat(left), " ".repeat(right)));
    assert_eq!(lines[3], format!("+{}+", "-".repeat(width + 2)));
    assert_eq!(lines[4], "                //");
    assert_eq!(lines[5], "               //");
}

#[test]
fn multi_line_text_keeps_line_order() {
    let out = say("one\ntwo");
    let lines: Vec<&str> = out.lines().collect();
    assert_eq!(lines.len(), 6);
    assert!(lines[1].contains("one"));
    assert!(lines[2].contains("two"));
    let one = lines[1].find("one").unwrap();
    let two = lines[2].find("two").unwrap();
    // Equal-length lines are centered identically.
    assert_eq!(one, two);
}

#[test]
fn split_keeps_empty_middle_lines() {
    assert_eq!(
        split_into_lines("a\n\nb"),
        vec!["a".to_string(), "".to_string(), "b".to_string()]
    );
}
