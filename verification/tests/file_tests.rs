use dotenv_tool::file::{join_lines_of, split_lines_of};

fn strings(lines: &[&str]) -> Vec<String> {
    lines.iter().map(|line| line.to_string()).collect()
}

#[test]
fn split_exact_values() {
    assert_eq!(split_lines_of(""), strings(&[]));
    assert_eq!(split_lines_of("a"), strings(&["a"]));
    assert_eq!(split_lines_of("a\n"), strings(&["a"]));
    assert_eq!(split_lines_of("a\nb"), strings(&["a", "b"]));
    assert_eq!(split_lines_of("\n"), strings(&[""]));
    assert_eq!(split_lines_of("\n\n"), strings(&["", ""]));
    assert_eq!(split_lines_of("# comment\n\nAPI_KEY=abc\n"), strings(&["# comment", "", "API_KEY=abc"]));
}

#[test]
fn split_takes_carriage_return_before_line_feed_only() {
    assert_eq!(split_lines_of("a\r\nb\r\n"), strings(&["a", "b"]));
    assert_eq!(split_lines_of("a\r"), strings(&["a\r"]));
    assert_eq!(split_lines_of("a\r\r\n"), strings(&["a\r"]));
    assert_eq!(split_lines_of("a\rb\n"), strings(&["a\rb"]));
    assert_eq!(split_lines_of("\r\n"), strings(&[""]));
    assert_eq!(split_lines_of("\r"), strings(&["\r"]));
}

#[test]
fn split_agrees_with_std_lines() {
    let samples = [
        "",
        "\n",
        "one",
        "one\n",
        "one\ntwo",
        "one\r\ntwo\r\n",
        "one\n\n\nfour\n",
        "tail\r",
        "x\r\r\ny",
        "\r\n\r\n",
        "K=\u{4e16}\u{754c}\n# \u{e9}\n",
    ];
    for text in samples {
        let expected: Vec<String> = text.lines().map(|line| line.to_string()).collect();
        assert_eq!(split_lines_of(text), expected, "splitting {:?}", text);
    }
}

#[test]
fn join_ends_every_line_with_a_line_feed() {
    assert_eq!(join_lines_of(&strings(&[])), "");
    assert_eq!(join_lines_of(&strings(&["a"])), "a\n");
    assert_eq!(join_lines_of(&strings(&["a", "b"])), "a\nb\n");
    assert_eq!(join_lines_of(&strings(&["", ""])), "\n\n");
    assert_eq!(join_lines_of(&strings(&["# c", "", "K=V"])), "# c\n\nK=V\n");
}

#[test]
fn single_lines_read_back_as_written() {
    let lines = strings(&["# comment", "", "A=1", "  B = two  ", "no equals"]);
    assert_eq!(split_lines_of(&join_lines_of(&lines)), lines);
}

#[test]
fn carriage_return_at_line_end_is_lost_on_reading_back() {
    let lines = strings(&["A=1\r", "B=2"]);
    assert_eq!(split_lines_of(&join_lines_of(&lines)), strings(&["A=1", "B=2"]));
}
