use text_aligner::{run, Align, Line, LineState, StringWriter, WrapError, Writer};

#[test]
fn justifies_content() {
    let content = String::from("Hi there! My name is Roben Li.\n");
    let mut writer = StringWriter { val: String::new() };

    run(&content, &mut writer, 10, &Align::Justify).unwrap();

    assert_eq!("Hi  there!\nMy name is\nRoben  Li.\n", writer.val);
}

#[test]
fn aligns_left() {
    let content = String::from("Hello there! This text should be left-aligned.\n");
    let mut writer = StringWriter { val: String::new() };

    run(&content, &mut writer, 15, &Align::Left).unwrap();

    assert_eq!(
        "Hello there!\nThis text\nshould be\nleft-aligned.\n",
        writer.val
    );
}

#[test]
fn aligns_right() {
    let content = String::from("Gracias! And this text must be right-aligned.\n");
    let mut writer = StringWriter { val: String::new() };

    run(&content, &mut writer, 15, &Align::Right).unwrap();

    assert_eq!(
        "   Gracias! And\n this text must\n             be\n right-aligned.\n",
        writer.val
    );
}

#[test]
#[should_panic]
fn fails_to_align_when_word_is_long() {
    let content = String::from("Gracias! And this text must be right-aligned.\n");
    let mut writer = StringWriter {
        val: String::from(""),
    };

    // "right-aligned." is 14 symbols where the line width is 10
    run(&content, &mut writer, 10, &Align::Right).unwrap();
}

#[test]
fn word_too_long_emits_nothing() {
    let content = String::from("Gracias! And this text must be right-aligned.\n");
    let mut writer = StringWriter { val: String::new() };

    let r = run(&content, &mut writer, 10, &Align::Right);

    assert!(matches!(r, Err(WrapError::WordTooLong)));
    assert_eq!("", writer.val);
}

#[test]
fn justify_remainder_goes_to_leftmost_gaps() {
    // Four one-letter words at width 12 leave five free columns over three
    // gaps: the first two gaps get two extra spaces, the last one.
    let content = String::from("a b c d\n");
    let mut writer = StringWriter { val: String::new() };

    run(&content, &mut writer, 12, &Align::Justify).unwrap();

    assert_eq!("a   b   c  d\n", writer.val);
}

#[test]
fn non_final_lines_fill_the_width() {
    let content = String::from("one two three four five six seven\n");

    let mut right = StringWriter { val: String::new() };
    run(&content, &mut right, 11, &Align::Right).unwrap();
    let lines: Vec<&str> = right.val.split('\n').collect();
    for line in &lines[..lines.len() - 2] {
        assert_eq!(11, line.len());
    }

    let mut justify = StringWriter { val: String::new() };
    run(&content, &mut justify, 11, &Align::Justify).unwrap();
    let lines: Vec<&str> = justify.val.split('\n').collect();
    for line in &lines[..lines.len() - 2] {
        assert_eq!(11, line.len());
    }
}

#[test]
fn rejoining_output_restores_the_words() {
    let content = String::from("Hi there! My name is Roben Li.\n");
    let expected: Vec<&str> = vec!["Hi", "there!", "My", "name", "is", "Roben", "Li."];

    for align in [Align::Left, Align::Right, Align::Justify] {
        let mut writer = StringWriter { val: String::new() };
        run(&content, &mut writer, 10, &align).unwrap();
        let words: Vec<&str> = writer
            .val
            .split(|c| c == ' ' || c == '\n')
            .filter(|w| !w.is_empty())
            .collect();
        assert_eq!(expected, words);
    }
}

#[test]
fn empty_input_produces_no_output() {
    let mut writer = StringWriter { val: String::new() };
    run("", &mut writer, 5, &Align::Left).unwrap();
    assert_eq!("", writer.val);

    let mut writer = StringWriter { val: String::new() };
    run("\n", &mut writer, 5, &Align::Justify).unwrap();
    assert_eq!("", writer.val);
}

#[test]
fn input_without_trailing_terminator_keeps_last_word() {
    let mut writer = StringWriter { val: String::new() };
    run("a b", &mut writer, 3, &Align::Left).unwrap();
    assert_eq!("a b\n", writer.val);
}

#[test]
fn word_exactly_at_width_fits() {
    let mut writer = StringWriter { val: String::new() };
    run("abc\n", &mut writer, 3, &Align::Right).unwrap();
    assert_eq!("abc\n", writer.val);
}

#[test]
fn one_word_line_justifies_as_left() {
    // A lone word on a line gets no padding under Justify.
    let mut writer = StringWriter { val: String::new() };
    run("abcd ef\n", &mut writer, 4, &Align::Justify).unwrap();
    assert_eq!("abcd\nef\n", writer.val);
}

#[test]
fn line_accepts_words_until_full() {
    let mut line = Line::new(5);
    assert!(matches!(line.push("abc"), LineState::NextWord));
    assert_eq!(3, line.len);
    assert!(matches!(line.push("d"), LineState::NextWord));
    assert_eq!(5, line.len);
    assert_eq!(2, line.words_count);
    assert!(matches!(line.push("e"), LineState::Wrap));
    assert_eq!(5, line.len);
    assert_eq!(2, line.words_count);
    assert_eq!("abc", line.word_at(0));
    assert_eq!("d", line.word_at(1));

    line.clear();
    assert_eq!(0, line.len);
    assert_eq!(0, line.words_count);
    assert!(matches!(line.push("e"), LineState::NextWord));
}

#[test]
fn string_writer_collects_fragments() {
    let mut writer = StringWriter::new();
    writer.write("ab");
    writer.write("");
    writer.write("cd");
    assert_eq!("abcd", writer.val);
}
