use skill_translator::header::rewrite_field;
use skill_translator::text::{
    chars_of, decimal_of, is_whitespace, join_lines, line_text_len, replace_all, split_lines,
    split_whole_lines, string_of,
};

fn rewrite(header: &str, field: &str, value: &str) -> String {
    string_of(&rewrite_field(&chars_of(header), &chars_of(field), &chars_of(value)))
}

fn lines(text: &str) -> Vec<String> {
    split_lines(&chars_of(text)).iter().map(string_of).collect()
}

#[test]
fn double_quoted_value_changes_and_nothing_else() {
    let out = rewrite("---\nname: x\ndescription: \"A\"\ntags: [a, b]\n---", "description", "B");
    assert_eq!(out, "---\nname: x\ndescription: \"B\"\ntags: [a, b]\n---");
}

#[test]
fn single_quoted_value_keeps_its_quotes() {
    let out = rewrite("a: 1\ndescription:   'old'\nb: 2", "description", "new");
    assert_eq!(out, "a: 1\ndescription: 'new'\nb: 2");
}

#[test]
fn plain_value_is_replaced_in_place() {
    let out = rewrite("description: old text\nname: x", "description", "new text");
    assert_eq!(out, "description: new text\nname: x");
}

#[test]
fn folded_block_with_two_lines_stays_a_block() {
    let header = "---\nname: x\ndescription: >\n  old one\n\n  old two\nversion: 1\n---";
    let out = rewrite(header, "description", "first\n\nsecond\n");
    assert_eq!(out, "---\nname: x\ndescription: >\n  first\n  second\nversion: 1\n---");
}

#[test]
fn literal_block_is_replaced_like_a_folded_one() {
    let out = rewrite("description: |\n  a\n  b\nname: x", "description", "one\ntwo\nthree");
    assert_eq!(out, "description: >\n  one\n  two\n  three\nname: x");
}

#[test]
fn block_with_one_line_left_collapses() {
    let out = rewrite("description: >\n  a\n  b\nname: x", "description", "\n  \nonly\n\n");
    assert_eq!(out, "description: only\nname: x");
}

#[test]
fn block_at_the_end_is_consumed_whole() {
    let out = rewrite("name: x\ndescription: >\n  a\n\n  b\n", "description", "one");
    assert_eq!(out, "name: x\ndescription: one\n");
    let out = rewrite("name: x\ndescription: >\n  a\n\n  b", "description", "one\ntwo");
    assert_eq!(out, "name: x\ndescription: >\n  one\n  two\n");
    let out = rewrite("name: x\ndescription: >", "description", "one\ntwo");
    assert_eq!(out, "name: x\ndescription: >\n  one\n  two");
}

#[test]
fn block_with_nothing_left_is_an_empty_block() {
    let out = rewrite("description: >\n  a\nname: x", "description", "");
    assert_eq!(out, "description: >\nname: x");
}

#[test]
fn plain_value_with_line_feeds_becomes_a_block() {
    let out = rewrite("description: old\nname: x", "description", "one\n\ntwo");
    assert_eq!(out, "description: >\n  one\n  two\nname: x");
    let out = rewrite("description: old\nname: x", "description", "one\n\n");
    assert_eq!(out, "description: one\nname: x");
}

#[test]
fn quoted_value_with_line_feeds_stays_quoted() {
    let out = rewrite("description: \"old\"", "description", "one\ntwo");
    assert_eq!(out, "description: \"one\ntwo\"");
}

#[test]
fn field_without_value_is_kept() {
    let out = rewrite("description:\nname: x", "description", "new");
    assert_eq!(out, "description:\nname: x");
    let out = rewrite("description:   \nname: x", "description", "new");
    assert_eq!(out, "description:   \nname: x");
}

#[test]
fn other_fields_and_indented_lines_are_kept() {
    let header = "descriptions: a\n  description: nested\nmy description: b";
    assert_eq!(rewrite(header, "description", "new"), header);
}

#[test]
fn line_endings_are_kept() {
    let out = rewrite("---\r\nname: x\r\ndescription: a\r\n---\r\n", "description", "b");
    assert_eq!(out, "---\r\nname: x\r\ndescription: b\r\n---\r\n");
    let out = rewrite("---\nname: x\ndescription: \"A\"\n---\n", "description", "B");
    assert_eq!(out, "---\nname: x\ndescription: \"B\"\n---\n");
    let out = rewrite("---\ndescription: >\n  a\n  b\n---\n\n", "description", "one\ntwo");
    assert_eq!(out, "---\ndescription: >\n  one\n  two\n---\n\n");
}

#[test]
fn replacement_lines_end_as_the_field_line_did() {
    let out = rewrite("description: a\r\nname: x\r\n", "description", "one\ntwo");
    assert_eq!(out, "description: >\r\n  one\r\n  two\r\nname: x\r\n");
    let out = rewrite("name: x\ndescription: old", "description", "one\ntwo");
    assert_eq!(out, "name: x\ndescription: >\n  one\n  two");
    let out = rewrite("description: >\r\n  a\r\nname: x", "description", "only");
    assert_eq!(out, "description: only\r\nname: x");
}

#[test]
fn header_without_the_field_is_kept_character_by_character() {
    for header in ["", "\n", "a\r\n\nb\r", "---\nname: x\n---\n\n\n", " description: x\r\n", "x\ry\n"] {
        assert_eq!(rewrite(header, "description", "new"), header, "for {:?}", header);
    }
}

#[test]
fn whole_lines_are_split_as_the_standard_library_splits_them() {
    for text in ["", "\n", "a", "a\n", "a\nb", "a\r\nb\r\n", "a\r", "\n\n", "x\ry\nz"] {
        let expected: Vec<String> = text.split_inclusive('\n').map(|l| l.to_string()).collect();
        let got: Vec<String> = split_whole_lines(&chars_of(text)).iter().map(string_of).collect();
        assert_eq!(got, expected, "for {:?}", text);
        for whole in &expected {
            let n = line_text_len(&chars_of(whole));
            let text_of_line: String = whole.chars().take(n).collect();
            assert_eq!(Some(text_of_line.as_str()), whole.lines().next().or(Some("")));
        }
    }
}

#[test]
fn lines_are_split_as_the_standard_library_splits_them() {
    for text in [
        "",
        "\n",
        "a",
        "a\n",
        "a\nb",
        "a\r\nb\r\n",
        "a\r",
        "a\r\r\nb",
        "\n\n",
        "\r\n",
        "a\n\nb\n",
        "x\ry\nz",
    ] {
        let expected: Vec<String> = text.lines().map(|l| l.to_string()).collect();
        assert_eq!(lines(text), expected, "for {:?}", text);
    }
}

#[test]
fn lines_are_joined_with_line_feeds() {
    let rows = vec![chars_of("a"), chars_of(""), chars_of("b")];
    assert_eq!(string_of(&join_lines(&rows)), "a\n\nb");
    assert_eq!(string_of(&join_lines(&Vec::new())), "");
    assert_eq!(string_of(&join_lines(&vec![chars_of("only")])), "only");
}

#[test]
fn white_space_is_what_the_standard_library_takes_for_it() {
    for code in 0..=0x10ffffu32 {
        if let Some(c) = char::from_u32(code) {
            assert_eq!(is_whitespace(c), c.is_whitespace(), "for U+{:04X}", code);
        }
    }
}

#[test]
fn replace_all_is_what_the_standard_library_does() {
    for (text, from, to) in [
        ("aaa", "aa", "b"),
        ("abcabc", "bc", "X"),
        ("abc", "", "-"),
        ("", "", "-"),
        ("", "a", "b"),
        ("abc", "abcd", "x"),
        ("ab", "ab", ""),
        ("世界世", "世", "world"),
        ("xx", "x", "xx"),
    ] {
        let out = string_of(&replace_all(&chars_of(text), &chars_of(from), &chars_of(to)));
        assert_eq!(out, text.replace(from, to), "for {:?} {:?} {:?}", text, from, to);
    }
}

#[test]
fn numbers_are_written_in_decimal() {
    for n in [0u64, 7, 10, 99, 100, 12345, u64::MAX] {
        assert_eq!(string_of(&decimal_of(n)), n.to_string());
    }
}
