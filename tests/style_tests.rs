use mdp::style::text_fill_column;

#[test]
fn words_fill_lines_up_to_width() {
    assert_eq!(text_fill_column("a bb ccc", 4), vec!["a bb ".to_string(), "ccc ".to_string()]);
    assert_eq!(
        text_fill_column("one two three four", 8),
        vec!["one two ".to_string(), "three ".to_string(), "four ".to_string()]
    );
    assert_eq!(text_fill_column("a b", 2), vec!["a ".to_string(), "b ".to_string()]);
    assert_eq!(text_fill_column("a b", 3), vec!["a b ".to_string()]);
}

#[test]
fn long_word_stands_alone() {
    assert_eq!(
        text_fill_column("abcdefgh x", 4),
        vec!["abcdefgh ".to_string(), "x ".to_string()]
    );
}

#[test]
fn empty_text_is_one_line() {
    assert_eq!(text_fill_column("", 10), vec![" ".to_string()]);
}

#[test]
fn width_counts_bytes() {
    assert_eq!(text_fill_column("éé a", 4), vec!["éé ".to_string(), "a ".to_string()]);
    assert_eq!(text_fill_column("ab a", 4), vec!["ab a ".to_string()]);
    assert_eq!(text_fill_column("éé ab", 4), vec!["éé ".to_string(), "ab ".to_string()]);
}
