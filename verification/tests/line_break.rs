use saba_core::renderer::layout::line_break::{
    collapse_whitespace, find_index_for_line_break, split_text,
};

#[test]
fn a_line_breaks_at_the_last_space_that_fits() {
    assert_eq!(find_index_for_line_break("ab cd ef".to_string(), 6), 5);
    assert_eq!(find_index_for_line_break("ab cd ef".to_string(), 5), 2);
    assert_eq!(find_index_for_line_break("ab cd ef".to_string(), 2), 2);
    assert_eq!(find_index_for_line_break("abcdef".to_string(), 4), 4);
    assert_eq!(find_index_for_line_break(" abc".to_string(), 3), 0);
    assert_eq!(find_index_for_line_break("abc".to_string(), 0), 0);
}

#[test]
fn a_short_text_is_one_line() {
    assert_eq!(split_text("hello".to_string(), 8), vec!["hello".to_string()]);
    assert_eq!(split_text("".to_string(), 8), vec!["".to_string()]);
    let fits = "a".repeat(75);
    assert_eq!(split_text(fits.clone(), 8), vec![fits]);
}

#[test]
fn a_long_text_without_spaces_breaks_hard() {
    let line = "a".repeat(100);
    assert_eq!(
        split_text(line, 8),
        vec!["a".repeat(75), "a".repeat(25)]
    );
    let line = "b".repeat(60);
    assert_eq!(
        split_text(line, 24),
        vec!["b".repeat(25), "b".repeat(25), "b".repeat(10)]
    );
}

#[test]
fn a_long_text_breaks_at_spaces_and_the_rest_is_trimmed() {
    let line = format!("{} {}   {}", "a".repeat(40), "b".repeat(40), "c".repeat(10));
    assert_eq!(
        split_text(line, 8),
        vec![
            "a".repeat(40),
            format!("{}   {}", "b".repeat(40), "c".repeat(10)),
        ]
    );
    let line = format!("{} {} \t\n", "a".repeat(70), "b".repeat(80));
    assert_eq!(
        split_text(line, 8),
        vec!["a".repeat(70), "b".repeat(75), "b".repeat(5)]
    );
}

#[test]
fn a_space_at_the_start_gives_an_empty_line() {
    let line = format!(" {}", "a".repeat(80));
    assert_eq!(
        split_text(line, 8),
        vec!["".to_string(), "a".repeat(75), "a".repeat(5)]
    );
}

#[test]
fn runs_of_spaces_and_newlines_become_one_space() {
    assert_eq!(collapse_whitespace(&"a  b\n\nc".to_string()), "a b c");
    assert_eq!(collapse_whitespace(&"\n  a \n".to_string()), "a");
    assert_eq!(collapse_whitespace(&"".to_string()), "");
    assert_eq!(collapse_whitespace(&" \n ".to_string()), "");
    assert_eq!(collapse_whitespace(&"a\tb".to_string()), "a\tb");
    assert_eq!(collapse_whitespace(&"one".to_string()), "one");
}
