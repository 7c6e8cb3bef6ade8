use rabbitsay::text::wrap_text;

#[test]
fn test_wrap_text_short_message() {
    let text = "Hello world";
    let max_width = 16;
    let result = wrap_text(text, &max_width);
    assert_eq!(result, vec!["Hello world"]);
}

#[test]
fn test_wrap_text_long_message() {
    let text = "This is a very long message that should be wrapped";
    let max_width = 10;
    let result = wrap_text(text, &max_width);
    assert_eq!(
        result,
        vec![
            "This is a",
            "very long",
            "message",
            "that",
            "should be",
            "wrapped"
        ]
    );
}
