use rabbitsay::cli::Args;
use rabbitsay::words::{is_space_char, split_words};
use rabbitsay::{build_sign, indent_rabbit, say, say_with, wrap_text, Config, RABBIT_HANDLE_POSITION};

fn strings(v: &[&str]) -> Vec<String> {
    v.iter().map(|s| s.to_string()).collect()
}

#[test]
fn wrap_two_words_at_five() {
    assert_eq!(wrap_text("Hello world", 5), vec!["Hello", "world"]);
}

#[test]
fn wrap_three_words_at_ten() {
    assert_eq!(
        wrap_text("Hello beautiful world", 10),
        vec!["Hello", "beautiful", "world"]
    );
}

#[test]
fn wrap_keeps_lines_within_width() {
    let lines = wrap_text("the quick brown fox jumps over the lazy dog", 9);
    assert_eq!(lines, vec!["the quick", "brown fox", "jumps", "over the", "lazy dog"]);
    for l in &lines {
        assert!(l.chars().count() <= 9);
    }
}

#[test]
fn wrap_puts_long_word_alone() {
    assert_eq!(
        wrap_text("a extraordinarily b", 5),
        vec!["a", "extraordinarily", "b"]
    );
}

#[test]
fn wrap_keeps_every_word_in_order() {
    let text = "  one two\tthree\n\nfour  five six seven  ";
    let lines = wrap_text(text, 8);
    let rejoined: Vec<String> = lines
        .iter()
        .flat_map(|l| l.split_whitespace().map(|w| w.to_string()))
        .collect();
    let original: Vec<String> = text.split_whitespace().map(|w| w.to_string()).collect();
    assert_eq!(rejoined, original);
    assert_eq!(lines, vec!["one two", "three", "four", "five six", "seven"]);
}

#[test]
fn wrap_empty_and_blank_text() {
    assert!(wrap_text("", 10).is_empty());
    assert!(wrap_text("   \t\n  ", 10).is_empty());
    assert!(wrap_text("\u{3000}\u{a0}", 3).is_empty());
}

#[test]
fn wrap_counts_characters_not_bytes() {
    assert_eq!(wrap_text("héllo wörld", 11), vec!["héllo wörld"]);
    assert_eq!(wrap_text("héllo wörld", 10), vec!["héllo", "wörld"]);
}

#[test]
fn wrap_at_zero_width() {
    assert_eq!(wrap_text("a b c", 0), vec!["a", "b", "c"]);
}

#[test]
fn wrap_splits_at_unicode_whitespace() {
    assert_eq!(wrap_text("a\u{3000}b\u{2003}c", 1), vec!["a", "b", "c"]);
}

#[test]
fn split_words_drops_whitespace_runs() {
    assert_eq!(split_words("  a  bb\t\nc "), vec!["a", "bb", "c"]);
    assert!(split_words("").is_empty());
}

#[test]
fn space_characters() {
    assert!(is_space_char(' '));
    assert!(is_space_char('\t'));
    assert!(is_space_char('\u{3000}'));
    assert!(!is_space_char('a'));
    assert!(!is_space_char('\u{200b}'));
}

#[test]
fn sign_for_two_lines() {
    let sign = build_sign(&strings(&["Hello", "World"]), 2);
    assert_eq!(
        sign,
        vec!["┌───────┐", "│ Hello │", "│ World │", "└───────┘"]
    );
}

#[test]
fn sign_borders_match() {
    let sign = build_sign(&strings(&["a", "longer line"]), 3);
    let top = sign.first().unwrap();
    let bottom = sign.last().unwrap();
    assert_eq!(top.chars().count(), 16);
    assert_eq!(bottom.chars().count(), 16);
    let top_edge: String = top.chars().skip(1).take(14).collect();
    let bottom_edge: String = bottom.chars().skip(1).take(14).collect();
    assert_eq!(top_edge, bottom_edge);
    for row in &sign {
        assert_eq!(row.chars().count(), 16);
    }
}

#[test]
fn sign_centres_with_odd_space_on_the_right() {
    let sign = build_sign(&strings(&["ab", "abcde"]), 0);
    assert_eq!(sign[1], "│ ab  │");
    assert_eq!(sign[2], "│abcde│");
}

#[test]
fn sign_centres_by_characters() {
    let sign = build_sign(&strings(&["é", "abc"]), 2);
    assert_eq!(sign[1], "│  é  │");
}

#[test]
fn sign_without_lines() {
    let sign = build_sign(&[], 3);
    assert_eq!(sign, vec!["┌───┐", "└───┘"]);
}

#[test]
fn rabbit_with_indent() {
    let rabbit = indent_rabbit(4);
    assert!(rabbit.starts_with("\n"));
    assert!(rabbit.contains("(\\__/)"));
    assert!(rabbit.contains("(•ㅅ•)"));
    assert_eq!(rabbit, "\n    (\\__/) ||\n    (•ㅅ•) ||\n    / 　 づ ");
    assert_eq!(indent_rabbit(0), "\n(\\__/) ||\n(•ㅅ•) ||\n/ 　 づ ");
}

#[test]
fn say_uses_default_layout() {
    assert_eq!(
        say("Hi"),
        "    ┌──────┐\n    │  Hi  │\n    └──────┘\n(\\__/) ||\n(•ㅅ•) ||\n/ 　 づ "
    );
}

#[test]
fn narrow_sign_moves_over_the_handle() {
    let out = say_with("ab", Config { max_width: 10, padding: 0 });
    assert_eq!(out, "      ┌──┐\n      │ab│\n      └──┘\n(\\__/) ||\n(•ㅅ•) ||\n/ 　 づ ");
}

#[test]
fn wide_sign_moves_the_rabbit() {
    let out = say_with("abcdefghijklmnopqrst", Config { max_width: 40, padding: 4 });
    let lines: Vec<&str> = out.split('\n').collect();
    assert_eq!(lines[0], "┌────────────────────────┐");
    assert_eq!(lines[1], "│  abcdefghijklmnopqrst  │");
    assert_eq!(lines[3], "     (\\__/) ||");
    assert_eq!(lines[5], "     / 　 づ ");
    assert_eq!(26 / 2 - RABBIT_HANDLE_POSITION, 5);
}

#[test]
fn sign_exactly_twice_the_handle_is_not_shifted() {
    let out = say_with("abcdefghijkl", Config { max_width: 40, padding: 2 });
    let lines: Vec<&str> = out.split('\n').collect();
    assert_eq!(lines[0], "┌──────────────┐");
    assert_eq!(lines[3], "(\\__/) ||");
}

#[test]
fn empty_message_still_has_a_sign() {
    let out = say_with("   ", Config { max_width: 10, padding: 2 });
    assert_eq!(out, "      ┌──┐\n      └──┘\n(\\__/) ||\n(•ㅅ•) ||\n/ 　 づ ");
}

#[test]
fn default_config() {
    let c = Config::default();
    assert_eq!(c.max_width, 40);
    assert_eq!(c.padding, 4);
}

#[test]
fn args_give_config() {
    let args = Args { message: "hi".to_string(), max_width: 16, spacing: 4 };
    let c = args.config();
    assert_eq!(c.max_width, 16);
    assert_eq!(c.padding, 4);
}
