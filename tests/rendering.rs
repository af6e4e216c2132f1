use ees::{
    error_from_string, error_from_string_literal, make_opaque, print_error_chain, to_err,
    wrap_error_from_string, wrap_error_from_string_literal, Error, MainError, Message,
};

#[test]
fn literal_without_substitution_renders_as_itself() {
    let e = error_from_string_literal("plain {} braces");
    assert_eq!(print_error_chain(&e).to_string(), "plain {} braces");
    assert_eq!(print_error_chain(&e).render(false), "plain {} braces");
    assert_eq!(print_error_chain(&e).render(true), "plain {} braces");
}

#[test]
fn formatted_message_matches_formatter() {
    let text = format!("{}-{:>4}-{:03}", "a", 7, 5);
    let e = error_from_string(format!("{}-{:>4}-{:03}", "a", 7, 5));
    assert_eq!(print_error_chain(&e).to_string(), text);
    assert_eq!(print_error_chain(&e).to_string(), "a-   7-005");
}

#[test]
fn empty_message() {
    let e = error_from_string(String::new());
    assert_eq!(print_error_chain(&e).to_string(), "");
    assert_eq!(print_error_chain(&e).render(true), "");
}

#[test]
fn wrapped_literal_compact() {
    let e = wrap_error_from_string_literal(error_from_string_literal("unknown error"), "outer");
    assert_eq!(print_error_chain(&e).to_string(), "outer: unknown error");
}

#[test]
fn compact_joins_every_link() {
    let mut e = error_from_string_literal("c0");
    for i in 1..5 {
        e = wrap_error_from_string(e, format!("c{}", i));
    }
    assert_eq!(print_error_chain(&e).to_string(), "c4: c3: c2: c1: c0");
}

#[test]
fn expanded_three_links_numbers_from_zero() {
    let e = error_from_string_literal("inner");
    let e = wrap_error_from_string_literal(e, "middle");
    let e = wrap_error_from_string_literal(e, "outer");
    assert_eq!(
        print_error_chain(&e).render(true),
        "outer\n\nCaused by:\n    0: middle\n    1: inner"
    );
}

#[test]
fn expanded_index_wider_than_three_digits() {
    let mut e = error_from_string_literal("base");
    for i in 0..1001 {
        e = wrap_error_from_string(e, format!("w{}", i));
    }
    let text = print_error_chain(&e).render(true);
    let lines: Vec<&str> = text.lines().collect();
    assert_eq!(lines.len(), 3 + 1001);
    assert_eq!(lines[0], "w1000");
    assert_eq!(lines[1], "");
    assert_eq!(lines[2], "Caused by:");
    assert_eq!(lines[3], "    0: w999");
    assert_eq!(lines[13], "   10: w989");
    assert_eq!(lines[103], "  100: w899");
    assert_eq!(lines[1003], " 1000: base");
}

#[test]
fn opaque_keeps_rendering() {
    let e = wrap_error_from_string_literal(error_from_string_literal("inner"), "outer");
    let before_compact = print_error_chain(&e).to_string();
    let before_expanded = print_error_chain(&e).render(true);
    let once = to_err(e);
    assert_eq!(print_error_chain(&once).to_string(), before_compact);
    assert_eq!(print_error_chain(&once).render(true), before_expanded);
    let twice = to_err(once);
    assert_eq!(print_error_chain(&twice).to_string(), "outer: inner");
    assert_eq!(print_error_chain(&twice).render(true), "outer\n\nCaused by:\n    inner");
}

#[test]
fn opaque_inside_chain_adds_no_link() {
    let e = to_err(error_from_string_literal("inner"));
    let e = wrap_error_from_string_literal(e, "middle");
    let e = to_err(e);
    let e = wrap_error_from_string_literal(e, "outer");
    assert_eq!(print_error_chain(&e).to_string(), "outer: middle: inner");
    assert_eq!(
        print_error_chain(&e).render(true),
        "outer\n\nCaused by:\n    0: middle\n    1: inner"
    );
}

#[test]
fn make_opaque_hands_error_on() {
    let e = make_opaque(wrap_error_from_string_literal(error_from_string_literal("b"), "a"));
    assert_eq!(print_error_chain(&e).to_string(), "a: b");
}

#[test]
fn message_and_source() {
    let e = wrap_error_from_string_literal(error_from_string_literal("inner"), "outer");
    let e = to_err(e);
    assert_eq!(e.message(), "outer");
    assert_eq!(e.to_string(), "outer");
    let cause = e.source().unwrap();
    assert_eq!(cause.message(), "inner");
    assert!(cause.source().is_none());
}

#[test]
fn message_text_kinds() {
    let borrowed = Message::Borrowed("lit");
    let owned = Message::Owned(String::from("built"));
    assert_eq!(borrowed.as_str(), "lit");
    assert_eq!(owned.as_str(), "built");
}

#[test]
fn main_error_shows_expanded_chain() {
    let e = wrap_error_from_string_literal(error_from_string_literal("oh no"), "permission denied");
    let m = MainError::from(e);
    assert_eq!(m.to_string(), "permission denied\n\nCaused by:\n    oh no");
    let single = MainError::from(error_from_string_literal("alone"));
    assert_eq!(single.to_string(), "alone");
}
