//! Paths in generated code lead through the crate in front.

use gpui_core::facade::{
    is_path_head, literals_to_lex, rewrite_stream, Delimiter, FacadePath, Lexed, Literal, Token,
};
use gpui_core::text::{append_decimal, replace_all};

fn ident(text: &str) -> Token {
    Token::Ident { text: text.to_string(), span: 5 }
}

fn colon(joint: bool) -> Token {
    Token::Punct { mark: ':', joint, span: 5 }
}

fn literal(text: &str) -> Token {
    Token::Literal(Literal { text: text.to_string(), span: 5 })
}

fn group(stream: Vec<Token>) -> Token {
    Token::Group { delimiter: Delimiter::Brace, stream, span: 5 }
}

fn path(head: &str, tail: &str) -> Vec<Token> {
    vec![ident(head), colon(true), colon(false), ident(tail)]
}

/// The code as text.
fn shown(tokens: &[Token]) -> String {
    let mut text = String::new();
    for token in tokens {
        match token {
            Token::Group { stream, .. } => text.push_str(&format!("{{{}}}", shown(stream))),
            Token::Ident { text: name, .. } => text.push_str(name),
            Token::Punct { mark, .. } => text.push(*mark),
            Token::Literal(literal) => text.push_str(&literal.text),
        }
    }
    text
}

#[test]
fn heads_of_paths_are_replaced() {
    let name = FacadePath::Name("kit".to_string());
    let code = vec![group(path("gpui", "App"))];
    assert_eq!(shown(&rewrite_stream(&code, Some(&name), &vec![])), "{kit::App}");
    let code = path("gpui_platform", "run");
    assert_eq!(shown(&rewrite_stream(&code, Some(&name), &vec![])), "kit::platform::run");
    assert_eq!(
        shown(&rewrite_stream(&code, Some(&FacadePath::Itself), &vec![])),
        "crate::platform::run"
    );
    let code = path("gpui", "App");
    assert_eq!(shown(&rewrite_stream(&code, Some(&FacadePath::Itself), &vec![])), "crate::App");
    assert_eq!(shown(&rewrite_stream(&code, None, &vec![])), "gpui::App");
    assert_eq!(shown(&rewrite_stream(&path("other", "App"), Some(&name), &vec![])), "other::App");
}

#[test]
fn only_heads_of_paths_are_replaced() {
    let name = FacadePath::Name("kit".to_string());
    let code = vec![ident("gpui"), colon(false), ident("u8"), ident("gpui")];
    assert!(!is_path_head(&code, 0));
    assert_eq!(shown(&rewrite_stream(&code, Some(&name), &vec![])), "gpui:u8gpui");
    assert!(is_path_head(&path("gpui", "App"), 0));
    assert!(!is_path_head(&path("gpui", "App"), 3));
    assert!(!is_path_head(&path("gpui", "App"), 99));
    assert!(!is_path_head(&path("gpui", "App"), usize::MAX));
}

#[test]
fn paths_in_literals_are_led_where_they_lex() {
    let name = FacadePath::Name("kit".to_string());
    let code = vec![group(vec![
        literal("\"::gpui::A ::gpui_platform::B\""),
        literal("\"plain\""),
    ])];
    let asked = literals_to_lex(&code, Some(&name));
    assert_eq!(asked, vec!["\"::kit::A ::kit::platform::B\"".to_string()]);
    assert!(literals_to_lex(&code, None).is_empty());
    let lexed = vec![Lexed {
        text: asked[0].clone(),
        literal: Some(Literal { text: asked[0].clone(), span: 0 }),
    }];
    let code_after = rewrite_stream(&code, Some(&name), &lexed);
    assert_eq!(shown(&code_after), "{\"::kit::A ::kit::platform::B\"\"plain\"}");
    // Where the lexer takes the text for anything else, the literal stays.
    let refused = vec![Lexed { text: asked[0].clone(), literal: None }];
    assert_eq!(shown(&rewrite_stream(&code, Some(&name), &refused)), shown(&code));
    let asked = literals_to_lex(&code, Some(&FacadePath::Itself));
    assert_eq!(asked, vec!["\"crate::A crate::platform::B\"".to_string()]);
}

#[test]
fn texts() {
    assert_eq!(replace_all("aaaa", "aa", "b"), "bb");
    assert_eq!(replace_all("aäa", "ä", "xy"), "axya");
    assert_eq!(replace_all("", "a", "b"), "");
    let mut text = String::from("n");
    append_decimal(&mut text, 0);
    append_decimal(&mut text, 9075);
    assert_eq!(text, "n09075");
}
