use tamper::ast::{Ast, Expr};
use tamper::context::Context;
use tamper::lexer::{Lexer, Token};
use tamper::tamper::Tamper;
use tamper::unparser::Unparser;

fn compile(input: &str, pairs: &[(&str, &str)]) -> String {
    let mut context = Context::new();
    for (k, v) in pairs {
        context.insert(k.to_string(), v.to_string());
    }
    Tamper::new_raw(input.to_string()).render(&mut context)
}

fn lex(input: &str) -> Vec<Token> {
    Lexer::new(input.to_string()).evaluate()
}

fn s(x: &str) -> String {
    x.to_string()
}

#[test]
fn test_ast_parsing() {}

#[test]
fn empty_element_renders_as_pair() {
    assert_eq!(compile("<div></div>", &[]), "<div></div>");
}

#[test]
fn bound_placeholder_is_substituted() {
    assert_eq!(compile("<p>{{ value }}</p>", &[("value", "foobar")]), "<p>foobar</p>");
}

#[test]
fn unbound_placeholder_renders_empty() {
    assert_eq!(compile("<p>{{ missing }}</p>", &[]), "<p></p>");
}

#[test]
fn demo_template_flattens_under_root() {
    assert_eq!(
        compile("<div><p>{{ value }}</p></div>", &[("value", "foobar")]),
        "<div><p></p>foobar</div>"
    );
}

#[test]
fn nested_tags_become_siblings_under_root() {
    let t = Tamper::new_raw(s("<a><b><c></c></b></a>"));
    let root = t.ast.as_ref().unwrap();
    assert!(matches!(&root.node, Expr::HtmlElement { tag } if tag == "a"));
    let kids = root.children.as_ref().unwrap();
    assert_eq!(kids.len(), 2);
    assert!(matches!(&kids[0].node, Expr::HtmlElement { tag } if tag == "b"));
    assert!(matches!(&kids[1].node, Expr::HtmlElement { tag } if tag == "c"));
    assert!(kids.iter().all(|k| k.children.as_ref().unwrap().is_empty()));
    assert_eq!(compile("<a><b><c></c></b></a>", &[]), "<a><b></b><c></c></a>");
}

#[test]
fn empty_and_blank_inputs_have_no_tree() {
    assert!(Tamper::new_raw(s("")).ast.is_none());
    assert!(Tamper::new_raw(s("   \t\n")).ast.is_none());
    assert!(Tamper::new_raw(s("{} 12 ?")).ast.is_none());
    assert_eq!(compile("", &[]), "");
    assert_eq!(compile("  ", &[("x", "y")]), "");
}

#[test]
fn lexing_twice_gives_same_tokens() {
    let text = "<p>{{ value }}</p> tail";
    assert_eq!(lex(text), lex(text));
    let mut lexer = Lexer::new(s(text));
    let first = lexer.evaluate();
    let second = lexer.evaluate();
    assert_eq!(first, second);
}

#[test]
fn lexer_produces_each_token_kind() {
    assert_eq!(
        lex("<p>{{ value }}</p>"),
        vec![
            Token::HtmlOpeningTag(s("p")),
            Token::LeftBrace,
            Token::LeftBrace,
            Token::StringLiteral(s("value")),
            Token::RightBrace,
            Token::RightBrace,
            Token::HtmlClosingTag(s("p")),
        ]
    );
}

#[test]
fn lexer_words_stop_at_non_letters() {
    assert_eq!(
        lex("ab1cd}ef<x>"),
        vec![
            Token::StringLiteral(s("ab")),
            Token::StringLiteral(s("cd")),
            Token::RightBrace,
            Token::StringLiteral(s("ef")),
            Token::HtmlOpeningTag(s("x")),
        ]
    );
}

#[test]
fn lexer_reads_non_ascii_letters_as_words() {
    assert_eq!(lex("été 京"), vec![Token::StringLiteral(s("été")), Token::StringLiteral(s("京"))]);
    assert_eq!(lex("1 2 + !"), vec![]);
}

#[test]
fn lexer_keeps_unterminated_tags() {
    assert_eq!(lex("<abc"), vec![Token::HtmlOpeningTag(s("abc"))]);
    assert_eq!(lex("</ab"), vec![Token::HtmlClosingTag(s("ab"))]);
    assert_eq!(lex("<"), vec![Token::HtmlOpeningTag(s(""))]);
    assert_eq!(lex("<a b>"), vec![Token::HtmlOpeningTag(s("a b"))]);
}

#[test]
fn builder_ignores_closing_tags_and_braces() {
    let tokens = vec![
        Token::HtmlClosingTag(s("x")),
        Token::LeftBrace,
        Token::RightBrace,
    ];
    assert!(Ast::from_tokens(tokens).is_none());
    assert!(Ast::from_tokens(vec![]).is_none());
}

#[test]
fn builder_makes_first_node_the_root() {
    let tokens = vec![
        Token::LeftBrace,
        Token::StringLiteral(s("name")),
        Token::HtmlOpeningTag(s("b")),
        Token::RightBrace,
    ];
    let root = Ast::from_tokens(tokens).unwrap();
    assert!(matches!(&root.node, Expr::ScalarVariable { ctx, value: None } if ctx == "name"));
    let kids = root.children.as_ref().unwrap();
    assert_eq!(kids.len(), 1);
    assert!(matches!(&kids[0].node, Expr::HtmlElement { tag } if tag == "b"));
}

#[test]
fn root_placeholder_is_not_bound() {
    assert_eq!(compile("name", &[("name", "x")]), "");
    assert_eq!(compile("name<b>", &[("name", "x")]), "<b></b>");
}

#[test]
fn values_are_not_escaped() {
    assert_eq!(compile("<p>{{ v }}</p>", &[("v", "<b>&</b>")]), "<p><b>&</b></p>");
}

#[test]
fn binding_reaches_nested_placeholders() {
    let inner = Ast::new_with_children(
        Expr::ScalarVariable { ctx: s("deep"), value: None },
        None,
    );
    let mid = Ast::new_with_children(Expr::HtmlElement { tag: s("i") }, Some(vec![Box::new(inner)]));
    let mut root = Ast::new_with_children(Expr::HtmlElement { tag: s("p") }, Some(vec![Box::new(mid)]));
    let mut context = Context::new();
    context.insert(s("deep"), s("ok"));
    root.build_from_context(&mut context);
    assert_eq!(Unparser::new(Box::new(root)).to_html(), "<p><i>ok</i></p>");
}

#[test]
fn unparser_writes_placeholder_children() {
    let child = Ast::new(Expr::HtmlElement { tag: s("x") });
    assert!(child.children.is_none());
    let var = Ast::new_with_children(
        Expr::ScalarVariable { ctx: s("n"), value: Some(s("v")) },
        Some(vec![Box::new(child)]),
    );
    assert_eq!(Unparser::new(Box::new(var)).to_html(), "v<x></x>");
}

#[test]
fn context_later_insert_replaces_earlier() {
    let mut context = Context::new();
    assert_eq!(context.get(s("k")), None);
    context.insert(s("k"), s("one"));
    context.insert(s("j"), s("other"));
    assert_eq!(context.get(s("k")), Some(s("one")));
    context.insert(s("k"), s("two"));
    assert_eq!(context.get(s("k")), Some(s("two")));
    assert_eq!(context.get(s("j")), Some(s("other")));
    assert_eq!(context.get(s("K")), None);
}

#[test]
fn unbound_keeps_previous_value() {
    let var = Ast::new_with_children(
        Expr::ScalarVariable { ctx: s("n"), value: Some(s("kept")) },
        None,
    );
    let mut root = Ast::new_with_children(Expr::HtmlElement { tag: s("p") }, Some(vec![Box::new(var)]));
    root.build_from_context(&mut Context::new());
    assert_eq!(Unparser::new(Box::new(root)).to_html(), "<p>kept</p>");
}
