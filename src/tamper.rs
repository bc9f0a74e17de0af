use vstd::prelude::*;
use crate::ast::{Ast, builds, tree_nodes};
use crate::context::Context;
use crate::lexer::{Lexer, TokenView, alphabetic, lex_from, tokenize};
use crate::unparser::{Unparser, children_html, close_text, lemma_bound_children_html, open_text};

verus! {

/// The output for a compiled template `t` and the bindings `m`: nothing where
/// there is no tree; else the root as it stands around its children bound
/// against `m`.
pub open spec fn rendered(t: Option<Box<Ast>>, m: Map<Seq<char>, Seq<char>>) -> Seq<char> {
    match t {
        None => Seq::empty(),
        Some(a) => open_text(a.node@) + children_html(a.children, m) + close_text(a.node@),
    }
}

/// A template compiled to its tree, ready to be rendered once.
pub struct Tamper {
    pub ast: Option<Box<Ast>>,
}

impl Tamper {
    /// Compiles a template text: tokenizes it and builds its tree.
    pub fn new_raw(input: String) -> (r: Self)
        ensures
            builds(tokenize(input@), r.ast),
    {
        let mut lexer = Lexer::new(input);
        let tokens = lexer.evaluate();
        let ast = Ast::from_tokens(tokens);
        Self { ast }
    }

    /// Binds the template's placeholders against `context` and writes the
    /// result out as markup. A template without a tree renders as nothing.
    /// The template is consumed: it renders once.
    pub fn render(self, context: &mut Context) -> (r: String)
        ensures
            *final(context) == *old(context),
            r@ == rendered(self.ast, old(context)@),
    {
        match self.ast {
            None => String::new(),
            Some(mut ast) => {
                let ghost before = *ast;
                ast.build_from_context(context);
                proof {
                    lemma_bound_children_html(before.children, ast.children, context@);
                }
                let unparser = Unparser::new(ast);
                let html = unparser.to_html();
                html
            },
        }
    }
}

proof fn lemma_braces_only(s: Seq<char>, i: int)
    requires
        0 <= i,
        forall|k: int| 0 <= k < s.len() ==> #[trigger] s[k] != '<' && !alphabetic(s[k]),
    ensures
        forall|k: int|
            0 <= k < lex_from(s, i).len() ==> (#[trigger] lex_from(s, i)[k] is LeftBrace || lex_from(
                s,
                i,
            )[k] is RightBrace),
    decreases s.len() - i,
{
    if i < s.len() {
        lemma_braces_only(s, i + 1);
    }
}

proof fn lemma_no_nodes_from_braces(ts: Seq<TokenView>)
    requires
        forall|k: int|
            0 <= k < ts.len() ==> (#[trigger] ts[k] is LeftBrace || ts[k] is RightBrace),
    ensures
        tree_nodes(ts).len() == 0,
    decreases ts.len(),
{
    if ts.len() > 0 {
        let p = ts.drop_last();
        assert forall|k: int| 0 <= k < p.len() implies (#[trigger] p[k] is LeftBrace
            || p[k] is RightBrace) by {
            assert(p[k] == ts[k]);
        }
        lemma_no_nodes_from_braces(p);
        assert(ts[ts.len() - 1] is LeftBrace || ts[ts.len() - 1] is RightBrace);
    }
}

/// A text without tags and without words (so without placeholders) compiles
/// to no tree at all, and so renders as nothing, whatever the bindings.
pub proof fn lemma_plain_text_renders_nothing(
    s: Seq<char>,
    t: Option<Box<Ast>>,
    m: Map<Seq<char>, Seq<char>>,
)
    requires
        forall|k: int| 0 <= k < s.len() ==> #[trigger] s[k] != '<' && !alphabetic(s[k]),
        builds(tokenize(s), t),
    ensures
        t is None,
        rendered(t, m).len() == 0,
{
    lemma_braces_only(s, 0);
    lemma_no_nodes_from_braces(tokenize(s));
}

} // verus!
