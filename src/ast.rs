use vstd::prelude::*;
use crate::context::Context;
use crate::lexer::{Token, TokenView, token_views};

verus! {

/// What one node of a template tree stands for.
#[derive(Debug)]
pub enum Expr {
    /// A placeholder named `ctx`, with the value bound to it, if any.
    ScalarVariable { ctx: String, value: Option<String> },
    /// A tag, written out as an opening and a closing tag around the children.
    HtmlElement { tag: String },
}

/// The mathematical value of an [`Expr`].
pub enum ExprView {
    Variable { name: Seq<char>, value: Option<Seq<char>> },
    Element { tag: Seq<char> },
}

pub open spec fn opt_chars(o: Option<String>) -> Option<Seq<char>> {
    match o {
        Some(s) => Some(s@),
        None => None,
    }
}

impl View for Expr {
    type V = ExprView;

    open spec fn view(&self) -> ExprView {
        match self {
            Expr::ScalarVariable { ctx, value } => ExprView::Variable {
                name: ctx@,
                value: opt_chars(*value),
            },
            Expr::HtmlElement { tag } => ExprView::Element { tag: tag@ },
        }
    }
}

/// A template tree: a node and the trees below it, in order.
#[derive(Debug)]
pub struct Ast {
    pub node: Expr,
    pub children: Option<Vec<Box<Ast>>>,
}

/// The node that a token contributes to the tree: an opening tag gives an
/// element, a literal gives an unbound placeholder, other tokens give none.
pub open spec fn node_of(t: TokenView) -> Option<ExprView> {
    match t {
        TokenView::Opening(tag) => Some(ExprView::Element { tag }),
        TokenView::Literal(name) => Some(ExprView::Variable { name, value: None }),
        _ => None,
    }
}

/// The nodes that a token sequence contributes, in order.
pub open spec fn tree_nodes(ts: Seq<TokenView>) -> Seq<ExprView>
    decreases ts.len(),
{
    if ts.len() == 0 {
        Seq::empty()
    } else {
        let rest = tree_nodes(ts.drop_last());
        match node_of(ts.last()) {
            Some(e) => rest.push(e),
            None => rest,
        }
    }
}

/// `a` is the node `e` with an empty list of children.
pub open spec fn is_leaf(a: Ast, e: ExprView) -> bool {
    &&& a.node@ == e
    &&& a.children is Some
    &&& a.children->0@.len() == 0
}

/// `a` holds the nodes `ns`: the first is the root, and every later one is a
/// leaf directly below it, in order.
pub open spec fn is_flat_tree(a: Ast, ns: Seq<ExprView>) -> bool {
    &&& ns.len() > 0
    &&& a.node@ == ns[0]
    &&& a.children is Some
    &&& a.children->0@.len() + 1 == ns.len()
    &&& forall|i: int|
        0 <= i < a.children->0@.len() ==> is_leaf(*#[trigger] a.children->0@[i], ns[i + 1])
}

/// `r` is the tree built from the tokens `ts`: none where they contribute no
/// node, else the flat tree of their nodes.
pub open spec fn builds(ts: Seq<TokenView>, r: Option<Box<Ast>>) -> bool {
    match r {
        None => tree_nodes(ts).len() == 0,
        Some(a) => is_flat_tree(*a, tree_nodes(ts)),
    }
}

/// Every template tree is at most two levels deep: whatever the tokens,
/// each node below the root is a leaf, and there is one for each node after
/// the first that the tokens contribute.
pub proof fn lemma_built_tree_is_flat(ts: Seq<TokenView>, a: Box<Ast>)
    requires
        builds(ts, Some(a)),
    ensures
        a.children is Some,
        a.children->0@.len() + 1 == tree_nodes(ts).len(),
        forall|i: int|
            0 <= i < a.children->0@.len() ==> (#[trigger] a.children->0@[i]).children is Some
                && a.children->0@[i].children->0@.len() == 0,
{
    assert forall|i: int| 0 <= i < a.children->0@.len() implies (
    #[trigger] a.children->0@[i]).children is Some && a.children->0@[i].children->0@.len()
        == 0 by {
        assert(is_leaf(*a.children->0@[i], tree_nodes(ts)[i + 1]));
    }
}

/// The value of a placeholder after binding against `m`: the bound string
/// where `m` has its name, else as before. Elements are left alone.
pub open spec fn bind_expr(e: ExprView, m: Map<Seq<char>, Seq<char>>) -> ExprView {
    match e {
        ExprView::Variable { name, value } => if m.contains_key(name) {
            ExprView::Variable { name, value: Some(m[name]) }
        } else {
            e
        },
        ExprView::Element { .. } => e,
    }
}

/// `n` is `o` with every node, itself included, bound against `m`.
pub open spec fn bound_tree(o: Ast, n: Ast, m: Map<Seq<char>, Seq<char>>) -> bool
    decreases o,
{
    &&& n.node@ == bind_expr(o.node@, m)
    &&& bound_children(o.children, n.children, m)
}

/// `n` is the list `o` with every node in it bound against `m`.
pub open spec fn bound_children(
    o: Option<Vec<Box<Ast>>>,
    n: Option<Vec<Box<Ast>>>,
    m: Map<Seq<char>, Seq<char>>,
) -> bool
    decreases o,
{
    match o {
        None => n is None,
        Some(v) => {
            &&& n is Some
            &&& n->0@.len() == v@.len()
            &&& forall|i: int|
                0 <= i < v@.len() ==> bound_tree(*#[trigger] v@[i], *n->0@[i], m)
        },
    }
}

/// The node for a token, if it contributes one.
fn node_for(t: &Token) -> (r: Option<Expr>)
    ensures
        match r {
            Some(e) => node_of(t@) == Some(e@),
            None => node_of(t@) is None,
        },
{
    match t {
        Token::HtmlOpeningTag(v) => Some(Expr::HtmlElement { tag: v.clone() }),
        Token::StringLiteral(v) => Some(Expr::ScalarVariable { ctx: v.clone(), value: None }),
        _ => None,
    }
}

impl Ast {
    pub fn new(expr: Expr) -> (r: Ast)
        ensures
            r.node == expr,
            r.children is None,
    {
        Ast { node: expr, children: None }
    }

    pub fn new_with_children(expr: Expr, child: Option<Vec<Box<Ast>>>) -> (r: Ast)
        ensures
            r.node == expr,
            r.children == child,
    {
        Ast { node: expr, children: child }
    }

    /// Builds the tree of a token sequence. The first opening tag or literal
    /// becomes the root; every later one becomes a leaf directly below the
    /// root. Closing tags and braces add nothing.
    pub fn from_tokens(tokens: Vec<Token>) -> (r: Option<Box<Ast>>)
        ensures
            builds(token_views(tokens@), r),
    {
        if tokens.is_empty() {
            return None;
        }
        Self::add_nodes(&tokens)
    }

    fn add_nodes(tokens: &Vec<Token>) -> (r: Option<Box<Ast>>)
        ensures
            builds(token_views(tokens@), r),
    {
        let mut root: Option<Expr> = None;
        let mut kids: Vec<Box<Ast>> = Vec::new();
        let mut i: usize = 0;
        while i < tokens.len()
            invariant
                i <= tokens@.len(),
                ({
                    let ns = tree_nodes(token_views(tokens@.subrange(0, i as int)));
                    match root {
                        None => ns.len() == 0 && kids@.len() == 0,
                        Some(e) => {
                            &&& ns.len() == kids@.len() + 1
                            &&& ns[0] == e@
                            &&& forall|k: int|
                                0 <= k < kids@.len() ==> is_leaf(*#[trigger] kids@[k], ns[k + 1])
                        },
                    }
                }),
            decreases tokens@.len() - i,
        {
            proof {
                let pre = tokens@.subrange(0, i as int);
                let post = tokens@.subrange(0, i + 1);
                assert(token_views(post).drop_last() =~= token_views(pre));
            }
            match node_for(&tokens[i]) {
                Some(e) => {
                    if root.is_none() {
                        root = Some(e);
                    } else {
                        kids.push(Box::new(Ast::new_with_children(e, Some(Vec::new()))));
                    }
                },
                None => {},
            }
            i = i + 1;
        }
        assert(tokens@.subrange(0, i as int) =~= tokens@);
        match root {
            None => None,
            Some(e) => Some(Box::new(Ast::new_with_children(e, Some(kids)))),
        }
    }

    /// Binds every placeholder below the root against `context`: one whose
    /// name the context holds takes its value; the others stay as they were.
    /// The root itself is left alone.
    pub fn build_from_context(&mut self, context: &mut Context)
        ensures
            *final(context) == *old(context),
            final(self).node == old(self).node,
            bound_children(old(self).children, final(self).children, old(context)@),
    {
        let kids = self.children.take();
        self.children = Self::traverse_and_insert_keys(kids, context);
    }

    fn traverse_and_insert_keys(node: Option<Vec<Box<Ast>>>, context: &mut Context) -> (r:
        Option<Vec<Box<Ast>>>)
        ensures
            *final(context) == *old(context),
            bound_children(node, r, old(context)@),
        decreases node,
    {
        let ghost whole = node;
        match node {
            None => None,
            Some(mut rest) => {
                let ghost all = rest@;
                // Move the children onto a stack, last one first, so that they
                // come off it in their own order.
                let mut stack: Vec<Box<Ast>> = Vec::new();
                while rest.len() > 0
                    invariant
                        stack@.len() + rest@.len() == all.len(),
                        rest@ == all.subrange(0, rest@.len() as int),
                        forall|j: int|
                            0 <= j < stack@.len() ==> #[trigger] stack@[j] == all[all.len() - 1 - j],
                    decreases rest@.len(),
                {
                    let child = rest.pop().unwrap();
                    stack.push(child);
                    assert(rest@ =~= all.subrange(0, rest@.len() as int));
                }
                let mut done: Vec<Box<Ast>> = Vec::new();
                while stack.len() > 0
                    invariant
                        whole == node,
                        whole is Some,
                        all == whole->0@,
                        *context == *old(context),
                        done@.len() + stack@.len() == all.len(),
                        forall|j: int|
                            0 <= j < stack@.len() ==> #[trigger] stack@[j] == all[all.len() - 1 - j],
                        forall|k: int|
                            0 <= k < done@.len() ==> bound_tree(
                                *#[trigger] all[k],
                                *done@[k],
                                old(context)@,
                            ),
                    decreases stack@.len(),
                {
                    let ghost k = done@.len() as int;
                    assert(stack@[stack@.len() - 1] == all[k]);
                    let child = stack.pop().unwrap();
                    proof {
                        assert(decreases_to!(whole => whole->0));
                        assert(decreases_to!(whole->0 => whole->0@));
                        assert(decreases_to!(whole->0@ => whole->0@[k]));
                        assert(decreases_to!(whole->0@[k] => whole->0@[k].children));
                    }
                    let Ast { node: expr, children: below } = *child;
                    let expr = match expr {
                        Expr::ScalarVariable { ctx, value } => match context.get(ctx.clone()) {
                            Some(v) => Expr::ScalarVariable { ctx, value: Some(v) },
                            None => Expr::ScalarVariable { ctx, value },
                        },
                        other => other,
                    };
                    let below = Self::traverse_and_insert_keys(below, context);
                    done.push(Box::new(Ast { node: expr, children: below }));
                }
                Some(done)
            },
        }
    }
}

} // verus!
