use vstd::prelude::*;
use vstd::string::*;
use crate::ast::{Ast, Expr, ExprView, bind_expr, bound_children, bound_tree};

verus! {

/// What a node writes before its children: an element its opening tag, a
/// placeholder its value (nothing when it has none).
pub open spec fn open_text(e: ExprView) -> Seq<char> {
    match e {
        ExprView::Variable { value, .. } => match value {
            Some(v) => v,
            None => Seq::empty(),
        },
        ExprView::Element { tag } => seq!['<'] + tag + seq!['>'],
    }
}

/// What a node writes after its children: an element its closing tag, a
/// placeholder nothing.
pub open spec fn close_text(e: ExprView) -> Seq<char> {
    match e {
        ExprView::Variable { .. } => Seq::empty(),
        ExprView::Element { tag } => seq!['<', '/'] + tag + seq!['>'],
    }
}

/// The markup of tree `a` with every node in it, itself included, bound
/// against `m`.
pub open spec fn tree_html(a: Ast, m: Map<Seq<char>, Seq<char>>) -> Seq<char>
    decreases a,
{
    let e = bind_expr(a.node@, m);
    open_text(e) + children_html(a.children, m) + close_text(e)
}

/// The markup of a list of trees, one after another, each bound against `m`.
pub open spec fn children_html(c: Option<Vec<Box<Ast>>>, m: Map<Seq<char>, Seq<char>>) -> Seq<
    char,
>
    decreases c,
{
    match c {
        None => Seq::empty(),
        Some(v) => list_html(v@, m),
    }
}

pub open spec fn list_html(s: Seq<Box<Ast>>, m: Map<Seq<char>, Seq<char>>) -> Seq<char>
    decreases s,
{
    if s.len() == 0 {
        Seq::empty()
    } else {
        list_html(s.subrange(0, s.len() - 1), m) + tree_html(*s[s.len() - 1], m)
    }
}

/// The markup of tree `a` as it stands.
pub open spec fn html(a: Ast) -> Seq<char> {
    tree_html(a, Map::empty())
}

/// Rendering a bound tree gives the markup of the unbound tree with the binding
/// applied.
pub proof fn lemma_bound_tree_html(o: Ast, n: Ast, m: Map<Seq<char>, Seq<char>>)
    requires
        bound_tree(o, n, m),
    ensures
        tree_html(n, Map::empty()) == tree_html(o, m),
    decreases o,
{
    lemma_bound_children_html(o.children, n.children, m);
}

/// Rendering a bound list of trees gives the markup of the unbound list with
/// the binding applied.
pub proof fn lemma_bound_children_html(
    o: Option<Vec<Box<Ast>>>,
    n: Option<Vec<Box<Ast>>>,
    m: Map<Seq<char>, Seq<char>>,
)
    requires
        bound_children(o, n, m),
    ensures
        children_html(n, Map::empty()) == children_html(o, m),
    decreases o,
{
    if let Some(v) = o {
        lemma_bound_list_html(v@, n->0@, m);
    }
}

proof fn lemma_bound_list_html(os: Seq<Box<Ast>>, ns: Seq<Box<Ast>>, m: Map<Seq<char>, Seq<char>>)
    requires
        os.len() == ns.len(),
        forall|i: int| 0 <= i < os.len() ==> bound_tree(*#[trigger] os[i], *ns[i], m),
    ensures
        list_html(ns, Map::empty()) == list_html(os, m),
    decreases os,
{
    if os.len() > 0 {
        let l = os.len() - 1;
        let op = os.subrange(0, l);
        let np = ns.subrange(0, l);
        assert forall|i: int| 0 <= i < op.len() implies bound_tree(*#[trigger] op[i], *np[i], m) by {
            assert(bound_tree(*os[i], *ns[i], m));
        }
        lemma_bound_list_html(op, np, m);
        assert(bound_tree(*os[l], *ns[l], m));
        lemma_bound_tree_html(*os[l], *ns[l], m);
    }
}

/// Writes a template tree out as markup.
pub struct Unparser {
    ast: Box<Ast>,
}

impl Unparser {
    /// The tree that this unparser writes out.
    pub closed spec fn tree(&self) -> Ast {
        *self.ast
    }

    pub fn new(ast: Box<Ast>) -> (r: Self)
        ensures
            r.tree() == *ast,
    {
        Self { ast }
    }

    /// The markup of the tree: each element as its opening tag, its children
    /// and its closing tag; each placeholder as its value, or nothing where it
    /// has none. Values are written as they are, without escaping.
    pub fn to_html(self) -> (r: String)
        ensures
            r@ == html(self.tree()),
    {
        let mut raw_html = String::new();
        let roots = Some(vec![self.ast]);
        Self::traverse_and_build_html(&roots, &mut raw_html);
        proof {
            let s = roots->0@;
            assert(s.subrange(0, 0) =~= Seq::<Box<Ast>>::empty());
            assert(raw_html@ =~= html(self.tree()));
        }
        raw_html
    }

    fn traverse_and_build_html(node: &Option<Vec<Box<Ast>>>, html: &mut String)
        ensures
            final(html)@ == old(html)@ + children_html(*node, Map::empty()),
        decreases node,
    {
        proof {
            reveal_strlit("<");
            reveal_strlit("</");
            reveal_strlit(">");
            assert("<"@ =~= seq!['<']);
            assert("</"@ =~= seq!['<', '/']);
            assert(">"@ =~= seq!['>']);
        }
        if let Some(nodes) = node {
            let mut i: usize = 0;
            while i < nodes.len()
                invariant
                    *node == Some(*nodes),
                    "<"@ == seq!['<'],
                    "</"@ == seq!['<', '/'],
                    ">"@ == seq!['>'],
                    i <= nodes@.len(),
                    html@ == old(html)@ + list_html(nodes@.subrange(0, i as int), Map::empty()),
                decreases nodes@.len() - i,
            {
                let ghost before = html@;
                let item = &nodes[i];
                proof {
                    let s = nodes@.subrange(0, i + 1);
                    assert(s.subrange(0, i as int) =~= nodes@.subrange(0, i as int));
                    assert(*item == nodes@[i as int]);
                    assert(decreases_to!(*node => node->0));
                    assert(decreases_to!(node->0 => node->0@));
                    assert(decreases_to!(node->0@ => node->0@[i as int]));
                    assert(decreases_to!(node->0@[i as int] => node->0@[i as int].children));
                }
                match &item.node {
                    Expr::ScalarVariable { value, .. } => {
                        if let Some(v) = value {
                            html.append(v.as_str());
                        }
                        assert(html@ == before + open_text(item.node@));
                        Self::traverse_and_build_html(&item.children, html);
                    },
                    Expr::HtmlElement { tag } => {
                        html.append("<");
                        html.append(tag.as_str());
                        html.append(">");
                        assert(html@ =~= before + open_text(item.node@));
                        Self::traverse_and_build_html(&item.children, html);
                        let ghost mid = html@;
                        html.append("</");
                        html.append(tag.as_str());
                        html.append(">");
                        assert(html@ =~= mid + close_text(item.node@));
                    },
                }
                assert(bind_expr(item.node@, Map::empty()) == item.node@);
                assert(html@ =~= before + tree_html(**item, Map::empty()));
                i = i + 1;
            }
            assert(nodes@.subrange(0, i as int) =~= nodes@);
        }
    }
}

} // verus!
