use vstd::prelude::*;
use vstd::std_specs::iter::IteratorSpec;
use vstd::string::*;

verus! {

broadcast use vstd::string::group_string_axioms;

/// One lexical unit of a template.
#[derive(Debug, PartialEq, Eq)]
pub enum Token {
    HtmlOpeningTag(String),
    HtmlClosingTag(String),
    LeftBrace,
    RightBrace,
    StringLiteral(String),
}

/// The mathematical value of a [`Token`]: names become character sequences.
pub enum TokenView {
    Opening(Seq<char>),
    Closing(Seq<char>),
    LeftBrace,
    RightBrace,
    Literal(Seq<char>),
}

impl View for Token {
    type V = TokenView;

    open spec fn view(&self) -> TokenView {
        match self {
            Token::HtmlOpeningTag(s) => TokenView::Opening(s@),
            Token::HtmlClosingTag(s) => TokenView::Closing(s@),
            Token::LeftBrace => TokenView::LeftBrace,
            Token::RightBrace => TokenView::RightBrace,
            Token::StringLiteral(s) => TokenView::Literal(s@),
        }
    }
}

/// The views of a sequence of tokens.
pub open spec fn token_views(ts: Seq<Token>) -> Seq<TokenView> {
    ts.map_values(|t: Token| t@)
}

/// Whether `c` has Unicode's Alphabetic property.
pub uninterp spec fn alphabetic(c: char) -> bool;

/// Relies on `char::is_alphabetic`, whose answer depends on the character alone.
#[verifier::external_body]
fn is_alphabetic(c: char) -> (r: bool)
    ensures
        r == alphabetic(c),
{
    c.is_alphabetic()
}

/// The first position at or after `j` that holds `>`, or the end of `s`.
pub open spec fn tag_end(s: Seq<char>, j: int) -> int
    decreases s.len() - j,
{
    if j >= s.len() {
        s.len() as int
    } else if s[j] == '>' {
        j
    } else {
        tag_end(s, j + 1)
    }
}

/// The first position at or after `j` that holds a non-alphabetic character,
/// or the end of `s`.
pub open spec fn word_end(s: Seq<char>, j: int) -> int
    decreases s.len() - j,
{
    if j >= s.len() {
        s.len() as int
    } else if !alphabetic(s[j]) {
        j
    } else {
        word_end(s, j + 1)
    }
}

pub proof fn lemma_tag_end_bounds(s: Seq<char>, j: int)
    requires
        0 <= j <= s.len(),
    ensures
        j <= tag_end(s, j) <= s.len(),
        forall|k: int| j <= k < tag_end(s, j) ==> s[k] != '>',
        tag_end(s, j) < s.len() ==> s[tag_end(s, j)] == '>',
    decreases s.len() - j,
{
    if j < s.len() && s[j] != '>' {
        lemma_tag_end_bounds(s, j + 1);
    }
}

pub proof fn lemma_word_end_bounds(s: Seq<char>, j: int)
    requires
        0 <= j <= s.len(),
    ensures
        j <= word_end(s, j) <= s.len(),
        forall|k: int| j <= k < word_end(s, j) ==> alphabetic(#[trigger] s[k]),
        word_end(s, j) < s.len() ==> !alphabetic(s[word_end(s, j)]),
    decreases s.len() - j,
{
    if j < s.len() && alphabetic(s[j]) {
        lemma_word_end_bounds(s, j + 1);
    }
}

/// Where scanning resumes after a tag whose name ends at `e`: past the `>`,
/// if there is one.
pub open spec fn past_tag(s: Seq<char>, e: int) -> int {
    if e < s.len() {
        e + 1
    } else {
        s.len() as int
    }
}

/// The tokens of `s` from position `i` on, scanned left to right:
/// a brace is a brace token; `</name>` is a closing tag and `<name>` an
/// opening one (an unterminated tag runs to the end of the text); a maximal
/// run of alphabetic characters is a literal; anything else is skipped.
pub open spec fn lex_from(s: Seq<char>, i: int) -> Seq<TokenView>
    decreases s.len() - i,
    via lex_from_decreases
{
    if i < 0 || i >= s.len() {
        Seq::empty()
    } else if s[i] == '{' {
        seq![TokenView::LeftBrace] + lex_from(s, i + 1)
    } else if s[i] == '}' {
        seq![TokenView::RightBrace] + lex_from(s, i + 1)
    } else if s[i] == '<' {
        if i + 1 < s.len() && s[i + 1] == '/' {
            let e = tag_end(s, i + 2);
            seq![TokenView::Closing(s.subrange(i + 2, e))] + lex_from(s, past_tag(s, e))
        } else {
            let e = tag_end(s, i + 1);
            seq![TokenView::Opening(s.subrange(i + 1, e))] + lex_from(s, past_tag(s, e))
        }
    } else if alphabetic(s[i]) {
        let e = word_end(s, i);
        seq![TokenView::Literal(s.subrange(i, e))] + lex_from(s, e)
    } else {
        lex_from(s, i + 1)
    }
}

#[via_fn]
proof fn lex_from_decreases(s: Seq<char>, i: int) {
    if 0 <= i < s.len() {
        if i + 1 < s.len() && s[i + 1] == '/' {
            lemma_tag_end_bounds(s, i + 2);
        }
        lemma_tag_end_bounds(s, i + 1);
        lemma_word_end_bounds(s, i);
        if alphabetic(s[i]) {
            assert(word_end(s, i) > i);
        }
    }
}

/// The token sequence of a whole template text.
pub open spec fn tokenize(s: Seq<char>) -> Seq<TokenView> {
    lex_from(s, 0)
}

/// Lexing is a function of the text alone: two lexers over equal texts
/// produce equal token sequences.
pub proof fn lemma_tokenize_deterministic(a: Seq<char>, b: Seq<char>)
    requires
        a == b,
    ensures
        tokenize(a) == tokenize(b),
{
}

/// The characters of `s`, in order.
fn chars_of(s: &str) -> (r: Vec<char>)
    ensures
        r@ == s@,
{
    let mut it = s.chars();
    let mut out: Vec<char> = Vec::new();
    loop
        invariant
            out@ + it.remaining() == s@,
            it.decrease() is Some,
        ensures
            out@ == s@,
        decreases it.decrease()->0,
    {
        match it.next() {
            Some(c) => {
                out.push(c);
            },
            None => {
                assert(out@ =~= s@);
                break;
            },
        }
    }
    out
}

/// A lexer over one template text.
pub struct Lexer(String);

impl View for Lexer {
    type V = Seq<char>;

    closed spec fn view(&self) -> Seq<char> {
        self.0@
    }
}

impl Lexer {
    pub fn new(input: String) -> (r: Lexer)
        ensures
            r@ == input@,
    {
        Lexer(input)
    }

    /// Splits the text into tokens in a single left-to-right pass.
    pub fn evaluate(&mut self) -> (r: Vec<Token>)
        ensures
            *final(self) == *old(self),
            token_views(r@) == tokenize(old(self)@),
    {
        let text = self.0.as_str();
        let s = chars_of(text);
        let n = s.len();
        let mut tokens: Vec<Token> = Vec::new();
        let mut i: usize = 0;
        while i < n
            invariant
                n == s@.len(),
                s@ == self@,
                text@ == self@,
                i <= n,
                token_views(tokens@) + lex_from(s@, i as int) == tokenize(s@),
            decreases n - i,
        {
            let ghost before = tokens@;
            let ghost at = i as int;
            let c = s[i];
            if c == '{' {
                tokens.push(Token::LeftBrace);
                i = i + 1;
            } else if c == '}' {
                tokens.push(Token::RightBrace);
                i = i + 1;
            } else if c == '<' {
                let closing = i + 1 < n && s[i + 1] == '/';
                let start: usize = if closing { i + 2 } else { i + 1 };
                let mut e: usize = start;
                while e < n && s[e] != '>'
                    invariant
                        n == s@.len(),
                        start <= e <= n,
                        tag_end(s@, start as int) == tag_end(s@, e as int),
                    decreases n - e,
                {
                    e = e + 1;
                }
                let name = text.substring_char(start, e).to_owned();
                if closing {
                    tokens.push(Token::HtmlClosingTag(name));
                } else {
                    tokens.push(Token::HtmlOpeningTag(name));
                }
                i = if e < n { e + 1 } else { n };
            } else if is_alphabetic(c) {
                let mut e: usize = i + 1;
                while e < n && is_alphabetic(s[e])
                    invariant
                        n == s@.len(),
                        i < e <= n,
                        word_end(s@, i as int) == word_end(s@, e as int),
                    decreases n - e,
                {
                    e = e + 1;
                }
                let word = text.substring_char(i, e).to_owned();
                tokens.push(Token::StringLiteral(word));
                i = e;
            } else {
                i = i + 1;
            }
            proof {
                let added = tokens@.subrange(before.len() as int, tokens@.len() as int);
                assert(token_views(tokens@) =~= token_views(before) + token_views(added));
                assert(lex_from(s@, at) =~= token_views(added) + lex_from(s@, i as int));
                assert(token_views(before) + lex_from(s@, at) =~= token_views(tokens@) + lex_from(
                    s@,
                    i as int,
                ));
            }
        }
        assert(token_views(tokens@) =~= token_views(tokens@) + lex_from(s@, i as int));
        tokens
    }
}

} // verus!
