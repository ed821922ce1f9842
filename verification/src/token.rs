//! Tokens and symbolic expressions, with their mathematical models and the
//! textual rendering of values.
use crate::number::{int_text, render_int};
use vstd::prelude::*;
use vstd::string::*;

verus! {

/// The closed set of lexical categories.
#[derive(Copy, Clone, PartialEq, Eq, Debug, Structural)]
pub enum TokenType {
    ILLEGAL,
    EOF,
    IDENT,
    STRING,
    INT,
    DOT,
    POUND,
    PLUS,
    MINUS,
    /// A single-line comment, introduced by two minus signs.
    COMMENT,
    COMMA,
    ASTERICK,
    SLASH,
    AND,
    OR,
    NOT,
    EQ,
    LT,
    LTEQ,
    GT,
    GTEQ,
    /// `#t`
    TRUE,
    /// `#f`
    FALSE,
    IF,
    ELSE,
    LPAREN,
    RPAREN,
    AT,
    LBRACK,
    RBRACK,
    BEGIN,
    DEFINE,
    LET,
    LAMBDA,
    QUOTE,
}

/// A lexical token: its text and its category.
#[derive(Debug, PartialEq)]
pub struct Token {
    pub literal: String,
    pub kind: TokenType,
}

/// The model of a [`Token`]: its text as a sequence of characters.
pub struct TokenView {
    pub literal: Seq<char>,
    pub kind: TokenType,
}

impl View for Token {
    type V = TokenView;

    open spec fn view(&self) -> TokenView {
        TokenView { literal: self.literal@, kind: self.kind }
    }
}

impl Clone for Token {
    fn clone(&self) -> (copy: Token)
        ensures
            copy@ == self@,
    {
        Token { literal: self.literal.clone(), kind: self.kind }
    }
}

/// A symbolic expression: the parser's output and the evaluator's values.
#[derive(Debug, PartialEq)]
pub enum LispVal {
    /// An identifier or operator reference, resolved at evaluation time.
    Atom(Token),
    /// A special form, an operator application or a procedure call.
    List(Vec<LispVal>),
    /// Reserved; no evaluation rule produces or consumes it.
    DottedList(Vec<LispVal>, Box<LispVal>),
    Number(i64),
    String(String),
    /// Reserved; no evaluation rule produces or consumes it.
    Fun(Vec<LispVal>, Vec<LispVal>),
    /// A closure template: parameter pattern and body.
    Lamda(Box<LispVal>, Box<LispVal>),
    Nil,
    Bool(bool),
}

/// The model of a [`LispVal`]: the same tree over sequences.
pub enum Sexp {
    Atom(TokenView),
    List(Seq<Sexp>),
    DottedList(Seq<Sexp>, Box<Sexp>),
    Number(i64),
    String(Seq<char>),
    Fun(Seq<Sexp>, Seq<Sexp>),
    Lamda(Box<Sexp>, Box<Sexp>),
    Nil,
    Bool(bool),
}

/// The models of the elements of `items`, in order.
pub open spec fn models(items: Seq<LispVal>) -> Seq<Sexp>
    decreases items, 1int,
{
    Seq::new(
        items.len(),
        |i: int|
            if 0 <= i < items.len() {
                items[i].model()
            } else {
                Sexp::Nil
            },
    )
}

impl LispVal {
    /// The model of this value.
    pub open spec fn model(self) -> Sexp
        decreases self, 0int,
    {
        match self {
            LispVal::Atom(t) => Sexp::Atom(t@),
            LispVal::List(items) => Sexp::List(models(items@)),
            LispVal::DottedList(items, tail) => Sexp::DottedList(
                models(items@),
                Box::new(tail.model()),
            ),
            LispVal::Number(n) => Sexp::Number(n),
            LispVal::String(s) => Sexp::String(s@),
            LispVal::Fun(params, body) => Sexp::Fun(models(params@), models(body@)),
            LispVal::Lamda(params, body) => Sexp::Lamda(
                Box::new(params.model()),
                Box::new(body.model()),
            ),
            LispVal::Nil => Sexp::Nil,
            LispVal::Bool(b) => Sexp::Bool(b),
        }
    }
}

impl View for LispVal {
    type V = Sexp;

    open spec fn view(&self) -> Sexp {
        self.model()
    }
}

/// A copy of `items` with the same models.
pub fn clone_list(items: &Vec<LispVal>) -> (copy: Vec<LispVal>)
    ensures
        models(copy@) == models(items@),
    decreases items, 1int,
{
    let mut copy: Vec<LispVal> = Vec::new();
    let mut i: usize = 0;
    while i < items.len()
        invariant
            i <= items.len(),
            copy.len() == i,
            forall|j: int| 0 <= j < i ==> copy[j]@ == items[j]@,
        decreases items.len() - i,
    {
        let item = items[i].clone();
        copy.push(item);
        i += 1;
    }
    assert(models(copy@) =~= models(items@));
    copy
}

impl Clone for LispVal {
    fn clone(&self) -> (copy: LispVal)
        ensures
            copy@ == self@,
        decreases self, 0int,
    {
        match self {
            LispVal::Atom(t) => LispVal::Atom(t.clone()),
            LispVal::List(items) => LispVal::List(clone_list(items)),
            LispVal::DottedList(items, tail) => {
                let t: LispVal = (**tail).clone();
                LispVal::DottedList(clone_list(items), Box::new(t))
            },
            LispVal::Number(n) => LispVal::Number(*n),
            LispVal::String(s) => LispVal::String(s.clone()),
            LispVal::Fun(params, body) => LispVal::Fun(clone_list(params), clone_list(body)),
            LispVal::Lamda(params, body) => {
                let p: LispVal = (**params).clone();
                let b: LispVal = (**body).clone();
                LispVal::Lamda(Box::new(p), Box::new(b))
            },
            LispVal::Nil => LispVal::Nil,
            LispVal::Bool(b) => LispVal::Bool(*b),
        }
    }
}

/// The renderings of the first `n` elements of `items`, one after another.
pub open spec fn render_prefix(items: Seq<Sexp>, n: nat) -> Seq<char>
    decreases items, n,
{
    if n == 0 || n > items.len() {
        Seq::empty()
    } else {
        render_prefix(items, (n - 1) as nat) + render(items[n - 1])
    }
}

/// The bare texts of the first `n` elements of `items`, with one space
/// between each two.
pub open spec fn joined(items: Seq<Sexp>, n: nat) -> Seq<char>
    decreases items, n,
{
    if n == 0 || n > items.len() {
        Seq::empty()
    } else if n == 1 {
        bare(items[0])
    } else {
        joined(items, (n - 1) as nat) + seq![' '] + bare(items[n - 1])
    }
}

/// The text of a value without the space that may follow it. An atom is
/// its text, a number its decimal text, a string its characters, a boolean
/// `#t` or `#f`. A list is its elements' bare texts between parentheses,
/// with one space between each two: the empty list is `()`. Closures and
/// internal procedures have fixed placeholders.
pub open spec fn bare(v: Sexp) -> Seq<char>
    decreases v, 0nat,
{
    match v {
        Sexp::Atom(t) => t.literal,
        Sexp::List(items) => seq!['('] + joined(items, items.len()) + seq![')'],
        Sexp::DottedList(items, tail) => seq!['('] + render_prefix(items, items.len()) + render(
            *tail,
        ) + seq![')'],
        Sexp::Number(n) => int_text(n as int),
        Sexp::String(s) => s,
        Sexp::Fun(_, _) => "(internal function)"@,
        Sexp::Lamda(_, _) => "(lambda function)"@,
        Sexp::Nil => "Nil"@,
        Sexp::Bool(b) => if b {
            seq!['#', 't']
        } else {
            seq!['#', 'f']
        },
    }
}

/// Whether the text of `v` ends with a space: so it is for atoms, numbers,
/// strings, booleans and lists.
pub open spec fn is_spaced(v: Sexp) -> bool {
    v is Atom || v is Number || v is String || v is Bool || v is List
}

/// The text of a value: its bare text, followed by one space where
/// [`is_spaced`] says so.
pub open spec fn render(v: Sexp) -> Seq<char>
    decreases v, 1nat,
{
    if is_spaced(v) {
        bare(v) + seq![' ']
    } else {
        bare(v)
    }
}

/// Appends the renderings of all of `items` to `text`.
fn show_items(items: &Vec<LispVal>, text: String) -> (out: String)
    ensures
        out@ == text@ + render_prefix(models(items@), items.len() as nat),
    decreases items, 1int,
{
    let mut out = text;
    let mut i: usize = 0;
    while i < items.len()
        invariant
            i <= items.len(),
            out@ == text@ + render_prefix(models(items@), i as nat),
        decreases items.len() - i,
    {
        let piece = items[i].show_val();
        out.append(piece.as_str());
        i += 1;
    }
    out
}

/// Appends the bare texts of all of `items` to `text`, with one space
/// between each two.
fn show_joined(items: &Vec<LispVal>, text: String) -> (out: String)
    ensures
        out@ == text@ + joined(models(items@), items.len() as nat),
    decreases items, 1int,
{
    proof {
        reveal_strlit(" ");
    }
    let mut out = text;
    let mut i: usize = 0;
    while i < items.len()
        invariant
            i <= items.len(),
            out@ == text@ + joined(models(items@), i as nat),
            " "@ =~= seq![' '],
        decreases items.len() - i,
    {
        if i > 0 {
            out.append(" ");
        }
        let piece = items[i].show_bare();
        out.append(piece.as_str());
        i += 1;
    }
    out
}

impl LispVal {
    /// The text of this value without the space that may follow it, as
    /// [`bare`] defines it.
    pub fn show_bare(&self) -> (text: String)
        ensures
            text@ == bare(self@),
        decreases self, 0int,
    {
        match self {
            LispVal::Atom(x) => x.literal.clone(),
            LispVal::List(x) => {
                proof {
                    reveal_strlit("(");
                    reveal_strlit(")");
                }
                let mut st = show_joined(x, String::from_str("("));
                st.append(")");
                assert("("@ =~= seq!['(']);
                assert(")"@ =~= seq![')']);
                st
            },
            LispVal::DottedList(x, y) => {
                proof {
                    reveal_strlit("(");
                    reveal_strlit(")");
                }
                let mut st = show_items(x, String::from_str("("));
                let tail = y.show_val();
                st.append(tail.as_str());
                st.append(")");
                assert("("@ =~= seq!['(']);
                assert(")"@ =~= seq![')']);
                st
            },
            LispVal::Number(x) => render_int(*x),
            LispVal::String(x) => x.clone(),
            LispVal::Fun(_, _) => String::from_str("(internal function)"),
            LispVal::Lamda(_, _) => String::from_str("(lambda function)"),
            LispVal::Nil => String::from_str("Nil"),
            LispVal::Bool(x) => {
                proof {
                    reveal_strlit("#t");
                    reveal_strlit("#f");
                }
                if *x {
                    assert("#t"@ =~= seq!['#', 't']);
                    String::from_str("#t")
                } else {
                    assert("#f"@ =~= seq!['#', 'f']);
                    String::from_str("#f")
                }
            },
        }
    }

    /// The text of this value, as [`render`] defines it.
    pub fn show_val(&self) -> (text: String)
        ensures
            text@ == render(self@),
        decreases self, 1int,
    {
        let mut st = self.show_bare();
        match self {
            LispVal::Atom(_)
            | LispVal::Number(_)
            | LispVal::String(_)
            | LispVal::Bool(_)
            | LispVal::List(_) => {
                proof {
                    reveal_strlit(" ");
                }
                st.append(" ");
                assert(" "@ =~= seq![' ']);
                st
            },
            _ => st,
        }
    }
}

} // verus!
