//! The parser: tokens to symbolic expressions, by recursive descent with
//! one token of lookahead.
use crate::lexer::{lemma_scan_consumes, scan, Lexer, LexerError, LexerErrorView};
use crate::number::{int_of_text, parse_int};
use crate::token::{models, LispVal, Sexp, Token, TokenType, TokenView};
use vstd::prelude::*;
use vstd::string::*;

verus! {

/// The top-level expressions of a source text, in order.
pub type Program = Vec<LispVal>;

/// Why parsing failed.
#[derive(Debug)]
pub enum ParseError {
    /// The scanner failed on the token after the lookahead.
    Lexer(LexerError),
    /// A token that cannot start an expression, or a number that does not
    /// fit; holds the message.
    PError(String),
}

/// The model of a [`ParseError`].
pub enum ParseErrorView {
    Lexer(LexerErrorView),
    PError(Seq<char>),
}

impl View for ParseError {
    type V = ParseErrorView;

    open spec fn view(&self) -> ParseErrorView {
        match self {
            ParseError::Lexer(e) => ParseErrorView::Lexer(e@),
            ParseError::PError(s) => ParseErrorView::PError(s@),
        }
    }
}

/// The model of a parser: the source bytes, the scanner's cursor, the
/// current token and the lookahead.
pub struct ParserView {
    pub bytes: Seq<u8>,
    pub pos: nat,
    pub cur: TokenView,
    pub peek: TokenView,
}

/// The name of a token kind.
pub open spec fn kind_text(kind: TokenType) -> Seq<char> {
    match kind {
        TokenType::ILLEGAL => "ILLEGAL"@,
        TokenType::EOF => "EOF"@,
        TokenType::IDENT => "IDENT"@,
        TokenType::STRING => "STRING"@,
        TokenType::INT => "INT"@,
        TokenType::DOT => "DOT"@,
        TokenType::POUND => "POUND"@,
        TokenType::PLUS => "PLUS"@,
        TokenType::MINUS => "MINUS"@,
        TokenType::COMMENT => "COMMENT"@,
        TokenType::COMMA => "COMMA"@,
        TokenType::ASTERICK => "ASTERICK"@,
        TokenType::SLASH => "SLASH"@,
        TokenType::AND => "AND"@,
        TokenType::OR => "OR"@,
        TokenType::NOT => "NOT"@,
        TokenType::EQ => "EQ"@,
        TokenType::LT => "LT"@,
        TokenType::LTEQ => "LTEQ"@,
        TokenType::GT => "GT"@,
        TokenType::GTEQ => "GTEQ"@,
        TokenType::TRUE => "TRUE"@,
        TokenType::FALSE => "FALSE"@,
        TokenType::IF => "IF"@,
        TokenType::ELSE => "ELSE"@,
        TokenType::LPAREN => "LPAREN"@,
        TokenType::RPAREN => "RPAREN"@,
        TokenType::AT => "AT"@,
        TokenType::LBRACK => "LBRACK"@,
        TokenType::RBRACK => "RBRACK"@,
        TokenType::BEGIN => "BEGIN"@,
        TokenType::DEFINE => "DEFINE"@,
        TokenType::LET => "LET"@,
        TokenType::LAMBDA => "LAMBDA"@,
        TokenType::QUOTE => "QUOTE"@,
    }
}

/// The error for a token that cannot start an expression.
pub open spec fn unknown_token(t: TokenView) -> ParseErrorView {
    ParseErrorView::PError(
        "Unknown Token in parse_lisp_val: Token literal: "@ + t.literal + " Token kind: "@
            + kind_text(t.kind),
    )
}

/// The error for an integer literal without a 64-bit value.
pub open spec fn bad_number(t: TokenView) -> ParseErrorView {
    ParseErrorView::PError("Could not parse "@ + t.literal + " as a number"@)
}

/// Whether a token of this kind stands for itself as an atom: identifiers,
/// operators and the keywords without a form of their own.
pub open spec fn is_symbol_kind(kind: TokenType) -> bool {
    match kind {
        TokenType::IDENT
        | TokenType::PLUS
        | TokenType::MINUS
        | TokenType::ASTERICK
        | TokenType::SLASH
        | TokenType::AND
        | TokenType::BEGIN
        | TokenType::ELSE
        | TokenType::IF
        | TokenType::NOT
        | TokenType::OR
        | TokenType::LT
        | TokenType::EQ
        | TokenType::LTEQ
        | TokenType::GT
        | TokenType::GTEQ => true,
        _ => false,
    }
}

/// Whether a keyword of this kind opens a form of two expressions.
pub open spec fn is_form_kind(kind: TokenType) -> bool {
    kind == TokenType::LET || kind == TokenType::DEFINE || kind == TokenType::LAMBDA
}

/// One token on: the lookahead becomes the current token and the scanner
/// gives the new lookahead.
pub open spec fn advance(st: ParserView) -> Result<ParserView, ParseErrorView> {
    match scan(st.bytes, st.pos as int) {
        Ok((t, next)) => Ok(ParserView { bytes: st.bytes, pos: next as nat, cur: st.peek, peek: t }),
        Err(e) => Err(ParseErrorView::Lexer(e)),
    }
}

/// The parser over `bytes` from `pos` on, with its first two tokens read.
pub open spec fn start(bytes: Seq<u8>, pos: nat) -> Result<ParserView, ParseErrorView> {
    let blank = TokenView { literal: ""@, kind: TokenType::ILLEGAL };
    match advance(ParserView { bytes, pos, cur: blank, peek: blank }) {
        Ok(st) => advance(st),
        Err(e) => Err(e),
    }
}

/// How much is left to read: the bytes after the cursor, and one for each
/// of the two tokens held that is not `EOF`.
pub open spec fn remaining(st: ParserView) -> nat {
    let bytes_left: nat = if st.pos < st.bytes.len() {
        (st.bytes.len() - st.pos) as nat
    } else {
        0
    };
    let peek_left: nat = if st.peek.kind != TokenType::EOF {
        1
    } else {
        0
    };
    let cur_left: nat = if st.cur.kind != TokenType::EOF {
        1
    } else {
        0
    };
    bytes_left + peek_left + cur_left
}

/// The expression of a form: a closure template for `lambda`, and a list
/// that starts with the keyword's atom for `let` and `define`.
pub open spec fn form(keyword: TokenView, first: Sexp, second: Sexp) -> Sexp {
    if keyword.kind == TokenType::LAMBDA {
        Sexp::Lamda(Box::new(first), Box::new(second))
    } else {
        Sexp::List(seq![Sexp::Atom(keyword), first, second])
    }
}

/// The expression that starts at the current token, and the parser after
/// it.
///
/// - `(` opens a list: its elements are parsed until `)` or the end of the
///   input, and the closing token is passed over.
/// - A quote mark or `quote` makes a list of its atom and the next
///   expression.
/// - `let`, `define` and `lambda` take the next two expressions.
/// - Literals and symbols stand for themselves.
/// - Any other token is an error.
///
/// Each step into a sub-expression is taken only if less is left to read
/// than before, which makes the definition well-founded. That is always
/// so: see [`lemma_advance_consumes`] and [`lemma_parse_consumes`].
pub open spec fn parse_val(st: ParserView) -> Result<(Sexp, ParserView), ParseErrorView>
    decreases remaining(st), 0nat,
{
    let kind = st.cur.kind;
    if kind == TokenType::LPAREN {
        match advance(st) {
            Ok(st1) => {
                if remaining(st1) < remaining(st) {
                    match parse_items(st1, Seq::empty()) {
                        Ok((items, st2)) => match advance(st2) {
                            Ok(st3) => Ok((Sexp::List(items), st3)),
                            Err(e) => Err(e),
                        },
                        Err(e) => Err(e),
                    }
                } else {
                    Err(unknown_token(st.cur))
                }
            },
            Err(e) => Err(e),
        }
    } else if kind == TokenType::QUOTE {
        match advance(st) {
            Ok(st1) => {
                if remaining(st1) < remaining(st) {
                    match parse_val(st1) {
                        Ok((quoted, st2)) => Ok(
                            (Sexp::List(seq![Sexp::Atom(st.cur), quoted]), st2),
                        ),
                        Err(e) => Err(e),
                    }
                } else {
                    Err(unknown_token(st.cur))
                }
            },
            Err(e) => Err(e),
        }
    } else if is_form_kind(kind) {
        match advance(st) {
            Ok(st1) => {
                if remaining(st1) < remaining(st) {
                    match parse_val(st1) {
                        Ok((first, st2)) => {
                            if remaining(st2) < remaining(st) {
                                match parse_val(st2) {
                                    Ok((second, st3)) => Ok((form(st.cur, first, second), st3)),
                                    Err(e) => Err(e),
                                }
                            } else {
                                Err(unknown_token(st.cur))
                            }
                        },
                        Err(e) => Err(e),
                    }
                } else {
                    Err(unknown_token(st.cur))
                }
            },
            Err(e) => Err(e),
        }
    } else if kind == TokenType::INT {
        match int_of_text(st.cur.literal) {
            Some(n) => match advance(st) {
                Ok(st1) => Ok((Sexp::Number(n), st1)),
                Err(e) => Err(e),
            },
            None => Err(bad_number(st.cur)),
        }
    } else if kind == TokenType::TRUE || kind == TokenType::FALSE || kind == TokenType::STRING
        || is_symbol_kind(kind) {
        match advance(st) {
            Ok(st1) => Ok((literal(st.cur), st1)),
            Err(e) => Err(e),
        }
    } else {
        Err(unknown_token(st.cur))
    }
}

/// The expression of a boolean, a string or a symbol token.
pub open spec fn literal(t: TokenView) -> Sexp {
    if t.kind == TokenType::TRUE {
        Sexp::Bool(true)
    } else if t.kind == TokenType::FALSE {
        Sexp::Bool(false)
    } else if t.kind == TokenType::STRING {
        Sexp::String(t.literal)
    } else {
        Sexp::Atom(t)
    }
}

/// The expressions from the current token up to the next `)` or `EOF` at
/// this depth, after `acc`, and the parser at that token.
pub open spec fn parse_items(st: ParserView, acc: Seq<Sexp>) -> Result<
    (Seq<Sexp>, ParserView),
    ParseErrorView,
>
    decreases remaining(st), 1nat,
{
    if st.cur.kind == TokenType::RPAREN || st.cur.kind == TokenType::EOF {
        Ok((acc, st))
    } else {
        match parse_val(st) {
            Ok((item, st1)) => {
                if remaining(st1) < remaining(st) {
                    parse_items(st1, acc.push(item))
                } else {
                    Err(unknown_token(st.cur))
                }
            },
            Err(e) => Err(e),
        }
    }
}

/// The expressions from the current token up to `EOF`, after `acc`.
pub open spec fn parse_all(st: ParserView, acc: Seq<Sexp>) -> Result<Seq<Sexp>, ParseErrorView>
    decreases remaining(st),
{
    if st.cur.kind == TokenType::EOF {
        Ok(acc)
    } else {
        match parse_val(st) {
            Ok((item, st1)) => {
                if remaining(st1) < remaining(st) {
                    parse_all(st1, acc.push(item))
                } else {
                    Err(unknown_token(st.cur))
                }
            },
            Err(e) => Err(e),
        }
    }
}

/// Reading a token never adds to what is left, and takes from it unless
/// the current token is `EOF`.
pub proof fn lemma_advance_consumes(st: ParserView)
    ensures
        advance(st) matches Ok(st1) ==> {
            &&& st1.bytes == st.bytes
            &&& remaining(st1) <= remaining(st)
            &&& st.cur.kind != TokenType::EOF ==> remaining(st1) < remaining(st)
        },
{
    lemma_scan_consumes(st.bytes, st.pos as int);
}

/// An expression takes at least one token, and a run of list elements
/// takes none back: so the comparisons of `remaining` in [`parse_val`],
/// [`parse_items`] and [`parse_all`] always hold.
pub proof fn lemma_parse_consumes(st: ParserView, acc: Seq<Sexp>)
    ensures
        parse_val(st) matches Ok((v, st1)) ==> st1.bytes == st.bytes && remaining(st1)
            < remaining(st),
        parse_items(st, acc) matches Ok((items, st1)) ==> st1.bytes == st.bytes && remaining(st1)
            <= remaining(st),
    decreases remaining(st), 1nat,
{
    lemma_parse_val_consumes(st);
    if !(st.cur.kind == TokenType::RPAREN || st.cur.kind == TokenType::EOF) {
        match parse_val(st) {
            Ok((item, st1)) => {
                lemma_parse_consumes(st1, acc.push(item));
            },
            Err(_) => {},
        }
    }
}

/// An expression takes at least one token.
pub proof fn lemma_parse_val_consumes(st: ParserView)
    ensures
        parse_val(st) matches Ok((v, st1)) ==> st1.bytes == st.bytes && remaining(st1)
            < remaining(st),
    decreases remaining(st), 0nat,
{
    let kind = st.cur.kind;
    lemma_advance_consumes(st);
    if kind == TokenType::LPAREN {
        if let Ok(st1) = advance(st) {
            lemma_parse_consumes(st1, Seq::empty());
            if let Ok((items, st2)) = parse_items(st1, Seq::empty()) {
                lemma_advance_consumes(st2);
            }
        }
    } else if kind == TokenType::QUOTE {
        if let Ok(st1) = advance(st) {
            lemma_parse_val_consumes(st1);
        }
    } else if is_form_kind(kind) {
        if let Ok(st1) = advance(st) {
            lemma_parse_val_consumes(st1);
            if let Ok((first, st2)) = parse_val(st1) {
                lemma_parse_val_consumes(st2);
            }
        }
    }
}

/// The name of a token kind.
fn kind_name(kind: TokenType) -> (name: &'static str)
    ensures
        name@ == kind_text(kind),
{
    match kind {
        TokenType::ILLEGAL => "ILLEGAL",
        TokenType::EOF => "EOF",
        TokenType::IDENT => "IDENT",
        TokenType::STRING => "STRING",
        TokenType::INT => "INT",
        TokenType::DOT => "DOT",
        TokenType::POUND => "POUND",
        TokenType::PLUS => "PLUS",
        TokenType::MINUS => "MINUS",
        TokenType::COMMENT => "COMMENT",
        TokenType::COMMA => "COMMA",
        TokenType::ASTERICK => "ASTERICK",
        TokenType::SLASH => "SLASH",
        TokenType::AND => "AND",
        TokenType::OR => "OR",
        TokenType::NOT => "NOT",
        TokenType::EQ => "EQ",
        TokenType::LT => "LT",
        TokenType::LTEQ => "LTEQ",
        TokenType::GT => "GT",
        TokenType::GTEQ => "GTEQ",
        TokenType::TRUE => "TRUE",
        TokenType::FALSE => "FALSE",
        TokenType::IF => "IF",
        TokenType::ELSE => "ELSE",
        TokenType::LPAREN => "LPAREN",
        TokenType::RPAREN => "RPAREN",
        TokenType::AT => "AT",
        TokenType::LBRACK => "LBRACK",
        TokenType::RBRACK => "RBRACK",
        TokenType::BEGIN => "BEGIN",
        TokenType::DEFINE => "DEFINE",
        TokenType::LET => "LET",
        TokenType::LAMBDA => "LAMBDA",
        TokenType::QUOTE => "QUOTE",
    }
}

/// Whether a token of this kind stands for itself as an atom.
fn symbol_kind(kind: TokenType) -> (r: bool)
    ensures
        r == is_symbol_kind(kind),
{
    match kind {
        TokenType::IDENT
        | TokenType::PLUS
        | TokenType::MINUS
        | TokenType::ASTERICK
        | TokenType::SLASH
        | TokenType::AND
        | TokenType::BEGIN
        | TokenType::ELSE
        | TokenType::IF
        | TokenType::NOT
        | TokenType::OR
        | TokenType::LT
        | TokenType::EQ
        | TokenType::LTEQ
        | TokenType::GT
        | TokenType::GTEQ => true,
        _ => false,
    }
}

/// A parser over a scanner, holding the current token and one token of
/// lookahead.
pub struct Parser<'a> {
    lex: &'a mut Lexer,
    cur_token: Token,
    peek_token: Token,
}

impl<'a> View for Parser<'a> {
    type V = ParserView;

    closed spec fn view(&self) -> ParserView {
        ParserView {
            bytes: self.lex.bytes(),
            pos: self.lex.cursor(),
            cur: self.cur_token@,
            peek: self.peek_token@,
        }
    }
}

impl<'a> Parser<'a> {
    /// A parser over `l`, with its first two tokens read.
    pub fn init_parser(l: &'a mut Lexer) -> (r: Result<Parser<'a>, ParseError>)
        ensures
            match start(old(l).bytes(), old(l).cursor()) {
                Ok(st) => r matches Ok(p) && p@ == st,
                Err(e) => r matches Err(error) && error@ == e,
            },
    {
        let mut p = Parser {
            lex: l,
            cur_token: Token { literal: "".to_owned(), kind: TokenType::ILLEGAL },
            peek_token: Token { literal: "".to_owned(), kind: TokenType::ILLEGAL },
        };
        match p.next_token() {
            Ok(()) => (),
            Err(err) => return Err(err),
        }
        match p.next_token() {
            Ok(()) => (),
            Err(err) => return Err(err),
        }
        Ok(p)
    }

    /// One token on: the lookahead becomes the current token, and the
    /// scanner gives the new lookahead or fails. When it fails, the old
    /// lookahead is both the current token and the lookahead.
    pub fn next_token(&mut self) -> (r: Result<(), ParseError>)
        ensures
            match advance(old(self)@) {
                Ok(st) => r is Ok && final(self)@ == st,
                Err(e) => {
                    &&& r matches Err(error) && error@ == e
                    &&& final(self)@.cur == old(self)@.peek
                    &&& final(self)@.peek == old(self)@.peek
                    &&& final(self)@.bytes == old(self)@.bytes
                },
            },
    {
        self.cur_token = self.peek_token.clone();
        let tok = self.lex.next_token();
        match tok {
            Ok(t) => {
                self.peek_token = t;
                Ok(())
            },
            Err(err) => Err(ParseError::Lexer(err)),
        }
    }

    /// The top-level expressions up to the end of the input, or the first
    /// error.
    pub fn parse_program(&mut self) -> (r: Result<Program, ParseError>)
        ensures
            match parse_all(old(self)@, Seq::empty()) {
                Ok(items) => r matches Ok(program) && models(program@) == items,
                Err(e) => r matches Err(error) && error@ == e,
            },
    {
        let mut program: Program = Vec::new();
        assert(models(program@) =~= Seq::empty());
        while self.cur_token.kind != TokenType::EOF
            invariant
                parse_all(old(self)@, Seq::empty()) == parse_all(self@, models(program@)),
            decreases remaining(self@),
        {
            proof {
                lemma_parse_val_consumes(self@);
            }
            let ghost before = models(program@);
            let val = self.parse_lisp_val();
            match val {
                Ok(x) => {
                    program.push(x);
                    assert(models(program@) =~= before.push(x@));
                },
                Err(err) => return Err(err),
            }
        }
        Ok(program)
    }

    /// The expression that starts at the current token.
    fn parse_lisp_val(&mut self) -> (r: Result<LispVal, ParseError>)
        ensures
            match parse_val(old(self)@) {
                Ok((v, st)) => r matches Ok(x) && x@ == v && final(self)@ == st,
                Err(e) => r matches Err(error) && error@ == e,
            },
        decreases remaining(old(self)@), 2nat,
    {
        proof {
            lemma_advance_consumes(self@);
        }
        let kind = self.cur_token.kind;
        match kind {
            TokenType::LPAREN => {
                match self.next_token() {
                    Ok(()) => (),
                    Err(err) => return Err(err),
                }
                let fresh: Vec<LispVal> = Vec::new();
                assert(models(fresh@) =~= Seq::empty());
                match self.parse_list(fresh) {
                    Ok(x) => {
                        match self.next_token() {
                            Ok(()) => (),
                            Err(err) => return Err(err),
                        }
                        Ok(x)
                    },
                    Err(x) => Err(x),
                }
            },
            TokenType::QUOTE => {
                let mut v: Vec<LispVal> = Vec::new();
                v.push(self.parse_atom());
                match self.next_token() {
                    Ok(()) => (),
                    Err(err) => return Err(err),
                }
                match self.parse_lisp_val() {
                    Ok(x) => {
                        v.push(x);
                        assert(models(v@) =~= seq![Sexp::Atom(old(self)@.cur), x@]);
                        Ok(LispVal::List(v))
                    },
                    Err(x) => Err(x),
                }
            },
            TokenType::LET => self.parse_let(),
            TokenType::LAMBDA => self.parse_lambda(),
            TokenType::DEFINE => self.parse_define(),
            TokenType::INT => match self.parse_number() {
                Ok(x) => {
                    match self.next_token() {
                        Ok(()) => (),
                        Err(err) => return Err(err),
                    }
                    Ok(x)
                },
                Err(err) => Err(err),
            },
            TokenType::STRING => {
                let x = self.parse_string();
                match self.next_token() {
                    Ok(()) => (),
                    Err(err) => return Err(err),
                }
                Ok(x)
            },
            TokenType::TRUE => {
                match self.next_token() {
                    Ok(()) => (),
                    Err(err) => return Err(err),
                }
                Ok(LispVal::Bool(true))
            },
            TokenType::FALSE => {
                match self.next_token() {
                    Ok(()) => (),
                    Err(err) => return Err(err),
                }
                Ok(LispVal::Bool(false))
            },
            _ => {
                if symbol_kind(kind) {
                    let x = self.parse_atom();
                    match self.next_token() {
                        Ok(()) => (),
                        Err(err) => return Err(err),
                    }
                    Ok(x)
                } else {
                    let mut msg = "Unknown Token in parse_lisp_val: Token literal: ".to_owned();
                    msg.append(self.cur_token.literal.as_str());
                    msg.append(" Token kind: ");
                    msg.append(kind_name(kind));
                    Err(ParseError::PError(msg))
                }
            },
        }
    }

    /// The expressions from the current token up to the next `)` or
    /// `EOF`, after those of `vec`, as a list.
    fn parse_list(&mut self, vec: Vec<LispVal>) -> (r: Result<LispVal, ParseError>)
        ensures
            match parse_items(old(self)@, models(vec@)) {
                Ok((items, st)) => r matches Ok(x) && x@ == Sexp::List(items) && final(self)@
                    == st,
                Err(e) => r matches Err(error) && error@ == e,
            },
        decreases remaining(old(self)@), 3nat,
    {
        let mut items = vec;
        while self.cur_token.kind != TokenType::RPAREN && self.cur_token.kind != TokenType::EOF
            invariant
                parse_items(old(self)@, models(vec@)) == parse_items(self@, models(items@)),
                remaining(self@) <= remaining(old(self)@),
            decreases remaining(self@),
        {
            proof {
                lemma_parse_val_consumes(self@);
            }
            let ghost before = models(items@);
            match self.parse_lisp_val() {
                Ok(x) => {
                    items.push(x);
                    assert(models(items@) =~= before.push(x@));
                },
                Err(err) => return Err(err),
            }
        }
        Ok(LispVal::List(items))
    }

    /// The current token as an atom.
    fn parse_atom(&self) -> (v: LispVal)
        ensures
            v@ == Sexp::Atom(self@.cur),
    {
        LispVal::Atom(self.cur_token.clone())
    }

    /// The current token as a number.
    fn parse_number(&self) -> (r: Result<LispVal, ParseError>)
        ensures
            match int_of_text(self@.cur.literal) {
                Some(n) => r matches Ok(v) && v@ == Sexp::Number(n),
                None => r matches Err(error) && error@ == bad_number(self@.cur),
            },
    {
        let parsed = parse_int(self.cur_token.literal.as_str());
        match parsed {
            Some(x) => Ok(LispVal::Number(x)),
            None => {
                let mut msg = "Could not parse ".to_owned();
                msg.append(self.cur_token.literal.as_str());
                msg.append(" as a number");
                Err(ParseError::PError(msg))
            },
        }
    }

    /// The current token as a string.
    fn parse_string(&self) -> (v: LispVal)
        ensures
            v@ == Sexp::String(self@.cur.literal),
    {
        LispVal::String(self.cur_token.literal.clone())
    }

    /// The two expressions after the keyword under the cursor.
    fn parse_pair(&mut self) -> (r: Result<(LispVal, LispVal), ParseError>)
        requires
            is_form_kind(old(self)@.cur.kind),
        ensures
            match parse_val(old(self)@) {
                Ok((v, st)) => r matches Ok(pair) && form(old(self)@.cur, pair.0@, pair.1@) == v
                    && final(self)@ == st,
                Err(e) => r matches Err(error) && error@ == e,
            },
        decreases remaining(old(self)@), 0nat,
    {
        proof {
            lemma_advance_consumes(self@);
        }
        match self.next_token() {
            Ok(()) => (),
            Err(err) => return Err(err),
        }
        proof {
            lemma_parse_val_consumes(self@);
        }
        let x = match self.parse_lisp_val() {
            Ok(l) => l,
            Err(err) => return Err(err),
        };
        let y = match self.parse_lisp_val() {
            Ok(l) => l,
            Err(err) => return Err(err),
        };
        Ok((x, y))
    }

    /// A closure template: `lambda`, its parameters and its body.
    fn parse_lambda(&mut self) -> (r: Result<LispVal, ParseError>)
        requires
            old(self)@.cur.kind == TokenType::LAMBDA,
        ensures
            match parse_val(old(self)@) {
                Ok((v, st)) => r matches Ok(x) && x@ == v && final(self)@ == st,
                Err(e) => r matches Err(error) && error@ == e,
            },
        decreases remaining(old(self)@), 1nat,
    {
        match self.parse_pair() {
            Ok((x, y)) => Ok(LispVal::Lamda(Box::new(x), Box::new(y))),
            Err(err) => Err(err),
        }
    }

    /// A definition: `define`, what is defined and its value or body.
    fn parse_define(&mut self) -> (r: Result<LispVal, ParseError>)
        requires
            old(self)@.cur.kind == TokenType::DEFINE,
        ensures
            match parse_val(old(self)@) {
                Ok((v, st)) => r matches Ok(x) && x@ == v && final(self)@ == st,
                Err(e) => r matches Err(error) && error@ == e,
            },
        decreases remaining(old(self)@), 1nat,
    {
        let def = self.parse_atom();
        match self.parse_pair() {
            Ok((y, z)) => {
                let mut v: Vec<LispVal> = Vec::new();
                v.push(def);
                v.push(y);
                v.push(z);
                assert(models(v@) =~= seq![def@, y@, z@]);
                Ok(LispVal::List(v))
            },
            Err(err) => Err(err),
        }
    }

    /// A binding form: `let`, its bindings and its body.
    fn parse_let(&mut self) -> (r: Result<LispVal, ParseError>)
        requires
            old(self)@.cur.kind == TokenType::LET,
        ensures
            match parse_val(old(self)@) {
                Ok((v, st)) => r matches Ok(x) && x@ == v && final(self)@ == st,
                Err(e) => r matches Err(error) && error@ == e,
            },
        decreases remaining(old(self)@), 1nat,
    {
        let l = self.parse_atom();
        match self.parse_pair() {
            Ok((pairs, body)) => {
                let mut v: Vec<LispVal> = Vec::new();
                v.push(l);
                v.push(pairs);
                v.push(body);
                assert(models(v@) =~= seq![l@, pairs@, body@]);
                Ok(LispVal::List(v))
            },
            Err(err) => Err(err),
        }
    }
}

} // verus!
