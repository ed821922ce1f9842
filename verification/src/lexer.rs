//! The scanner: source text to tokens, one token per call.
//!
//! The scanner looks at the source one byte at a time and takes each byte
//! for the character with that code. The text of an identifier, a number
//! or a string is decoded from its bytes as UTF-8 when the token is
//! complete.
use crate::token::{Token, TokenType, TokenView};
use vstd::prelude::*;
use vstd::slice::*;
use vstd::string::*;
use vstd::utf8::*;

verus! {

/// Why scanning failed.
#[derive(Debug)]
pub enum LexerError {
    /// A character that starts no token; holds that character.
    UnknownToken(String),
    /// A malformed block comment.
    MultiLine(String),
    /// The bytes of a string literal are not valid UTF-8.
    ReadString(String),
    /// The bytes of an identifier are not valid UTF-8.
    ReadIdentifier(String),
    /// The bytes of a number are not valid UTF-8.
    ReadNumber(String),
}

/// The model of a [`LexerError`].
pub enum LexerErrorView {
    UnknownToken(Seq<char>),
    MultiLine(Seq<char>),
    ReadString(Seq<char>),
    ReadIdentifier(Seq<char>),
    ReadNumber(Seq<char>),
}

impl View for LexerError {
    type V = LexerErrorView;

    open spec fn view(&self) -> LexerErrorView {
        match self {
            LexerError::UnknownToken(s) => LexerErrorView::UnknownToken(s@),
            LexerError::MultiLine(s) => LexerErrorView::MultiLine(s@),
            LexerError::ReadString(s) => LexerErrorView::ReadString(s@),
            LexerError::ReadIdentifier(s) => LexerErrorView::ReadIdentifier(s@),
            LexerError::ReadNumber(s) => LexerErrorView::ReadNumber(s@),
        }
    }
}

/// Whether `c` has the Unicode property White_Space, which is what
/// `char::is_whitespace` returns: the tab, the line feed, the vertical tab,
/// the form feed, the carriage return, the space, and the spaces and
/// separators beyond ASCII.
pub open spec fn char_is_whitespace(c: char) -> bool {
    let n = c as u32;
    ||| 0x09 <= n <= 0x0d
    ||| n == 0x20
    ||| n == 0x85
    ||| n == 0xa0
    ||| n == 0x1680
    ||| 0x2000 <= n <= 0x200a
    ||| n == 0x2028
    ||| n == 0x2029
    ||| n == 0x202f
    ||| n == 0x205f
    ||| n == 0x3000
}

/// What `char::is_alphabetic` returns for `c`.
pub uninterp spec fn char_is_alphabetic(c: char) -> bool;

/// What `char::is_numeric` returns for `c`.
pub uninterp spec fn char_is_numeric(c: char) -> bool;

/// Whether `c` is an ASCII character.
pub open spec fn is_ascii_char(c: char) -> bool {
    c <= '\u{7f}'
}

/// Whether `c` is alphabetic: among the ASCII characters the letters, and
/// beyond them what `char::is_alphabetic` returns.
pub open spec fn alphabetic(c: char) -> bool {
    if is_ascii_char(c) {
        ('a' <= c && c <= 'z') || ('A' <= c && c <= 'Z')
    } else {
        char_is_alphabetic(c)
    }
}

/// Whether `c` is numeric: among the ASCII characters the digits, and
/// beyond them what `char::is_numeric` returns.
pub open spec fn numeric(c: char) -> bool {
    if is_ascii_char(c) {
        '0' <= c && c <= '9'
    } else {
        char_is_numeric(c)
    }
}

/// The text with which `std::str::from_utf8` describes why `bytes` is not
/// valid UTF-8.
pub uninterp spec fn utf8_error_text(bytes: Seq<u8>) -> Seq<char>;

/// `char::is_whitespace`: whether `c` has the Unicode property White_Space.
/// Trusted.
#[verifier::external_body]
fn is_whitespace(c: char) -> (r: bool)
    ensures
        r == char_is_whitespace(c),
{
    c.is_whitespace()
}

/// `char::is_alphabetic`: whether `c` has the Unicode property Alphabetic;
/// of the ASCII characters, the letters have it and no other. Trusted.
#[verifier::external_body]
fn is_alphabetic(c: char) -> (r: bool)
    ensures
        r == alphabetic(c),
        !is_ascii_char(c) ==> r == char_is_alphabetic(c),
{
    c.is_alphabetic()
}

/// `char::is_numeric`: whether `c` is in one of the Unicode general
/// categories for numbers; of the ASCII characters, the digits are and no
/// other. Trusted.
#[verifier::external_body]
fn is_numeric(c: char) -> (r: bool)
    ensures
        r == numeric(c),
        !is_ascii_char(c) ==> r == char_is_numeric(c),
{
    c.is_numeric()
}

/// `char::is_alphanumeric`, which std documents as "either
/// `is_alphabetic()` or `is_numeric()`". Trusted.
#[verifier::external_body]
fn is_alphanumeric(c: char) -> (r: bool)
    ensures
        r == (alphabetic(c) || numeric(c)),
{
    c.is_alphanumeric()
}

/// `char::to_string`: the one-character text of `c`. Trusted.
#[verifier::external_body]
fn char_text(c: char) -> (text: String)
    ensures
        text@ == seq![c],
{
    c.to_string()
}

/// `std::str::from_utf8`: the text that `buf` encodes when `buf` is valid
/// UTF-8, and otherwise the error, converted to its message. Trusted.
#[verifier::external_body]
fn decode(buf: &[u8]) -> (r: Result<String, String>)
    ensures
        r is Ok <==> valid_utf8(buf@),
        r matches Ok(text) ==> text@ == decode_utf8(buf@),
        r matches Err(reason) ==> reason@ == utf8_error_text(buf@),
{
    match std::str::from_utf8(buf) {
        Ok(s) => Ok(s.to_owned()),
        Err(e) => Err(e.to_string()),
    }
}

/// The properties of a character by which the scanner delimits a run.
#[derive(Copy, Clone, PartialEq, Eq, Debug, Structural)]
pub enum CharClass {
    Whitespace,
    Alphanumeric,
    Numeric,
    /// Anything but a line feed.
    NotNewline,
    /// Anything but a double quote.
    NotQuote,
}

/// Whether `c` belongs to `class`.
pub open spec fn in_class(class: CharClass, c: char) -> bool {
    match class {
        CharClass::Whitespace => char_is_whitespace(c),
        CharClass::Alphanumeric => alphabetic(c) || numeric(c),
        CharClass::Numeric => numeric(c),
        CharClass::NotNewline => c != '\n',
        CharClass::NotQuote => c != '"',
    }
}

/// The end of the longest run of bytes from `pos` on whose characters all
/// belong to `class`: the index of the first byte that does not, or the
/// length of the input.
pub open spec fn run_end(bytes: Seq<u8>, pos: int, class: CharClass) -> int
    decreases bytes.len() - pos,
{
    if 0 <= pos < bytes.len() && in_class(class, bytes[pos] as char) {
        run_end(bytes, pos + 1, class)
    } else {
        pos
    }
}

/// The character after the one at `pos`, or NUL at the end of the input.
pub open spec fn peek_char(bytes: Seq<u8>, pos: int) -> char {
    if 0 <= pos + 1 < bytes.len() {
        bytes[pos + 1] as char
    } else {
        '\0'
    }
}

/// Where the first `-}` at or after `pos` starts, if there is one.
pub open spec fn comment_close(bytes: Seq<u8>, pos: int) -> Option<int>
    decreases bytes.len() - pos,
{
    if pos < 0 || pos + 1 >= bytes.len() {
        None
    } else if bytes[pos] == 45 && bytes[pos + 1] == 125 {
        Some(pos)
    } else {
        comment_close(bytes, pos + 1)
    }
}

/// The keyword table: the texts that are not identifiers, with their
/// kinds.
pub open spec fn keywords() -> Seq<(Seq<char>, TokenType)> {
    seq![
        ("let"@, TokenType::LET),
        ("lambda"@, TokenType::LAMBDA),
        ("if"@, TokenType::IF),
        ("#t"@, TokenType::TRUE),
        ("#f"@, TokenType::FALSE),
        ("\'"@, TokenType::QUOTE),
        ("quote"@, TokenType::QUOTE),
        ("define"@, TokenType::DEFINE),
        ("begin"@, TokenType::BEGIN),
        ("else"@, TokenType::ELSE),
        ("and"@, TokenType::AND),
        ("or"@, TokenType::OR),
        ("not"@, TokenType::NOT),
    ]
}

/// The kind of the first entry of `table` from index `i` on whose text is
/// `text`, or `IDENT` when there is none.
pub open spec fn lookup_from(table: Seq<(Seq<char>, TokenType)>, i: int, text: Seq<char>)
    -> TokenType
    decreases table.len() - i,
{
    if i < 0 || i >= table.len() {
        TokenType::IDENT
    } else if table[i].0 == text {
        table[i].1
    } else {
        lookup_from(table, i + 1, text)
    }
}

/// The kind of an alphanumeric word: a keyword's kind, or `IDENT`.
pub open spec fn keyword_kind(text: Seq<char>) -> TokenType {
    lookup_from(keywords(), 0, text)
}

/// A token's model from its text and kind.
pub open spec fn tok(literal: Seq<char>, kind: TokenType) -> TokenView {
    TokenView { literal, kind }
}

/// The text that the bytes from `from` to `to` encode, or why they are not
/// valid UTF-8.
pub open spec fn span_text(bytes: Seq<u8>, from: int, to: int) -> Result<Seq<char>, Seq<char>> {
    let span = bytes.subrange(from, to);
    if valid_utf8(span) {
        Ok(decode_utf8(span))
    } else {
        Err(utf8_error_text(span))
    }
}

/// The number that starts at `p`: its first byte, then the longest run of
/// numeric characters.
pub open spec fn scan_number(bytes: Seq<u8>, p: int) -> Result<(TokenView, int), LexerErrorView> {
    let end = run_end(bytes, p + 1, CharClass::Numeric);
    match span_text(bytes, p, end) {
        Ok(text) => Ok((tok(text, TokenType::INT), end)),
        Err(reason) => Err(LexerErrorView::ReadNumber(reason)),
    }
}

/// The token that starts at `p`, a position inside the input that holds no
/// whitespace, and the cursor after it.
pub open spec fn scan_at(bytes: Seq<u8>, p: int) -> Result<(TokenView, int), LexerErrorView> {
    let c = bytes[p] as char;
    let nx = peek_char(bytes, p);
    if c == '#' {
        if nx == 'f' {
            Ok((tok("#f"@, TokenType::FALSE), p + 2))
        } else if nx == 't' {
            Ok((tok("#t"@, TokenType::TRUE), p + 2))
        } else {
            Ok((tok("#"@, TokenType::POUND), p + 1))
        }
    } else if c == ',' {
        Ok((tok(","@, TokenType::COMMA), p + 1))
    } else if c == '@' {
        Ok((tok("@"@, TokenType::AT), p + 1))
    } else if c == '=' {
        Ok((tok("="@, TokenType::EQ), p + 1))
    } else if c == '<' {
        if nx == '=' {
            Ok((tok("<="@, TokenType::LTEQ), p + 2))
        } else {
            Ok((tok("<"@, TokenType::LT), p + 1))
        }
    } else if c == '>' {
        if nx == '=' {
            Ok((tok(">="@, TokenType::GTEQ), p + 2))
        } else {
            Ok((tok(">"@, TokenType::GT), p + 1))
        }
    } else if c == '/' {
        Ok((tok("/"@, TokenType::SLASH), p + 1))
    } else if c == '+' {
        Ok((tok("+"@, TokenType::PLUS), p + 1))
    } else if c == '*' {
        Ok((tok("*"@, TokenType::ASTERICK), p + 1))
    } else if c == '(' {
        Ok((tok("("@, TokenType::LPAREN), p + 1))
    } else if c == ')' {
        Ok((tok(")"@, TokenType::RPAREN), p + 1))
    } else if c == '\'' {
        Ok((tok("\'"@, TokenType::QUOTE), p + 1))
    } else if c == '-' {
        if nx == '-' {
            let end = run_end(bytes, p, CharClass::NotNewline);
            Ok(
                (
                    tok("single-line-comment"@, TokenType::COMMENT),
                    if end < bytes.len() {
                        end + 1
                    } else {
                        end
                    },
                ),
            )
        } else if numeric(nx) {
            scan_number(bytes, p)
        } else {
            Ok((tok("-"@, TokenType::MINUS), p + 1))
        }
    } else if c == '{' {
        if nx != '-' {
            Err(
                LexerErrorView::MultiLine(
                    "Multiline comment must start with a bracket followed by a minus symbol {-"@,
                ),
            )
        } else {
            match comment_close(bytes, p + 2) {
                Some(close) => Ok((tok(""@, TokenType::ILLEGAL), close + 2)),
                None => Err(
                    LexerErrorView::MultiLine("Multiline comment must end with a minus symbol followed by a bracket -}"@),
                ),
            }
        }
    } else if c == '"' {
        let end = run_end(bytes, p + 1, CharClass::NotQuote);
        match span_text(bytes, p + 1, end) {
            Ok(text) => Ok(
                (
                    tok(text, TokenType::STRING),
                    if end < bytes.len() {
                        end + 1
                    } else {
                        end
                    },
                ),
            ),
            Err(reason) => Err(LexerErrorView::ReadString(reason)),
        }
    } else if alphabetic(c) {
        let end = run_end(bytes, p, CharClass::Alphanumeric);
        match span_text(bytes, p, end) {
            Ok(text) => Ok((tok(text, keyword_kind(text)), end)),
            Err(reason) => Err(LexerErrorView::ReadIdentifier(reason)),
        }
    } else if numeric(c) {
        scan_number(bytes, p)
    } else {
        Err(LexerErrorView::UnknownToken(seq![c]))
    }
}

/// The next token of `bytes` from the cursor `pos` on, and the cursor after
/// it: whitespace is skipped; at the end of the input the token is `EOF`
/// and the cursor stays.
pub open spec fn scan(bytes: Seq<u8>, pos: int) -> Result<(TokenView, int), LexerErrorView> {
    let p = run_end(bytes, pos, CharClass::Whitespace);
    if p >= bytes.len() {
        Ok((tok("\0"@, TokenType::EOF), p))
    } else {
        scan_at(bytes, p)
    }
}

/// A run ends at or after its start, and inside the input when it starts
/// there.
pub proof fn lemma_run_end_bounds(bytes: Seq<u8>, pos: int, class: CharClass)
    ensures
        pos <= run_end(bytes, pos, class),
        pos <= bytes.len() ==> run_end(bytes, pos, class) <= bytes.len(),
    decreases bytes.len() - pos,
{
    if 0 <= pos < bytes.len() && in_class(class, bytes[pos] as char) {
        lemma_run_end_bounds(bytes, pos + 1, class);
    }
}

/// The close of a block comment lies at or after the place where the
/// search started, with both of its bytes inside the input.
pub proof fn lemma_comment_close_bounds(bytes: Seq<u8>, pos: int)
    ensures
        comment_close(bytes, pos) matches Some(close) ==> pos <= close && close + 1 < bytes.len(),
    decreases bytes.len() - pos,
{
    if !(pos < 0 || pos + 1 >= bytes.len()) && !(bytes[pos] == 45 && bytes[pos + 1] == 125) {
        lemma_comment_close_bounds(bytes, pos + 1);
    }
}

/// No word is of kind `EOF`.
pub proof fn lemma_keyword_kind_not_eof(text: Seq<char>)
    ensures
        keyword_kind(text) != TokenType::EOF,
{
    reveal_with_fuel(lookup_from, 14);
}

/// Scanning never moves the cursor back, keeps it inside the input, and
/// every token but `EOF` takes at least one byte; `EOF` comes only when no
/// byte is left.
pub proof fn lemma_scan_consumes(bytes: Seq<u8>, pos: int)
    requires
        0 <= pos,
    ensures
        scan(bytes, pos) matches Ok((t, next)) ==> {
            &&& pos <= next
            &&& pos <= bytes.len() ==> next <= bytes.len()
            &&& t.kind != TokenType::EOF ==> pos < next <= bytes.len()
            &&& t.kind == TokenType::EOF ==> bytes.len() <= next
        },
{
    lemma_run_end_bounds(bytes, pos, CharClass::Whitespace);
    let p = run_end(bytes, pos, CharClass::Whitespace);
    if p < bytes.len() {
        lemma_run_end_bounds(bytes, p + 1, CharClass::NotNewline);
        lemma_run_end_bounds(bytes, p + 1, CharClass::Alphanumeric);
        lemma_run_end_bounds(bytes, p + 1, CharClass::Numeric);
        lemma_run_end_bounds(bytes, p + 1, CharClass::NotQuote);
        lemma_comment_close_bounds(bytes, p + 2);
        let end = run_end(bytes, p, CharClass::Alphanumeric);
        if span_text(bytes, p, end) is Ok {
            lemma_keyword_kind_not_eof(span_text(bytes, p, end)->Ok_0);
        }
    }
}

/// The model of a keyword table held in memory.
pub open spec fn table_model(table: Seq<(String, TokenType)>) -> Seq<(Seq<char>, TokenType)> {
    Seq::new(table.len(), |i: int| (table[i].0@, table[i].1))
}

/// The keyword table.
pub fn generate_keywords() -> (keys: Vec<(String, TokenType)>)
    ensures
        table_model(keys@) == keywords(),
{
    let mut keys: Vec<(String, TokenType)> = Vec::new();
    keys.push(("let".to_owned(), TokenType::LET));
    keys.push(("lambda".to_owned(), TokenType::LAMBDA));
    keys.push(("if".to_owned(), TokenType::IF));
    keys.push(("#t".to_owned(), TokenType::TRUE));
    keys.push(("#f".to_owned(), TokenType::FALSE));
    keys.push(("\'".to_owned(), TokenType::QUOTE));
    keys.push(("quote".to_owned(), TokenType::QUOTE));
    keys.push(("define".to_owned(), TokenType::DEFINE));
    keys.push(("begin".to_owned(), TokenType::BEGIN));
    keys.push(("else".to_owned(), TokenType::ELSE));
    keys.push(("and".to_owned(), TokenType::AND));
    keys.push(("or".to_owned(), TokenType::OR));
    keys.push(("not".to_owned(), TokenType::NOT));
    assert(table_model(keys@) =~= keywords());
    keys
}

/// Whether `c` belongs to `class`.
fn matches_class(class: CharClass, c: char) -> (r: bool)
    ensures
        r == in_class(class, c),
{
    match class {
        CharClass::Whitespace => is_whitespace(c),
        CharClass::Alphanumeric => is_alphanumeric(c),
        CharClass::Numeric => is_numeric(c),
        CharClass::NotNewline => c != '\n',
        CharClass::NotQuote => c != '"',
    }
}

/// A scanner over a source text. Its cursor is the index of the byte it
/// looks at; the input is exhausted when the cursor equals the number of
/// bytes.
pub struct Lexer {
    input: String,
    position: usize,
    keyword: Vec<(String, TokenType)>,
}

impl Lexer {
    #[verifier::type_invariant]
    spec fn inv(self) -> bool {
        &&& self.position <= encode_utf8(self.input@).len()
        &&& table_model(self.keyword@) == keywords()
    }

    /// The bytes of the source text.
    pub closed spec fn bytes(self) -> Seq<u8> {
        encode_utf8(self.input@)
    }

    /// The cursor: how many bytes lie before the one looked at.
    pub closed spec fn cursor(self) -> nat {
        self.position as nat
    }

    /// A scanner at the start of `input`.
    pub fn init_lex(input: String) -> (lex: Lexer)
        ensures
            lex.bytes() == encode_utf8(input@),
            lex.cursor() == 0,
    {
        let keys = generate_keywords();
        Lexer { input, position: 0, keyword: keys }
    }

    /// The cursor.
    pub fn position(&self) -> (pos: usize)
        ensures
            pos == self.cursor(),
            pos <= self.bytes().len(),
    {
        proof {
            use_type_invariant(self);
        }
        self.position
    }

    /// Moves the cursor one byte on, unless the input is exhausted.
    pub fn read_char(&mut self)
        ensures
            final(self).bytes() == old(self).bytes(),
            final(self).cursor() == if old(self).cursor() < old(self).bytes().len() {
                old(self).cursor() + 1
            } else {
                old(self).cursor()
            },
    {
        proof {
            use_type_invariant(&*self);
        }
        if self.position < self.input.as_str().as_bytes().len() {
            self.position += 1;
        }
    }

    /// Helper function to create tokens.
    fn new_token(&self, lit: String, kind: TokenType) -> (t: Token)
        ensures
            t@ == tok(lit@, kind),
    {
        Token { literal: lit, kind }
    }

    /// The character under the cursor.
    fn current(&self) -> (c: char)
        requires
            self.cursor() < self.bytes().len(),
        ensures
            c == self.bytes()[self.cursor() as int] as char,
    {
        self.input.as_str().as_bytes()[self.position] as char
    }

    /// The character after the one under the cursor, or NUL at the end.
    fn peek_ch(&self) -> (c: char)
        ensures
            c == peek_char(self.bytes(), self.cursor() as int),
    {
        proof {
            use_type_invariant(self);
        }
        let bytes = self.input.as_str().as_bytes();
        if bytes.len() - self.position > 1 {
            bytes[self.position + 1] as char
        } else {
            '\0'
        }
    }

    /// Moves the cursor to the end of the run of `class` that starts at it.
    fn skip_run(&mut self, class: CharClass)
        ensures
            final(self).bytes() == old(self).bytes(),
            final(self).cursor() == run_end(old(self).bytes(), old(self).cursor() as int, class),
            old(self).cursor() <= final(self).cursor() <= old(self).bytes().len(),
    {
        proof {
            use_type_invariant(&*self);
        }
        let len = self.input.as_str().as_bytes().len();
        while self.position < len && matches_class(
            class,
            self.input.as_str().as_bytes()[self.position] as char,
        )
            invariant
                self.input == old(self).input,
                self.keyword == old(self).keyword,
                len == encode_utf8(self.input@).len(),
                old(self).position <= self.position <= len,
                run_end(encode_utf8(self.input@), old(self).position as int, class) == run_end(
                    encode_utf8(self.input@),
                    self.position as int,
                    class,
                ),
                table_model(self.keyword@) == keywords(),
            decreases len - self.position,
        {
            self.position += 1;
        }
    }

    /// The text of the bytes from `from` up to the cursor.
    fn text_from(&self, from: usize) -> (r: Result<String, String>)
        requires
            from <= self.cursor(),
        ensures
            r is Ok <==> span_text(self.bytes(), from as int, self.cursor() as int) is Ok,
            r matches Ok(text) ==> span_text(self.bytes(), from as int, self.cursor() as int) == Ok::<
                Seq<char>,
                Seq<char>,
            >(text@),
            r matches Err(reason) ==> span_text(self.bytes(), from as int, self.cursor() as int) == Err::<
                Seq<char>,
                Seq<char>,
            >(reason@),
    {
        proof {
            use_type_invariant(self);
        }
        let bytes = self.input.as_str().as_bytes();
        decode(slice_subrange(bytes, from, self.position))
    }

    /// Helper function to skip through single line comments: moves the
    /// cursor to the next line feed, or to the end of the input.
    fn read_single_line_comment(&mut self)
        ensures
            final(self).bytes() == old(self).bytes(),
            final(self).cursor() == run_end(
                old(self).bytes(),
                old(self).cursor() as int,
                CharClass::NotNewline,
            ),
            old(self).cursor() <= final(self).cursor() <= old(self).bytes().len(),
    {
        self.skip_run(CharClass::NotNewline);
    }

    /// Helper function to skip through multiline comments: looks for the
    /// first `-}` at or after the cursor and, when there is one, moves the
    /// cursor onto its bracket.
    fn read_multiline_comment(&mut self) -> (found: bool)
        ensures
            final(self).bytes() == old(self).bytes(),
            found == comment_close(old(self).bytes(), old(self).cursor() as int).is_some(),
            found ==> final(self).cursor() == comment_close(
                old(self).bytes(),
                old(self).cursor() as int,
            ).unwrap() + 1,
            found ==> final(self).cursor() < old(self).bytes().len(),
            old(self).cursor() <= final(self).cursor() <= old(self).bytes().len(),
    {
        proof {
            use_type_invariant(&*self);
        }
        let len = self.input.as_str().as_bytes().len();
        while len - self.position > 1
            invariant
                self.input == old(self).input,
                self.keyword == old(self).keyword,
                len == encode_utf8(self.input@).len(),
                old(self).position <= self.position <= len,
                comment_close(encode_utf8(self.input@), old(self).position as int)
                    == comment_close(encode_utf8(self.input@), self.position as int),
                table_model(self.keyword@) == keywords(),
            decreases len - self.position,
        {
            let bytes = self.input.as_str().as_bytes();
            if bytes[self.position] == 45 && bytes[self.position + 1] == 125 {
                self.position += 1;
                return true;
            }
            self.position += 1;
        }
        false
    }

    /// The text between the double quote under the cursor and the next
    /// one, or the end of the input; the cursor moves onto that quote or
    /// to the end.
    fn read_string(&mut self) -> (r: Result<String, LexerError>)
        requires
            old(self).cursor() < old(self).bytes().len(),
        ensures
            final(self).bytes() == old(self).bytes(),
            final(self).cursor() == run_end(
                old(self).bytes(),
                old(self).cursor() as int + 1,
                CharClass::NotQuote,
            ),
            old(self).cursor() < final(self).cursor() <= old(self).bytes().len(),
            match span_text(
                old(self).bytes(),
                old(self).cursor() as int + 1,
                final(self).cursor() as int,
            ) {
                Ok(text) => r matches Ok(s) && s@ == text,
                Err(reason) => r matches Err(e) && e@ == LexerErrorView::ReadString(reason),
            },
    {
        let len = self.input.as_str().as_bytes().len();
        let pos = self.position + 1;
        self.read_char();
        self.skip_run(CharClass::NotQuote);
        match self.text_from(pos) {
            Ok(s) => Ok(s),
            Err(reason) => Err(LexerError::ReadString(reason)),
        }
    }

    /// The longest alphanumeric run from the cursor on; the cursor moves
    /// to its end.
    fn read_identifier(&mut self) -> (r: Result<String, LexerError>)
        ensures
            final(self).bytes() == old(self).bytes(),
            final(self).cursor() == run_end(
                old(self).bytes(),
                old(self).cursor() as int,
                CharClass::Alphanumeric,
            ),
            old(self).cursor() <= final(self).cursor() <= old(self).bytes().len(),
            match span_text(old(self).bytes(), old(self).cursor() as int, final(self).cursor() as int) {
                Ok(text) => r matches Ok(s) && s@ == text,
                Err(reason) => r matches Err(e) && e@ == LexerErrorView::ReadIdentifier(reason),
            },
    {
        let pos = self.position;
        self.skip_run(CharClass::Alphanumeric);
        match self.text_from(pos) {
            Ok(s) => Ok(s),
            Err(reason) => Err(LexerError::ReadIdentifier(reason)),
        }
    }

    /// The kind of an alphanumeric word: a keyword's kind, or `IDENT`.
    fn lookup_identifier(&self, identifier: &String) -> (kind: TokenType)
        ensures
            kind == keyword_kind(identifier@),
    {
        proof {
            use_type_invariant(self);
        }
        let mut i: usize = 0;
        while i < self.keyword.len()
            invariant
                i <= self.keyword.len(),
                table_model(self.keyword@) == keywords(),
                keyword_kind(identifier@) == lookup_from(keywords(), i as int, identifier@),
            decreases self.keyword.len() - i,
        {
            assert(keywords()[i as int] == table_model(self.keyword@)[i as int]);
            if self.keyword[i].0 == *identifier {
                return self.keyword[i].1;
            }
            i += 1;
        }
        TokenType::IDENT
    }

    /// The byte under the cursor and the longest run of numeric characters
    /// after it; the cursor moves to the end of that run.
    fn read_number(&mut self) -> (r: Result<String, LexerError>)
        requires
            old(self).cursor() < old(self).bytes().len(),
        ensures
            final(self).bytes() == old(self).bytes(),
            final(self).cursor() == run_end(
                old(self).bytes(),
                old(self).cursor() as int + 1,
                CharClass::Numeric,
            ),
            old(self).cursor() < final(self).cursor() <= old(self).bytes().len(),
            match span_text(old(self).bytes(), old(self).cursor() as int, final(self).cursor() as int) {
                Ok(text) => r matches Ok(s) && s@ == text,
                Err(reason) => r matches Err(e) && e@ == LexerErrorView::ReadNumber(reason),
            },
    {
        let pos = self.position;
        self.read_char();
        self.skip_run(CharClass::Numeric);
        match self.text_from(pos) {
            Ok(s) => Ok(s),
            Err(reason) => Err(LexerError::ReadNumber(reason)),
        }
    }

    /// The next token, as [`scan`] defines it; the cursor moves past it.
    /// After an error the cursor is somewhere between its old place and
    /// the end of the input.
    pub fn next_token(&mut self) -> (r: Result<Token, LexerError>)
        ensures
            final(self).bytes() == old(self).bytes(),
            old(self).cursor() <= final(self).cursor() <= old(self).bytes().len(),
            match scan(old(self).bytes(), old(self).cursor() as int) {
                Ok((t, next)) => r matches Ok(token) && token@ == t && final(self).cursor()
                    == next,
                Err(e) => r matches Err(error) && error@ == e,
            },
    {
        self.skip_run(CharClass::Whitespace);
        proof {
            use_type_invariant(&*self);
        }
        if self.position >= self.input.as_str().as_bytes().len() {
            return Ok(self.new_token("\0".to_owned(), TokenType::EOF));
        }
        let c = self.current();
        let nx = self.peek_ch();
        let tok: Token;
        if c == '#' {
            if nx == 'f' {
                tok = self.new_token("#f".to_owned(), TokenType::FALSE);
                self.read_char();
            } else if nx == 't' {
                tok = self.new_token("#t".to_owned(), TokenType::TRUE);
                self.read_char();
            } else {
                tok = self.new_token("#".to_owned(), TokenType::POUND);
            }
        } else if c == ',' {
            tok = self.new_token(",".to_owned(), TokenType::COMMA);
        } else if c == '@' {
            tok = self.new_token("@".to_owned(), TokenType::AT);
        } else if c == '=' {
            tok = self.new_token("=".to_owned(), TokenType::EQ);
        } else if c == '<' {
            if nx == '=' {
                self.read_char();
                tok = self.new_token("<=".to_owned(), TokenType::LTEQ);
            } else {
                tok = self.new_token("<".to_owned(), TokenType::LT);
            }
        } else if c == '>' {
            if nx == '=' {
                self.read_char();
                tok = self.new_token(">=".to_owned(), TokenType::GTEQ);
            } else {
                tok = self.new_token(">".to_owned(), TokenType::GT);
            }
        } else if c == '/' {
            tok = self.new_token("/".to_owned(), TokenType::SLASH);
        } else if c == '+' {
            tok = self.new_token("+".to_owned(), TokenType::PLUS);
        } else if c == '*' {
            tok = self.new_token("*".to_owned(), TokenType::ASTERICK);
        } else if c == '(' {
            tok = self.new_token("(".to_owned(), TokenType::LPAREN);
        } else if c == ')' {
            tok = self.new_token(")".to_owned(), TokenType::RPAREN);
        } else if c == '\'' {
            tok = self.new_token("\'".to_owned(), TokenType::QUOTE);
        } else if c == '-' {
            if nx == '-' {
                self.read_single_line_comment();
                tok = self.new_token("single-line-comment".to_owned(), TokenType::COMMENT);
            } else if is_numeric(nx) {
                match self.read_number() {
                    Ok(s) => return Ok(self.new_token(s, TokenType::INT)),
                    Err(e) => return Err(e),
                }
            } else {
                tok = self.new_token("-".to_owned(), TokenType::MINUS);
            }
        } else if c == '{' {
            if nx != '-' {
                return Err(
                    LexerError::MultiLine(
                        "Multiline comment must start with a bracket followed by a minus symbol {-".to_owned(),
                    ),
                );
            } else {
                self.read_char();
                self.read_char();
                if !self.read_multiline_comment() {
                    return Err(
                        LexerError::MultiLine(
                            "Multiline comment must end with a minus symbol followed by a bracket -}".to_owned(),
                        ),
                    );
                }
                tok = self.new_token("".to_owned(), TokenType::ILLEGAL);
            }
        } else if c == '"' {
            match self.read_string() {
                Ok(s) => tok = self.new_token(s, TokenType::STRING),
                Err(e) => return Err(e),
            }
        } else if is_alphabetic(c) {
            match self.read_identifier() {
                Ok(s) => {
                    let kind = self.lookup_identifier(&s);
                    return Ok(self.new_token(s, kind));
                },
                Err(e) => return Err(e),
            }
        } else if is_numeric(c) {
            match self.read_number() {
                Ok(s) => return Ok(self.new_token(s, TokenType::INT)),
                Err(e) => return Err(e),
            }
        } else {
            return Err(LexerError::UnknownToken(char_text(c)));
        }
        self.read_char();
        Ok(tok)
    }
}

} // verus!
