//! Reading back what was rendered: the scanner and the parser on the text
//! of a value.
use crate::lexer::{
    alphabetic, char_is_whitespace, in_class, is_ascii_char, keyword_kind, lemma_run_end_bounds,
    lemma_scan_consumes, numeric, peek_char, run_end, scan, scan_at, scan_number, span_text, tok,
    CharClass,
};
use crate::number::{
    all_digits, int_of_text, int_text, is_digit, lemma_digits_of, lemma_text_round_trip,
    nat_text,
};
use crate::parser::{
    advance, lemma_advance_consumes, lemma_parse_val_consumes, literal, parse_all, parse_items,
    parse_val, remaining, start, ParserView,
};
use crate::token::{bare, joined, render, Sexp, TokenType, TokenView};
use vstd::prelude::*;
use vstd::utf8::*;

verus! {

/// Whether the bytes from `at` on are the characters of `text`, one byte
/// for each.
pub open spec fn spells(bytes: Seq<u8>, at: int, text: Seq<char>) -> bool {
    &&& 0 <= at
    &&& at + text.len() <= bytes.len()
    &&& forall|i: int| 0 <= i < text.len() ==> bytes[at + i] as char == #[trigger] text[i]
}

/// A run of ASCII characters is the text of the bytes that spell it.
pub proof fn lemma_span_of_ascii(bytes: Seq<u8>, at: int, text: Seq<char>)
    requires
        spells(bytes, at, text),
        is_ascii_chars(text),
    ensures
        span_text(bytes, at, at + text.len()) == Ok::<Seq<char>, Seq<char>>(text),
{
    let span = bytes.subrange(at, at + text.len());
    is_ascii_chars_encode_utf8(text);
    assert(span =~= encode_utf8(text)) by {
        assert forall|i: int| 0 <= i < text.len() implies span[i] == encode_utf8(text)[i] by {
            assert(bytes[at + i] as char == text[i]);
            assert(text[i] as u8 == encode_utf8(text)[i]);
        }
    }
    encode_utf8_valid_utf8(text);
    encode_utf8_decode_utf8(text);
}

/// A run ends where its class ends: at the first character outside the
/// class, or at the end of the input.
pub proof fn lemma_run_end_exact(bytes: Seq<u8>, from: int, to: int, class: CharClass)
    requires
        0 <= from <= to <= bytes.len(),
        forall|i: int| from <= i < to ==> in_class(class, #[trigger] bytes[i] as char),
        to == bytes.len() || !in_class(class, bytes[to] as char),
    ensures
        run_end(bytes, from, class) == to,
    decreases to - from,
{
    if from < to {
        assert(in_class(class, bytes[from] as char));
        lemma_run_end_exact(bytes, from + 1, to, class);
    }
}

/// Whether the text of a token may end at `at`: the input ends there, or a
/// space or a closing parenthesis stands there.
pub open spec fn ends_at(bytes: Seq<u8>, at: int) -> bool {
    at == bytes.len() || (0 <= at < bytes.len() && (bytes[at] == 32 || bytes[at] == 41))
}

/// Whether `text` is a word that the scanner reads as an identifier: an
/// ASCII letter, then ASCII letters and digits, and no keyword.
pub open spec fn is_word(text: Seq<char>) -> bool {
    &&& text.len() > 0
    &&& alphabetic(text[0])
    &&& forall|i: int|
        0 <= i < text.len() ==> is_ascii_char(#[trigger] text[i]) && (alphabetic(text[i])
            || numeric(text[i]))
    &&& keyword_kind(text) == TokenType::IDENT
}

/// Whether `kind` is an arithmetic or a comparison operator.
pub open spec fn is_operator(kind: TokenType) -> bool {
    crate::semantics::is_arithmetic(kind) || crate::semantics::is_comparison(kind)
}

/// The text of an operator.
pub open spec fn operator_text(kind: TokenType) -> Seq<char> {
    match kind {
        TokenType::PLUS => "+"@,
        TokenType::MINUS => "-"@,
        TokenType::ASTERICK => "*"@,
        TokenType::SLASH => "/"@,
        TokenType::EQ => "="@,
        TokenType::LT => "<"@,
        TokenType::LTEQ => "<="@,
        TokenType::GT => ">"@,
        _ => ">="@,
    }
}

/// Whether the text of `v` can be read back: `v` is made of lists,
/// numbers, booleans, identifiers that are words, and operators with their
/// own text.
pub open spec fn printable(v: Sexp) -> bool
    decreases v,
{
    match v {
        Sexp::Number(_) => true,
        Sexp::Bool(_) => true,
        Sexp::Atom(t) => (t.kind == TokenType::IDENT && is_word(t.literal)) || (is_operator(
            t.kind,
        ) && t.literal == operator_text(t.kind)),
        Sexp::List(items) => forall|i: int|
            0 <= i < items.len() ==> printable(#[trigger] items[i]),
        _ => false,
    }
}

/// The token that the scanner makes of the text of a number, a boolean or
/// an atom.
pub open spec fn leaf_token(v: Sexp) -> TokenView {
    match v {
        Sexp::Atom(t) => t,
        Sexp::Bool(b) => if b {
            tok("#t"@, TokenType::TRUE)
        } else {
            tok("#f"@, TokenType::FALSE)
        },
        Sexp::Number(n) => tok(int_text(n as int), TokenType::INT),
        _ => tok(Seq::empty(), TokenType::ILLEGAL),
    }
}

/// The decimal text of an integer is not empty and is made of ASCII
/// digits, after a minus sign when the integer is negative.
pub proof fn lemma_int_text_shape(x: int)
    ensures
        int_text(x).len() > 0,
        is_ascii_chars(int_text(x)),
        x >= 0 ==> all_digits(int_text(x)),
        x < 0 ==> int_text(x).len() > 1 && int_text(x)[0] == '-' && all_digits(
            int_text(x).subrange(1, int_text(x).len() as int),
        ),
{
    let magnitude: nat = if x < 0 {
        (-x) as nat
    } else {
        x as nat
    };
    lemma_digits_of(magnitude);
    let body = nat_text(magnitude);
    assert(all_digits(body) && body.len() > 0);
    if x < 0 {
        assert(int_text(x).subrange(1, int_text(x).len() as int) =~= body);
        assert forall|i: int| 0 <= i < int_text(x).len() implies '\0' <= #[trigger] int_text(
            x,
        )[i] <= '\u{7f}' by {
            if i > 0 {
                assert(int_text(x)[i] == body[i - 1]);
                assert(is_digit(body[i - 1]));
            }
        }
    } else {
        assert(int_text(x) == body);
        assert forall|i: int| 0 <= i < body.len() implies '\0' <= #[trigger] body[i]
            <= '\u{7f}' by {
            assert(is_digit(body[i]));
        }
    }
}

/// The scanner reads a number back from its decimal text.
pub proof fn lemma_scan_number(bytes: Seq<u8>, at: int, n: i64)
    requires
        spells(bytes, at, int_text(n as int)),
        ends_at(bytes, at + int_text(n as int).len()),
    ensures
        scan_at(bytes, at) == Ok::<(TokenView, int), crate::lexer::LexerErrorView>(
            (tok(int_text(n as int), TokenType::INT), at + int_text(n as int).len()),
        ),
        !char_is_whitespace(bytes[at] as char),
{
    let text = int_text(n as int);
    let end = at + text.len();
    lemma_int_text_shape(n as int);
    lemma_span_of_ascii(bytes, at, text);
    assert(bytes[at] as char == text[0]);
    assert forall|i: int| at + 1 <= i < end implies in_class(
        CharClass::Numeric,
        #[trigger] bytes[i] as char,
    ) by {
        assert(bytes[at + (i - at)] as char == text[i - at]);
        if n < 0 {
            assert(text.subrange(1, text.len() as int)[i - at - 1] == text[i - at]);
            assert(is_digit(text.subrange(1, text.len() as int)[i - at - 1]));
        } else {
            assert(is_digit(text[i - at]));
        }
    }
    lemma_run_end_exact(bytes, at + 1, end, CharClass::Numeric);
    assert(scan_number(bytes, at) == Ok::<(TokenView, int), crate::lexer::LexerErrorView>(
        (tok(text, TokenType::INT), end),
    ));
    if n < 0 {
        assert(text[1] == text.subrange(1, text.len() as int)[0]);
        assert(is_digit(text[1]));
        assert(bytes[at + 1] as char == text[1]);
        assert(peek_char(bytes, at) == text[1]);
    } else {
        assert(is_digit(text[0]));
    }
}

/// The scanner reads a word back as an identifier.
pub proof fn lemma_scan_word(bytes: Seq<u8>, at: int, word: Seq<char>)
    requires
        is_word(word),
        spells(bytes, at, word),
        ends_at(bytes, at + word.len()),
    ensures
        scan_at(bytes, at) == Ok::<(TokenView, int), crate::lexer::LexerErrorView>(
            (tok(word, TokenType::IDENT), at + word.len()),
        ),
        !char_is_whitespace(bytes[at] as char),
{
    let end = at + word.len();
    assert(is_ascii_chars(word)) by {
        assert forall|i: int| 0 <= i < word.len() implies '\0' <= #[trigger] word[i]
            <= '\u{7f}' by {
            assert(is_ascii_char(word[i]));
        }
    }
    lemma_span_of_ascii(bytes, at, word);
    assert(bytes[at] as char == word[0]);
    assert forall|i: int| at <= i < end implies in_class(
        CharClass::Alphanumeric,
        #[trigger] bytes[i] as char,
    ) by {
        assert(bytes[at + (i - at)] as char == word[i - at]);
        assert(is_ascii_char(word[i - at]));
    }
    lemma_run_end_exact(bytes, at, end, CharClass::Alphanumeric);
    assert(is_ascii_char(word[0]));
}

/// The scanner reads an operator back from its text.
pub proof fn lemma_scan_operator(bytes: Seq<u8>, at: int, kind: TokenType)
    requires
        is_operator(kind),
        spells(bytes, at, operator_text(kind)),
        ends_at(bytes, at + operator_text(kind).len()),
    ensures
        scan_at(bytes, at) == Ok::<(TokenView, int), crate::lexer::LexerErrorView>(
            (tok(operator_text(kind), kind), at + operator_text(kind).len()),
        ),
        operator_text(kind).len() > 0,
        !char_is_whitespace(bytes[at] as char),
{
    reveal_strlit("+");
    reveal_strlit("-");
    reveal_strlit("*");
    reveal_strlit("/");
    reveal_strlit("=");
    reveal_strlit("<");
    reveal_strlit("<=");
    reveal_strlit(">");
    reveal_strlit(">=");
    let text = operator_text(kind);
    assert(bytes[at + 0] as char == text[0]);
    if text.len() == 2 {
        assert(bytes[at + 1] as char == text[1]);
    }
}

/// The scanner reads a boolean back from its text.
pub proof fn lemma_scan_bool(bytes: Seq<u8>, at: int, b: bool)
    requires
        spells(bytes, at, bare(Sexp::Bool(b))),
        ends_at(bytes, at + 2),
    ensures
        scan_at(bytes, at) == Ok::<(TokenView, int), crate::lexer::LexerErrorView>(
            (leaf_token(Sexp::Bool(b)), at + 2),
        ),
        !char_is_whitespace(bytes[at] as char),
{
    let text = bare(Sexp::Bool(b));
    assert(bytes[at + 0] as char == text[0]);
    assert(bytes[at + 1] as char == text[1]);
}

/// The scanner reads a number, a boolean, an identifier or an operator
/// back from its text: it gives the token of that text and stops behind
/// it.
pub proof fn lemma_scan_leaf(bytes: Seq<u8>, at: int, v: Sexp)
    requires
        printable(v),
        !(v is List),
        spells(bytes, at, bare(v)),
        ends_at(bytes, at + bare(v).len()),
    ensures
        scan_at(bytes, at) == Ok::<(TokenView, int), crate::lexer::LexerErrorView>(
            (leaf_token(v), at + bare(v).len()),
        ),
        bare(v).len() > 0,
        !char_is_whitespace(bytes[at] as char),
{
    match v {
        Sexp::Number(n) => {
            lemma_int_text_shape(n as int);
            lemma_scan_number(bytes, at, n);
        },
        Sexp::Bool(b) => {
            lemma_scan_bool(bytes, at, b);
        },
        Sexp::Atom(t) => {
            if t.kind == TokenType::IDENT && is_word(t.literal) {
                lemma_scan_word(bytes, at, t.literal);
            } else {
                lemma_scan_operator(bytes, at, t.kind);
            }
        },
        _ => {},
    }
}

/// Whether `c` is a character of rendered lists of numbers, booleans,
/// words and operators.
pub open spec fn plain_char(c: char) -> bool {
    ||| c == ' '
    ||| c == '('
    ||| c == ')'
    ||| c == '#'
    ||| c == '+'
    ||| c == '-'
    ||| c == '*'
    ||| c == '/'
    ||| c == '='
    ||| c == '<'
    ||| c == '>'
    ||| (is_ascii_char(c) && (alphabetic(c) || numeric(c)))
}

/// Whether every byte of `bytes` is a plain character.
pub open spec fn plain(bytes: Seq<u8>) -> bool {
    forall|i: int| 0 <= i < bytes.len() ==> plain_char(#[trigger] bytes[i] as char)
}

/// A run stops at a character outside its class, if it stops inside the
/// input.
pub proof fn lemma_run_end_stops(bytes: Seq<u8>, pos: int, class: CharClass)
    requires
        0 <= pos,
    ensures
        run_end(bytes, pos, class) < bytes.len() ==> !in_class(
            class,
            bytes[run_end(bytes, pos, class)] as char,
        ),
    decreases bytes.len() - pos,
{
    if pos < bytes.len() && in_class(class, bytes[pos] as char) {
        lemma_run_end_stops(bytes, pos + 1, class);
    }
}

/// Any stretch of plain bytes is the UTF-8 text of some characters.
pub proof fn lemma_plain_span(bytes: Seq<u8>, from: int, to: int)
    requires
        plain(bytes),
        0 <= from <= to <= bytes.len(),
    ensures
        span_text(bytes, from, to) is Ok,
{
    let text = Seq::new((to - from) as nat, |i: int| bytes[from + i] as char);
    assert forall|i: int| 0 <= i < text.len() implies '\0' <= #[trigger] text[i] <= '\u{7f}' by {
        assert(plain_char(bytes[from + i] as char));
    }
    lemma_span_of_ascii(bytes, from, text);
}

/// On plain bytes the scanner never fails.
pub proof fn lemma_scan_plain(bytes: Seq<u8>, pos: int)
    requires
        plain(bytes),
        0 <= pos,
    ensures
        scan(bytes, pos) is Ok,
{
    lemma_run_end_bounds(bytes, pos, CharClass::Whitespace);
    lemma_run_end_stops(bytes, pos, CharClass::Whitespace);
    let p = run_end(bytes, pos, CharClass::Whitespace);
    if p < bytes.len() {
        assert(plain_char(bytes[p] as char));
        lemma_run_end_bounds(bytes, p, CharClass::Alphanumeric);
        lemma_run_end_bounds(bytes, p + 1, CharClass::Numeric);
        lemma_plain_span(bytes, p, run_end(bytes, p, CharClass::Alphanumeric));
        lemma_plain_span(bytes, p, run_end(bytes, p + 1, CharClass::Numeric));
    }
}

/// The parser whose current token is the one that the scanner finds at
/// `at`, with the token after it as lookahead.
pub open spec fn state_at(bytes: Seq<u8>, at: int) -> ParserView {
    let first = scan(bytes, at)->Ok_0;
    let second = scan(bytes, first.1)->Ok_0;
    ParserView { bytes, pos: second.1 as nat, cur: first.0, peek: second.0 }
}

/// One token on from the parser at `at` is the parser at the end of the
/// token found there.
pub proof fn lemma_advance_state(bytes: Seq<u8>, at: int)
    requires
        plain(bytes),
        0 <= at,
    ensures
        advance(state_at(bytes, at)) == Ok::<ParserView, crate::parser::ParseErrorView>(
            state_at(bytes, scan(bytes, at)->Ok_0.1),
        ),
{
    lemma_scan_plain(bytes, at);
    lemma_scan_consumes(bytes, at);
    let first_end = scan(bytes, at)->Ok_0.1;
    lemma_scan_plain(bytes, first_end);
    lemma_scan_consumes(bytes, first_end);
    let second_end = scan(bytes, first_end)->Ok_0.1;
    lemma_scan_plain(bytes, second_end);
    lemma_scan_consumes(bytes, second_end);
}

/// The scanner passes over one space before a token.
pub proof fn lemma_scan_skips(bytes: Seq<u8>, from: int, at: int)
    requires
        0 <= from,
        at < bytes.len(),
        at == from || (at == from + 1 && bytes[from] == 32),
        !char_is_whitespace(bytes[at] as char),
    ensures
        scan(bytes, from) == scan_at(bytes, at),
{
    reveal_with_fuel(run_end, 3);
}

/// The joined texts of the first `k` elements are the start of the joined
/// texts of the first `n`, for `k <= n`.
pub proof fn lemma_joined_prefix(items: Seq<Sexp>, k: nat, n: nat)
    requires
        k <= n <= items.len(),
    ensures
        joined(items, k).len() <= joined(items, n).len(),
        forall|i: int|
            0 <= i < joined(items, k).len() ==> joined(items, n)[i] == joined(items, k)[i],
    decreases n - k,
{
    if k < n {
        lemma_joined_prefix(items, k, (n - 1) as nat);
    }
}

/// Where the text of the element at index `k` starts in the joined texts:
/// at the start for the first element, and one space behind the elements
/// before it for any other.
pub open spec fn item_start(items: Seq<Sexp>, k: nat) -> int {
    if k == 0 {
        0
    } else {
        joined(items, k).len() as int + 1
    }
}

/// The element at index `k` stands in the joined texts at its start, with
/// a space before it unless it is the first, and the joined texts of the
/// first `k + 1` elements end where it ends.
pub proof fn lemma_item_in_joined(items: Seq<Sexp>, k: nat)
    requires
        k < items.len(),
    ensures
        joined(items, k + 1).len() == item_start(items, k) + bare(items[k as int]).len(),
        joined(items, k + 1).len() <= joined(items, items.len()).len(),
        forall|i: int|
            0 <= i < bare(items[k as int]).len() ==> joined(items, items.len())[item_start(
                items,
                k,
            ) + i] == bare(items[k as int])[i],
        k > 0 ==> joined(items, items.len())[joined(items, k).len() as int] == ' ',
{
    lemma_joined_prefix(items, k + 1, items.len());
    let piece = bare(items[k as int]);
    assert forall|i: int| 0 <= i < piece.len() implies joined(items, items.len())[item_start(
        items,
        k,
    ) + i] == piece[i] by {
        assert(joined(items, k + 1)[item_start(items, k) + i] == piece[i]);
    }
    if k > 0 {
        assert(joined(items, k + 1)[joined(items, k).len() as int] == ' ');
    }
}

/// The parser reads a number, a boolean, an identifier or an operator back
/// from its text.
pub proof fn lemma_parse_leaf(bytes: Seq<u8>, from: int, at: int, v: Sexp)
    requires
        plain(bytes),
        printable(v),
        !(v is List),
        0 <= from,
        at == from || (at == from + 1 && bytes[from] == 32),
        spells(bytes, at, bare(v)),
        ends_at(bytes, at + bare(v).len()),
    ensures
        parse_val(state_at(bytes, from)) == Ok::<
            (Sexp, ParserView),
            crate::parser::ParseErrorView,
        >((v, state_at(bytes, at + bare(v).len()))),
        state_at(bytes, from).cur.kind != TokenType::RPAREN,
        state_at(bytes, from).cur.kind != TokenType::EOF,
{
    let st = state_at(bytes, from);
    let next = state_at(bytes, at + bare(v).len());
    assert(st.cur == leaf_token(v) && advance(st) == Ok::<
        ParserView,
        crate::parser::ParseErrorView,
    >(next)) by {
        lemma_scan_leaf(bytes, at, v);
        lemma_scan_skips(bytes, from, at);
        lemma_advance_state(bytes, from);
    }
    match v {
        Sexp::Number(n) => {
            lemma_text_round_trip(n);
            assert(st.cur.kind == TokenType::INT);
            assert(int_of_text(st.cur.literal) == Some(n));
        },
        Sexp::Bool(b) => {
            assert(st.cur.kind == TokenType::TRUE || st.cur.kind == TokenType::FALSE);
            assert(literal(st.cur) == v);
        },
        Sexp::Atom(t) => {
            assert(st.cur == t);
            assert(crate::parser::is_symbol_kind(t.kind));
            assert(literal(t) == v);
        },
        _ => {},
    }
}

/// The parser reads a printable value back from its text. The text stands
/// at `at`, after at most one space from `from` on, and a space, a closing
/// parenthesis or the end of the input follows it. The parser whose
/// current token is found at `from` gives the value, and is then the
/// parser whose current token is found behind the text.
pub proof fn lemma_parse_printable(bytes: Seq<u8>, from: int, at: int, v: Sexp)
    requires
        plain(bytes),
        printable(v),
        0 <= from,
        at == from || (at == from + 1 && bytes[from] == 32),
        spells(bytes, at, bare(v)),
        ends_at(bytes, at + bare(v).len()),
    ensures
        parse_val(state_at(bytes, from)) == Ok::<
            (Sexp, ParserView),
            crate::parser::ParseErrorView,
        >((v, state_at(bytes, at + bare(v).len()))),
        state_at(bytes, from).cur.kind != TokenType::RPAREN,
        state_at(bytes, from).cur.kind != TokenType::EOF,
    decreases v, 0nat,
{
    match v {
        Sexp::List(items) => {
            let st = state_at(bytes, from);
            let body = joined(items, items.len());
            let text = bare(v);
            let close = at + 1 + body.len();
            let st1 = state_at(bytes, at + 1);
            let st2 = state_at(bytes, close);
            let st3 = state_at(bytes, close + 1);
            assert(text.len() == body.len() + 2);
            assert(st.cur.kind == TokenType::LPAREN && advance(st) == Ok::<
                ParserView,
                crate::parser::ParseErrorView,
            >(st1)) by {
                assert(bytes[at + 0] as char == text[0]);
                assert(bytes[at] == 40);
                lemma_scan_skips(bytes, from, at);
                lemma_advance_state(bytes, from);
            }
            assert(remaining(st1) < remaining(st)) by {
                lemma_advance_consumes(st);
            }
            assert(parse_items(st1, Seq::empty()) == Ok::<
                (Seq<Sexp>, ParserView),
                crate::parser::ParseErrorView,
            >((items, st2))) by {
                assert(joined(items, 0).len() == 0);
                assert(items.subrange(0, 0) =~= Seq::<Sexp>::empty());
                lemma_parse_items_printable(bytes, at, items, 0);
            }
            assert(advance(st2) == Ok::<ParserView, crate::parser::ParseErrorView>(st3)) by {
                assert(bytes[at + (body.len() + 1)] as char == text[body.len() as int + 1]);
                assert(bytes[close] == 41);
                lemma_scan_skips(bytes, close, close);
                lemma_advance_state(bytes, close);
            }
            assert(close + 1 == at + text.len());
        },
        _ => {
            lemma_parse_leaf(bytes, from, at, v);
        },
    }
}

/// The parser reads the elements of a printable list back from its text,
/// from the element at index `k` on.
pub proof fn lemma_parse_items_printable(bytes: Seq<u8>, open: int, items: Seq<Sexp>, k: nat)
    requires
        plain(bytes),
        printable(Sexp::List(items)),
        spells(bytes, open, bare(Sexp::List(items))),
        k <= items.len(),
    ensures
        parse_items(
            state_at(bytes, open + 1 + joined(items, k).len()),
            items.subrange(0, k as int),
        ) == Ok::<(Seq<Sexp>, ParserView), crate::parser::ParseErrorView>(
            (items, state_at(bytes, open + 1 + joined(items, items.len()).len())),
        ),
    decreases items, items.len() - k,
{
    let body = joined(items, items.len());
    let text = bare(Sexp::List(items));
    let close = open + 1 + body.len();
    let here = open + 1 + joined(items, k).len();
    let st = state_at(bytes, here);
    assert(text.len() == body.len() + 2);
    assert(forall|i: int| 0 <= i < body.len() ==> text[i + 1] == body[i]);
    if k == items.len() {
        assert(bytes[open + (body.len() + 1)] as char == text[body.len() as int + 1]);
        assert(bytes[close] == 41);
        lemma_scan_skips(bytes, close, close);
        assert(st.cur.kind == TokenType::RPAREN);
        assert(items.subrange(0, k as int) =~= items);
    } else {
        let item = items[k as int];
        lemma_item_in_joined(items, k);
        let at = open + 1 + item_start(items, k);
        let end = at + bare(item).len();
        assert(end == open + 1 + joined(items, k + 1).len());
        assert(spells(bytes, at, bare(item))) by {
            assert forall|i: int| 0 <= i < bare(item).len() implies bytes[at + i] as char
                == #[trigger] bare(item)[i] by {
                let j = item_start(items, k) + i;
                assert(body[j] == bare(item)[i]);
                assert(bytes[open + (j + 1)] as char == text[j + 1]);
            }
        }
        if k > 0 {
            let j = joined(items, k).len() as int;
            assert(body[j] == ' ');
            assert(bytes[open + (j + 1)] as char == text[j + 1]);
            assert(bytes[here] == 32);
        }
        assert(ends_at(bytes, end)) by {
            if k + 1 < items.len() {
                lemma_item_in_joined(items, (k + 1) as nat);
                let j = joined(items, k + 1).len() as int;
                assert(body[j] == ' ');
                assert(bytes[open + (j + 1)] as char == text[j + 1]);
                assert(bytes[end] == 32);
            } else {
                assert(bytes[open + (body.len() + 1)] as char == text[body.len() as int + 1]);
                assert(bytes[end] == 41);
            }
        }
        assert(printable(item));
        lemma_parse_printable(bytes, here, at, item);
        lemma_parse_val_consumes(st);
        lemma_parse_items_printable(bytes, open, items, k + 1);
        assert(items.subrange(0, k as int).push(item) =~= items.subrange(0, k as int + 1));
    }
}

/// Whether every character of `text` is plain.
pub open spec fn plain_text(text: Seq<char>) -> bool {
    forall|i: int| 0 <= i < text.len() ==> plain_char(#[trigger] text[i])
}

/// The text of a printable value is made of plain characters.
pub proof fn lemma_bare_plain(v: Sexp)
    requires
        printable(v),
    ensures
        plain_text(bare(v)),
    decreases v, 0nat,
{
    match v {
        Sexp::Number(n) => {
            lemma_int_text_shape(n as int);
            let text = int_text(n as int);
            assert forall|i: int| 0 <= i < text.len() implies plain_char(#[trigger] text[i]) by {
                if n < 0 {
                    if i > 0 {
                        assert(text.subrange(1, text.len() as int)[i - 1] == text[i]);
                        assert(is_digit(text.subrange(1, text.len() as int)[i - 1]));
                    }
                } else {
                    assert(is_digit(text[i]));
                }
            }
        },
        Sexp::Bool(b) => {},
        Sexp::Atom(t) => {
            reveal_strlit("+");
            reveal_strlit("-");
            reveal_strlit("*");
            reveal_strlit("/");
            reveal_strlit("=");
            reveal_strlit("<");
            reveal_strlit("<=");
            reveal_strlit(">");
            reveal_strlit(">=");
        },
        Sexp::List(items) => {
            lemma_joined_plain(items, items.len());
        },
        _ => {},
    }
}

/// The joined texts of printable values are made of plain characters.
pub proof fn lemma_joined_plain(items: Seq<Sexp>, n: nat)
    requires
        printable(Sexp::List(items)),
        n <= items.len(),
    ensures
        plain_text(joined(items, n)),
    decreases items, n,
{
    if n > 0 {
        let k = (n - 1) as int;
        let item = items[k];
        let whole = Sexp::List(items);
        assert(printable(whole));
        assert(whole->List_0 == items);
        assert(forall|i: int| 0 <= i < items.len() ==> printable(#[trigger] items[i]));
        assert(0 <= k < items.len());
        assert(printable(item));
        lemma_bare_plain(item);
        lemma_joined_plain(items, (n - 1) as nat);
        assert forall|i: int| 0 <= i < joined(items, n).len() implies plain_char(
            #[trigger] joined(items, n)[i],
        ) by {
            let before = joined(items, (n - 1) as nat);
            if n == 1 {
                assert(joined(items, n) == bare(items[0]));
            } else if i < before.len() {
                assert(joined(items, n)[i] == before[i]);
            } else if i == before.len() {
            } else {
                assert(joined(items, n)[i] == bare(item)[i - before.len() - 1]);
            }
        }
    }
}

/// The UTF-8 bytes of a plain text are plain and spell the text, one byte
/// for each character.
pub proof fn lemma_bytes_of_plain(text: Seq<char>)
    requires
        plain_text(text),
    ensures
        plain(encode_utf8(text)),
        encode_utf8(text).len() == text.len(),
        spells(encode_utf8(text), 0, text),
{
    assert(is_ascii_chars(text)) by {
        assert forall|i: int| 0 <= i < text.len() implies '\0' <= #[trigger] text[i]
            <= '\u{7f}' by {
            assert(plain_char(text[i]));
        }
    }
    is_ascii_chars_encode_utf8(text);
    let bytes = encode_utf8(text);
    assert forall|i: int| 0 <= i < bytes.len() implies bytes[i] as char == text[i] by {
        assert(text[i] as u8 == bytes[i]);
        assert(plain_char(text[i]));
    }
    assert forall|i: int| 0 <= i < bytes.len() implies plain_char(#[trigger] bytes[i] as char) by {
        assert(bytes[i] as char == text[i]);
    }
    assert forall|i: int| 0 <= i < text.len() implies bytes[0 + i] as char == #[trigger] text[
        i
    ] by {
        assert(bytes[i] as char == text[i]);
    }
}

/// The parser over plain bytes starts as the parser whose current token is
/// found at the start of the input.
pub proof fn lemma_start_state(bytes: Seq<u8>)
    requires
        plain(bytes),
    ensures
        start(bytes, 0) == Ok::<ParserView, crate::parser::ParseErrorView>(state_at(bytes, 0)),
{
    lemma_scan_plain(bytes, 0);
    lemma_scan_consumes(bytes, 0);
    let first_end = scan(bytes, 0)->Ok_0.1;
    lemma_scan_plain(bytes, first_end);
    lemma_scan_consumes(bytes, first_end);
}

/// The parser reads a printable value back from bytes that spell its text,
/// with or without one space behind it: the program is that value alone.
pub proof fn lemma_parse_text(bytes: Seq<u8>, v: Sexp)
    requires
        plain(bytes),
        printable(v),
        spells(bytes, 0, bare(v)),
        bytes.len() == bare(v).len() || (bytes.len() == bare(v).len() + 1 && bytes[bare(
            v,
        ).len() as int] == 32),
    ensures
        start(bytes, 0) == Ok::<ParserView, crate::parser::ParseErrorView>(state_at(bytes, 0)),
        parse_all(state_at(bytes, 0), Seq::empty()) == Ok::<
            Seq<Sexp>,
            crate::parser::ParseErrorView,
        >(seq![v]),
{
    let st = state_at(bytes, 0);
    let end = bare(v).len() as int;
    let st1 = state_at(bytes, end);
    lemma_start_state(bytes);
    lemma_parse_printable(bytes, 0, 0, v);
    lemma_parse_val_consumes(st);
    assert(st1.cur.kind == TokenType::EOF) by {
        reveal_with_fuel(run_end, 3);
    }
    assert(Seq::<Sexp>::empty().push(v) =~= seq![v]);
    assert(parse_all(st1, seq![v]) == Ok::<Seq<Sexp>, crate::parser::ParseErrorView>(seq![v]));
}

/// Rendering and reading back: the text of a printable value, as
/// [`render`] gives it or without its last space, parses to the program
/// that holds that value alone.
pub proof fn lemma_round_trip(v: Sexp)
    requires
        printable(v),
    ensures
        start(encode_utf8(render(v)), 0) matches Ok(st) && parse_all(st, Seq::empty()) == Ok::<
            Seq<Sexp>,
            crate::parser::ParseErrorView,
        >(seq![v]),
        start(encode_utf8(bare(v)), 0) matches Ok(st) && parse_all(st, Seq::empty()) == Ok::<
            Seq<Sexp>,
            crate::parser::ParseErrorView,
        >(seq![v]),
{
    lemma_bare_plain(v);
    let short = bare(v);
    lemma_bytes_of_plain(short);
    lemma_parse_text(encode_utf8(short), v);
    let long = render(v);
    assert(long == short + seq![' ']);
    assert(plain_text(long)) by {
        assert forall|i: int| 0 <= i < long.len() implies plain_char(#[trigger] long[i]) by {
            if i < short.len() {
                assert(long[i] == short[i]);
            }
        }
    }
    lemma_bytes_of_plain(long);
    let bytes = encode_utf8(long);
    assert(spells(bytes, 0, short)) by {
        assert forall|i: int| 0 <= i < short.len() implies bytes[0 + i] as char
            == #[trigger] short[i] by {
            assert(bytes[0 + i] as char == long[i]);
        }
    }
    assert(bytes[short.len() as int] == 32) by {
        assert(bytes[0 + short.len() as int] as char == long[short.len() as int]);
    }
    lemma_parse_text(bytes, v);
}

} // verus!
