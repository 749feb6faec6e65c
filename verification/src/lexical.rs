//! The lexical structure of TL source text, as mathematics.
//!
//! Source text is a sequence of characters. White space separates tokens and
//! is dropped, a comment runs from `//` to the end of its line and is dropped,
//! and everything else is cut into lexemes by longest match. Where two
//! categories match the same longest text, a reserved word wins over an
//! identifier, an identifier over a number, and a decimal number over a
//! hexadecimal one.

use crate::lexer::{TLTokenEnum, TokenView};
use crate::numbers::{is_digit_in, is_number};
use vstd::prelude::*;

verus! {

/// White space between tokens: space, tab, line feed, carriage return, form feed.
pub open spec fn is_space(c: char) -> bool {
    c == ' ' || c == '\t' || c == '\n' || c == '\r' || c == '\x0c'
}

pub open spec fn is_digit(c: char) -> bool {
    '0' <= c <= '9'
}

pub open spec fn is_lower(c: char) -> bool {
    'a' <= c <= 'z'
}

pub open spec fn is_upper(c: char) -> bool {
    'A' <= c <= 'Z'
}

pub open spec fn is_hex_digit(c: char) -> bool {
    is_digit(c) || 'a' <= c <= 'f' || 'A' <= c <= 'F'
}

/// A character that may follow the first one of an identifier.
pub open spec fn is_ident_char(c: char) -> bool {
    is_lower(c) || is_upper(c) || is_digit(c) || c == '_'
}

/// The sets of characters that a lexeme is extended over.
#[derive(Debug, Clone, Copy, PartialEq, Eq, Structural)]
pub enum CharClass {
    Digit,
    Hex,
    Ident,
    /// Anything but a line feed: the body of a comment.
    CommentBody,
}

pub open spec fn in_class(class: CharClass, c: char) -> bool {
    match class {
        CharClass::Digit => is_digit(c),
        CharClass::Hex => is_hex_digit(c),
        CharClass::Ident => is_ident_char(c),
        CharClass::CommentBody => c != '\n',
    }
}

/// The number of consecutive characters of `class` that `s` holds from `i` on.
pub open spec fn run(s: Seq<char>, i: int, class: CharClass) -> nat
    decreases s.len() - i,
{
    if 0 <= i < s.len() && in_class(class, s[i]) {
        1 + run(s, i + 1, class)
    } else {
        0
    }
}

/// The category of a symbol made of the one character `c`.
pub open spec fn symbol(c: char) -> Option<TLTokenEnum> {
    if c == '_' {
        Some(TLTokenEnum::UNDERLINE)
    } else if c == ':' {
        Some(TLTokenEnum::COLON)
    } else if c == ';' {
        Some(TLTokenEnum::SEMICOLON)
    } else if c == '(' {
        Some(TLTokenEnum::OPBR)
    } else if c == ')' {
        Some(TLTokenEnum::CLBR)
    } else if c == '[' {
        Some(TLTokenEnum::OPSBR)
    } else if c == ']' {
        Some(TLTokenEnum::CLSBR)
    } else if c == '{' {
        Some(TLTokenEnum::OPCBR)
    } else if c == '}' {
        Some(TLTokenEnum::CLSCBR)
    } else if c == '=' {
        Some(TLTokenEnum::EQ)
    } else if c == '#' {
        Some(TLTokenEnum::NUM)
    } else if c == '?' {
        Some(TLTokenEnum::QMARK)
    } else if c == '%' {
        Some(TLTokenEnum::PERCENT)
    } else if c == '+' {
        Some(TLTokenEnum::PLUS)
    } else if c == '<' {
        Some(TLTokenEnum::LESSTHAN)
    } else if c == '>' {
        Some(TLTokenEnum::GREATERTHAN)
    } else if c == ',' {
        Some(TLTokenEnum::COMA)
    } else if c == '.' {
        Some(TLTokenEnum::STOP)
    } else if c == '*' {
        Some(TLTokenEnum::MULT)
    } else if c == '!' {
        Some(TLTokenEnum::EXCLMARK)
    } else {
        None
    }
}

/// The category of a reserved word.
pub open spec fn keyword(text: Seq<char>) -> Option<TLTokenEnum> {
    if text == "Final"@ {
        Some(TLTokenEnum::FINAL)
    } else if text == "New"@ {
        Some(TLTokenEnum::NEW)
    } else if text == "Empty"@ {
        Some(TLTokenEnum::EMPTY)
    } else if text == "Types"@ {
        Some(TLTokenEnum::TYPES)
    } else if text == "Functions"@ {
        Some(TLTokenEnum::FUNCTIONS)
    } else {
        None
    }
}

/// The category of a word of two or more identifier characters that starts
/// with a letter: a reserved word, or an identifier of the case of its first letter.
pub open spec fn word_kind(text: Seq<char>) -> TLTokenEnum {
    match keyword(text) {
        Some(kind) => kind,
        None => if is_lower(text[0]) {
            TLTokenEnum::LCIDENT
        } else {
            TLTokenEnum::UCIDENT
        },
    }
}

/// Does a comment start at `i`?
pub open spec fn starts_comment(s: Seq<char>, i: int) -> bool {
    0 <= i && i + 1 < s.len() && s[i] == '/' && s[i + 1] == '/'
}

/// Does the separator `---` start at `i`?
pub open spec fn starts_separator(s: Seq<char>, i: int) -> bool {
    0 <= i && i + 2 < s.len() && s[i] == '-' && s[i + 1] == '-' && s[i + 2] == '-'
}

/// A lexeme: its category and the number of characters it spans.
pub struct Lexeme {
    pub kind: TLTokenEnum,
    pub len: nat,
}

/// The lexeme that starts at `i`, where `s[i]` is no white space.
///
/// Input that starts no lexeme of the language gives an error lexeme of one
/// character, so that every position is accounted for.
pub open spec fn lexeme_at(s: Seq<char>, i: int) -> Lexeme
    recommends
        0 <= i < s.len(),
{
    let c = s[i];
    if starts_comment(s, i) {
        Lexeme { kind: TLTokenEnum::COMMENT, len: 2 + run(s, i + 2, CharClass::CommentBody) }
    } else if starts_separator(s, i) {
        Lexeme { kind: TLTokenEnum::SEPARATOR, len: 3 }
    } else if symbol(c) is Some {
        Lexeme { kind: symbol(c)->0, len: 1 }
    } else if is_digit(c) {
        let decimal = 1 + run(s, i + 1, CharClass::Digit);
        let hex = 1 + run(s, i + 1, CharClass::Hex);
        if hex > decimal {
            Lexeme { kind: TLTokenEnum::HEXNUMBER, len: hex }
        } else {
            Lexeme { kind: TLTokenEnum::NUMBER, len: decimal }
        }
    } else if is_lower(c) || is_upper(c) {
        let word = 1 + run(s, i + 1, CharClass::Ident);
        if word >= 2 {
            Lexeme { kind: word_kind(s.subrange(i, i + word)), len: word }
        } else if is_hex_digit(c) {
            Lexeme { kind: TLTokenEnum::HEXNUMBER, len: 1 }
        } else {
            Lexeme { kind: TLTokenEnum::ERROR, len: 1 }
        }
    } else {
        Lexeme { kind: TLTokenEnum::ERROR, len: 1 }
    }
}

/// The tokens of `s` from position `i` on, comments and white space dropped.
pub open spec fn lex_from(s: Seq<char>, i: int) -> Seq<TokenView>
    decreases s.len() - i,
{
    if i < 0 || i >= s.len() {
        Seq::empty()
    } else if is_space(s[i]) {
        lex_from(s, i + 1)
    } else {
        proof {
            lemma_lexeme_bound(s, i);
        }
        let lexeme = lexeme_at(s, i);
        let end = i + lexeme.len;
        if lexeme.kind == TLTokenEnum::COMMENT {
            lex_from(s, end)
        } else {
            seq![TokenView { kind: lexeme.kind, text: s.subrange(i, end) }]
                + lex_from(s, end)
        }
    }
}

/// The tokens of the source text `s`.
pub open spec fn tokens_of(s: Seq<char>) -> Seq<TokenView> {
    lex_from(s, 0)
}

/// A run ends inside the text.
pub proof fn lemma_run_bound(s: Seq<char>, i: int, class: CharClass)
    requires
        0 <= i <= s.len(),
    ensures
        i + run(s, i, class) <= s.len(),
        forall|k: int| i <= k < i + run(s, i, class) ==> in_class(class, #[trigger] s[k]),
        i + run(s, i, class) < s.len() ==> !in_class(class, s[i + run(s, i, class)]),
    decreases s.len() - i,
{
    if i < s.len() && in_class(class, s[i]) {
        lemma_run_bound(s, i + 1, class);
    }
}

/// A lexeme has at least one character and ends inside the text.
pub proof fn lemma_lexeme_bound(s: Seq<char>, i: int)
    requires
        0 <= i < s.len(),
    ensures
        1 <= lexeme_at(s, i).len,
        i + lexeme_at(s, i).len <= s.len(),
{
    lemma_run_bound(s, i + 1, CharClass::Digit);
    lemma_run_bound(s, i + 1, CharClass::Hex);
    lemma_run_bound(s, i + 1, CharClass::Ident);
    if starts_comment(s, i) {
        lemma_run_bound(s, i + 2, CharClass::CommentBody);
    }
}

/// The text of `s` from `i` on that is neither white space nor comment.
pub open spec fn significant(s: Seq<char>, i: int) -> Seq<char>
    decreases s.len() - i,
{
    if i < 0 || i >= s.len() {
        Seq::empty()
    } else if is_space(s[i]) {
        significant(s, i + 1)
    } else if starts_comment(s, i) {
        proof {
            lemma_run_bound(s, i + 2, CharClass::CommentBody);
        }
        significant(s, i + 2 + run(s, i + 2, CharClass::CommentBody))
    } else {
        seq![s[i]] + significant(s, i + 1)
    }
}

/// The texts of `tokens`, one after the other.
pub open spec fn texts(tokens: Seq<TokenView>) -> Seq<char>
    decreases tokens.len(),
{
    if tokens.len() == 0 {
        Seq::empty()
    } else {
        tokens[0].text + texts(tokens.drop_first())
    }
}

/// A stretch of text without white space and without the start of a
/// comment is significant as a whole.
proof fn lemma_significant_stretch(s: Seq<char>, i: int, n: nat)
    requires
        0 <= i,
        i + n <= s.len(),
        forall|k: int| i <= k < i + n ==> !is_space(#[trigger] s[k]) && !starts_comment(s, k),
    ensures
        significant(s, i) == s.subrange(i, i + n) + significant(s, i + n),
    decreases n,
{
    if n == 0 {
        assert(s.subrange(i, i) + significant(s, i) =~= significant(s, i));
    } else {
        lemma_significant_stretch(s, i + 1, (n - 1) as nat);
        assert(!is_space(s[i]) && !starts_comment(s, i));
        assert(seq![s[i]] + (s.subrange(i + 1, i + n) + significant(s, i + n)) =~= s.subrange(
            i,
            i + n,
        ) + significant(s, i + n));
    }
}

/// A lexeme that is no comment holds no white space and no start of a comment.
proof fn lemma_lexeme_is_significant(s: Seq<char>, i: int)
    requires
        0 <= i < s.len(),
        !is_space(s[i]),
        lexeme_at(s, i).kind != TLTokenEnum::COMMENT,
    ensures
        forall|k: int|
            i <= k < i + lexeme_at(s, i).len ==> !is_space(#[trigger] s[k]) && !starts_comment(
                s,
                k,
            ),
{
    lemma_run_bound(s, i + 1, CharClass::Digit);
    lemma_run_bound(s, i + 1, CharClass::Hex);
    lemma_run_bound(s, i + 1, CharClass::Ident);
}

/// The texts of the tokens of `s` from `i` on, put together, are the
/// significant text of `s` from `i` on.
pub proof fn lemma_texts_from(s: Seq<char>, i: int)
    requires
        0 <= i <= s.len(),
    ensures
        texts(lex_from(s, i)) == significant(s, i),
    decreases s.len() - i,
{
    if i >= s.len() {
    } else if is_space(s[i]) {
        lemma_texts_from(s, i + 1);
    } else {
        lemma_lexeme_bound(s, i);
        let lexeme = lexeme_at(s, i);
        let end = i + lexeme.len;
        lemma_texts_from(s, end);
        if lexeme.kind == TLTokenEnum::COMMENT {
        } else {
            let token = TokenView { kind: lexeme.kind, text: s.subrange(i, end) };
            assert((seq![token] + lex_from(s, end)).drop_first() =~= lex_from(s, end));
            lemma_lexeme_is_significant(s, i);
            lemma_significant_stretch(s, i, lexeme.len);
        }
    }
}

/// Lexing loses nothing but comments and white space: the texts of the
/// tokens of a source, put together in order, are the source without its
/// comments and white space. This holds of every source, also of one with
/// text that starts no token.
pub proof fn lemma_tokens_cover_source(s: Seq<char>)
    ensures
        texts(tokens_of(s)) == significant(s, 0),
{
    lemma_texts_from(s, 0);
}

/// Is the text of `token` one that its category stands for, and no other?
///
/// A decimal number is made of decimal digits. A hexadecimal number is made
/// of hexadecimal digits and is neither a decimal number nor an
/// identifier: it is one letter, or starts with a digit and holds a
/// letter. An identifier is a letter of its case and one or more
/// identifier characters and is no reserved word. A reserved word or
/// symbol has its own spelling, and an error token holds one character
/// that starts no token. Comments and the end marker are no tokens.
pub open spec fn fits(token: TokenView) -> bool {
    let text = token.text;
    match token.kind {
        TLTokenEnum::NUMBER => is_number(text, 10),
        TLTokenEnum::HEXNUMBER => is_number(text, 16) && if is_digit(text[0]) {
            exists|j: int| 0 <= j < text.len() && !is_digit(#[trigger] text[j])
        } else {
            text.len() == 1
        },
        TLTokenEnum::LCIDENT => is_word(text) && is_lower(text[0]) && keyword(text) is None,
        TLTokenEnum::UCIDENT => is_word(text) && is_upper(text[0]) && keyword(text) is None,
        TLTokenEnum::FINAL | TLTokenEnum::NEW | TLTokenEnum::EMPTY | TLTokenEnum::TYPES
        | TLTokenEnum::FUNCTIONS => keyword(text) == Some(token.kind),
        TLTokenEnum::SEPARATOR => text == seq!['-', '-', '-'],
        TLTokenEnum::ERROR => text.len() == 1 && starts_nothing(text[0]),
        TLTokenEnum::COMMENT | TLTokenEnum::END => false,
        _ => text.len() == 1 && symbol(text[0]) == Some(token.kind),
    }
}

/// Is `c` a character that, alone, starts no token and is no white space?
pub open spec fn starts_nothing(c: char) -> bool {
    !is_space(c) && symbol(c) is None && !is_hex_digit(c)
}

/// Is `text` two or more identifier characters?
pub open spec fn is_word(text: Seq<char>) -> bool {
    text.len() >= 2 && forall|i: int| 0 <= i < text.len() ==> is_ident_char(#[trigger] text[i])
}

/// The text of a lexeme that is no comment fits its category.
proof fn lemma_lexeme_fits(s: Seq<char>, i: int)
    requires
        0 <= i < s.len(),
        !is_space(s[i]),
        lexeme_at(s, i).kind != TLTokenEnum::COMMENT,
    ensures
        i + lexeme_at(s, i).len <= s.len(),
        fits(TokenView { kind: lexeme_at(s, i).kind, text: s.subrange(i, i + lexeme_at(s, i).len) }),
{
    lemma_lexeme_bound(s, i);
    lemma_run_bound(s, i + 1, CharClass::Digit);
    lemma_run_bound(s, i + 1, CharClass::Hex);
    lemma_run_bound(s, i + 1, CharClass::Ident);
    let lexeme = lexeme_at(s, i);
    let text = s.subrange(i, i + lexeme.len);
    let c = s[i];
    assert(text[0] == c);
    if starts_separator(s, i) {
        assert(text =~= seq!['-', '-', '-']);
    } else if symbol(c) is Some {
    } else if is_digit(c) {
        assert forall|j: int| 0 <= j < text.len() implies is_digit_in(#[trigger] text[j], 16) by {
            assert(text[j] == s[i + j]);
            if j > 0 {
                assert(in_class(CharClass::Hex, s[i + j]) || in_class(CharClass::Digit, s[i + j]));
            }
        }
        if lexeme.kind == TLTokenEnum::NUMBER {
            assert forall|j: int| 0 <= j < text.len() implies is_digit_in(
                #[trigger] text[j],
                10,
            ) by {
                assert(text[j] == s[i + j]);
                if j > 0 {
                    assert(in_class(CharClass::Digit, s[i + j]));
                }
            }
        } else {
            let decimal = 1 + run(s, i + 1, CharClass::Digit);
            assert(!in_class(CharClass::Digit, s[i + decimal]));
            assert(!is_digit(text[decimal as int]));
        }
    } else if is_lower(c) || is_upper(c) {
        if lexeme.len >= 2 {
            assert forall|j: int| 0 <= j < text.len() implies is_ident_char(#[trigger] text[j]) by {
                assert(text[j] == s[i + j]);
                if j > 0 {
                    assert(in_class(CharClass::Ident, s[i + j]));
                }
            }
        } else if is_hex_digit(c) {
            assert(is_digit_in(text[0], 16));
        }
    }
}

/// Every token of a source fits its category: lexing gives no comment and
/// no end marker, no empty text, and no text under a category that does
/// not stand for it.
pub proof fn lemma_tokens_fit(s: Seq<char>, i: int, k: int)
    requires
        0 <= i <= s.len(),
        0 <= k < lex_from(s, i).len(),
    ensures
        fits(lex_from(s, i)[k]),
    decreases s.len() - i,
{
    if i >= s.len() {
    } else if is_space(s[i]) {
        lemma_tokens_fit(s, i + 1, k);
    } else {
        lemma_lexeme_bound(s, i);
        let lexeme = lexeme_at(s, i);
        let end = i + lexeme.len;
        if lexeme.kind == TLTokenEnum::COMMENT {
            lemma_tokens_fit(s, end, k);
        } else if k > 0 {
            lemma_tokens_fit(s, end, k - 1);
        } else {
            lemma_lexeme_fits(s, i);
        }
    }
}

/// The texts of `tokens`, each followed by one space.
pub open spec fn rendered(tokens: Seq<TokenView>) -> Seq<char>
    decreases tokens.len(),
{
    if tokens.len() == 0 {
        Seq::empty()
    } else {
        tokens[0].text + seq![' '] + rendered(tokens.drop_first())
    }
}

/// A run does not depend on the text before it.
proof fn lemma_run_shift(before: Seq<char>, s: Seq<char>, i: int, class: CharClass)
    requires
        0 <= i,
    ensures
        run(before + s, before.len() + i, class) == run(s, i, class),
    decreases s.len() - i,
{
    if i < s.len() {
        assert((before + s)[before.len() + i] == s[i]);
        if in_class(class, s[i]) {
            lemma_run_shift(before, s, i + 1, class);
        }
    }
}

/// A lexeme does not depend on the text before it.
proof fn lemma_lexeme_shift(before: Seq<char>, s: Seq<char>, i: int)
    requires
        0 <= i < s.len(),
    ensures
        lexeme_at(before + s, before.len() + i) == lexeme_at(s, i),
{
    let whole = before + s;
    let at = before.len() + i;
    assert(whole[at] == s[i]);
    if i + 1 < s.len() {
        assert(whole[at + 1] == s[i + 1]);
    }
    if i + 2 < s.len() {
        assert(whole[at + 2] == s[i + 2]);
    }
    lemma_run_shift(before, s, i + 1, CharClass::Digit);
    lemma_run_shift(before, s, i + 1, CharClass::Hex);
    lemma_run_shift(before, s, i + 1, CharClass::Ident);
    lemma_run_shift(before, s, i + 2, CharClass::CommentBody);
    lemma_run_bound(s, i + 1, CharClass::Ident);
    let word = 1 + run(s, i + 1, CharClass::Ident);
    assert(whole.subrange(at, at + word) =~= s.subrange(i, i + word));
}

/// The tokens of a text do not depend on the text before it.
proof fn lemma_lex_shift(before: Seq<char>, s: Seq<char>, i: int)
    requires
        0 <= i <= s.len(),
    ensures
        lex_from(before + s, before.len() + i) == lex_from(s, i),
    decreases s.len() - i,
{
    let whole = before + s;
    let at = before.len() + i;
    if i < s.len() {
        assert(whole[at] == s[i]);
        if is_space(s[i]) {
            lemma_lex_shift(before, s, i + 1);
        } else {
            lemma_lexeme_shift(before, s, i);
            lemma_lexeme_bound(s, i);
            let n = lexeme_at(s, i).len;
            lemma_lex_shift(before, s, i + n);
            assert(whole.subrange(at, at + n) =~= s.subrange(i, i + n));
        }
    }
}

/// A stretch of characters of a class that ends before a character of
/// another class, or at the end, is a run.
proof fn lemma_run_exact(s: Seq<char>, i: int, n: nat, class: CharClass)
    requires
        0 <= i,
        i + n <= s.len(),
        forall|j: int| i <= j < i + n ==> in_class(class, #[trigger] s[j]),
        i + n < s.len() ==> !in_class(class, s[i + n]),
    ensures
        run(s, i, class) == n,
    decreases n,
{
    if n > 0 {
        assert(in_class(class, s[i]));
        lemma_run_exact(s, i + 1, (n - 1) as nat, class);
    }
}

/// The lexeme at the start of a token's text that a space follows is the token.
proof fn lemma_lexeme_of_rendered(token: TokenView, after: Seq<char>)
    requires
        fits(token),
    ensures
        token.text.len() >= 1,
        !is_space(token.text[0]),
        lexeme_at(token.text + seq![' '] + after, 0) == (Lexeme {
            kind: token.kind,
            len: token.text.len(),
        }),
{
    reveal_strlit("Final");
    reveal_strlit("New");
    reveal_strlit("Empty");
    reveal_strlit("Types");
    reveal_strlit("Functions");
    let text = token.text;
    let s = text + seq![' '] + after;
    let n = text.len();
    assert(n >= 1);
    assert(s[n as int] == ' ');
    assert forall|j: int| 0 <= j < n implies s[j] == text[j] by {}
    assert(s.subrange(0, n as int) =~= text);
    let tail = (n - 1) as nat;
    match token.kind {
        TLTokenEnum::NUMBER => {
            assert(is_digit_in(text[0], 10));
            assert forall|j: int| 1 <= j < 1 + tail implies in_class(
                CharClass::Digit,
                #[trigger] s[j],
            ) && in_class(CharClass::Hex, s[j]) by {
                assert(is_digit_in(text[j], 10));
            }
            lemma_run_exact(s, 1, tail, CharClass::Digit);
            lemma_run_exact(s, 1, tail, CharClass::Hex);
        },
        TLTokenEnum::HEXNUMBER => {
            assert(is_digit_in(text[0], 16));
            if is_digit(text[0]) {
                assert forall|j: int| 1 <= j < 1 + tail implies in_class(
                    CharClass::Hex,
                    #[trigger] s[j],
                ) by {
                    assert(is_digit_in(text[j], 16));
                }
                lemma_run_exact(s, 1, tail, CharClass::Hex);
                let j = choose|j: int| 0 <= j < text.len() && !is_digit(#[trigger] text[j]);
                lemma_run_bound(s, 1, CharClass::Digit);
                if run(s, 1, CharClass::Digit) >= tail {
                    assert(in_class(CharClass::Digit, s[j]));
                }
            } else {
                lemma_run_exact(s, 1, 0, CharClass::Ident);
            }
        },
        TLTokenEnum::LCIDENT | TLTokenEnum::UCIDENT | TLTokenEnum::FINAL | TLTokenEnum::NEW
        | TLTokenEnum::EMPTY | TLTokenEnum::TYPES | TLTokenEnum::FUNCTIONS => {
            assert forall|j: int| 1 <= j < 1 + tail implies in_class(
                CharClass::Ident,
                #[trigger] s[j],
            ) by {
                assert(is_ident_char(text[j]));
            }
            lemma_run_exact(s, 1, tail, CharClass::Ident);
        },
        TLTokenEnum::SEPARATOR => {},
        TLTokenEnum::ERROR => {
            lemma_run_exact(s, 1, 0, CharClass::Ident);
        },
        _ => {},
    }
}

/// The tokens of a token's text, a space and more text are the token and
/// the tokens of the text after the space.
proof fn lemma_lex_of_rendered(token: TokenView, after: Seq<char>)
    requires
        fits(token),
    ensures
        lex_from(token.text + seq![' '] + after, 0) == seq![token] + lex_from(after, 0),
{
    let text = token.text;
    let s = text + seq![' '] + after;
    let n = text.len() as int;
    lemma_lexeme_of_rendered(token, after);
    assert(s[0] == text[0]);
    assert(s[n] == ' ');
    assert(s.subrange(0, n) =~= text);
    assert(lex_from(s, n) == lex_from(s, n + 1));
    lemma_lex_shift(text + seq![' '], after, 0);
}

/// Lexing undoes writing: where every token of `tokens` fits its category,
/// the tokens of their texts written one after the other, a space after
/// each, are `tokens` again.
pub proof fn lemma_lex_of_rendered_tokens(tokens: Seq<TokenView>)
    requires
        forall|i: int| 0 <= i < tokens.len() ==> fits(#[trigger] tokens[i]),
    ensures
        tokens_of(rendered(tokens)) == tokens,
    decreases tokens.len(),
{
    if tokens.len() > 0 {
        let rest = tokens.drop_first();
        assert forall|i: int| 0 <= i < rest.len() implies fits(#[trigger] rest[i]) by {
            assert(rest[i] == tokens[i + 1]);
        }
        lemma_lex_of_rendered_tokens(rest);
        lemma_lex_of_rendered(tokens[0], rendered(rest));
        assert(seq![tokens[0]] + rest =~= tokens);
    }
}

/// Lexing again changes nothing: the tokens of a source, written one after
/// the other with a space after each and lexed, are the tokens of the
/// source. Comments and the amount of white space have no part in what a
/// source means.
pub proof fn lemma_lex_again(s: Seq<char>)
    ensures
        tokens_of(rendered(tokens_of(s))) == tokens_of(s),
{
    assert forall|i: int| 0 <= i < tokens_of(s).len() implies fits(#[trigger] tokens_of(s)[i]) by {
        lemma_tokens_fit(s, 0, i);
    }
    lemma_lex_of_rendered_tokens(tokens_of(s));
}

} // verus!
