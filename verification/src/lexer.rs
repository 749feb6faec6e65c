//! Tokens, the token stream that the grammar reads, and the lexer.

use crate::lexical::{
    in_class, lemma_lexeme_bound, lex_from, lexeme_at, run, symbol, tokens_of, word_kind,
    CharClass,
};
use vstd::prelude::*;

verus! {

/// The category of a token.
///
/// Where a text could be of two categories, a reserved word wins over an
/// identifier, an identifier over a number, and a decimal number over a
/// hexadecimal one.
#[allow(non_camel_case_types)]
#[derive(Debug, PartialEq, Eq, Copy, Clone, Structural)]
pub enum TLTokenEnum {
    /// `_`
    UNDERLINE,
    /// `:`
    COLON,
    /// `;`
    SEMICOLON,
    /// `(`
    OPBR,
    /// `)`
    CLBR,
    /// `[`
    OPSBR,
    /// `]`
    CLSBR,
    /// `{`
    OPCBR,
    /// `}`
    CLSCBR,
    /// `---`
    SEPARATOR,
    /// `=`
    EQ,
    /// `#`
    NUM,
    /// `?`
    QMARK,
    /// `%`
    PERCENT,
    /// `+`
    PLUS,
    /// `<`
    LESSTHAN,
    /// `>`
    GREATERTHAN,
    /// `,`
    COMA,
    /// `.`
    STOP,
    /// `*`
    MULT,
    /// `!`
    EXCLMARK,
    /// The reserved word `Final`.
    FINAL,
    /// The reserved word `New`.
    NEW,
    /// The reserved word `Empty`.
    EMPTY,
    /// The reserved word `Types`.
    TYPES,
    /// The reserved word `Functions`.
    FUNCTIONS,
    /// The end of the text. The lexer stops there and gives no token for it.
    END,
    /// A comment, from `//` to the end of the line. The lexer drops it.
    COMMENT,
    /// One or more decimal digits.
    NUMBER,
    /// One or more hexadecimal digits that make neither a decimal number nor
    /// an identifier.
    HEXNUMBER,
    /// A lower-case letter and one or more letters, digits or `_`.
    LCIDENT,
    /// An upper-case letter and one or more letters, digits or `_`.
    UCIDENT,
    /// One character that starts no token.
    ERROR,
}

/// Value of a [`TLToken`]: its category and its text.
pub struct TokenView {
    pub kind: TLTokenEnum,
    pub text: Seq<char>,
}

/// A token: its category and the text it was read from.
#[derive(PartialEq, Debug)]
pub struct TLToken {
    /// The category.
    pub token_type: TLTokenEnum,
    /// The text, as it stands in the source.
    pub token: String,
}

impl View for TLToken {
    type V = TokenView;

    open spec fn view(&self) -> TokenView {
        TokenView { kind: self.token_type, text: self.token@ }
    }
}

impl DeepView for TLToken {
    type V = TokenView;

    open spec fn deep_view(&self) -> TokenView {
        self@
    }
}

impl TLTokenEnum {
    /// A category stands for one token.
    pub fn input_len(&self) -> (n: usize)
        ensures
            n == 1,
    {
        1
    }
}

impl TLToken {
    /// A token is one token long.
    pub fn input_len(&self) -> (n: usize)
        ensures
            n == 1,
    {
        1
    }
}

impl PartialEq<TLToken> for TLTokenEnum {
    /// A category equals a token of that category.
    fn eq(&self, other: &TLToken) -> (r: bool) {
        other.token_type == *self
    }
}

impl vstd::std_specs::cmp::PartialEqSpecImpl<TLToken> for TLTokenEnum {
    open spec fn obeys_eq_spec() -> bool {
        true
    }

    open spec fn eq_spec(&self, other: &TLToken) -> bool {
        other.token_type == *self
    }
}

impl PartialEq<TLTokenEnum> for TLToken {
    /// A token equals its category.
    fn eq(&self, other: &TLTokenEnum) -> (r: bool) {
        self.token_type == *other
    }
}

impl vstd::std_specs::cmp::PartialEqSpecImpl<TLTokenEnum> for TLToken {
    open spec fn obeys_eq_spec() -> bool {
        true
    }

    open spec fn eq_spec(&self, other: &TLTokenEnum) -> bool {
        self.token_type == *other
    }
}

/// A window `[start, end)` over an array of tokens.
///
/// The window never copies the array: every operation returns another window
/// over the same array. A window whose bounds lie outside the array reads as
/// if they were cut to it.
#[derive(Clone, Copy, PartialEq, Debug)]
pub struct Tokens<'a> {
    /// The whole array.
    pub tok: &'a [TLToken],
    /// The position in the array of the first token of the window.
    pub start: usize,
    /// The position in the array after the last token of the window.
    pub end: usize,
}

impl<'a> Tokens<'a> {
    /// The end of the window, cut to the array.
    pub open spec fn limit(self) -> int {
        if self.end <= self.tok@.len() {
            self.end as int
        } else {
            self.tok@.len() as int
        }
    }

    /// The tokens before the end of the window: what a rule may ever read.
    pub open spec fn stream(self) -> Seq<TokenView> {
        self.tok.deep_view().take(self.limit())
    }

    /// The bounds lie inside the array.
    pub open spec fn wf(self) -> bool {
        self.start <= self.end <= self.tok@.len()
    }

    /// The window moved to start at `start`, over the same array and with the same end.
    pub open spec fn at(self, start: int) -> Tokens<'a> {
        Tokens { tok: self.tok, start: start as usize, end: self.end }
    }

    /// A window over the whole of `vec`.
    pub fn new(vec: &'a Vec<TLToken>) -> (r: Self)
        ensures
            r.tok@ == vec@,
            r.start == 0,
            r.end == vec.len(),
            r.wf(),
            r@ == vec.deep_view(),
    {
        let r = Tokens { tok: vec.as_slice(), start: 0, end: vec.len() };
        assert(r@ =~= vec.deep_view());
        r
    }

    /// The number of tokens in the window.
    pub fn input_len(&self) -> (n: usize)
        ensures
            n == self@.len(),
    {
        let limit = if self.end <= self.tok.len() {
            self.end
        } else {
            self.tok.len()
        };
        if self.start <= limit {
            limit - self.start
        } else {
            0
        }
    }

    /// The token at the start of the window, if the window is not empty.
    pub fn first(&self) -> (r: Option<&'a TLToken>)
        ensures
            match r {
                Some(t) => self.start < self.limit() && *t == self.tok@[self.start as int] && t@
                    == self.stream()[self.start as int],
                None => self.start >= self.limit(),
            },
    {
        if self.start < self.end && self.start < self.tok.len() {
            Some(&self.tok[self.start])
        } else {
            None
        }
    }

    /// The token number `i` of the window.
    pub fn get(&self, i: usize) -> (r: &'a TLToken)
        requires
            self.wf(),
            i < self@.len(),
        ensures
            *r == self.tok@[self.start + i],
            r@ == self@[i as int],
    {
        &self.tok[self.start + i]
    }

    /// The offset in the window of the first token that `predicate` holds of.
    pub fn position<P: Fn(&TLToken) -> bool>(&self, predicate: P) -> (r: Option<usize>)
        requires
            self.wf(),
            forall|i: int|
                self.start <= i < self.end ==> call_requires(predicate, (&self.tok@[i],)),
        ensures
            match r {
                Some(k) => k < self@.len() && call_ensures(
                    predicate,
                    (&self.tok@[self.start + k],),
                    true,
                ) && forall|j: int|
                    self.start <= j < self.start + k ==> call_ensures(
                        predicate,
                        (&self.tok@[j],),
                        false,
                    ),
                None => forall|j: int|
                    self.start <= j < self.end ==> call_ensures(predicate, (&self.tok@[j],), false),
            },
    {
        let mut i: usize = self.start;
        while i < self.end
            invariant
                self.wf(),
                self.start <= i <= self.end,
                forall|j: int|
                    self.start <= j < self.end ==> call_requires(predicate, (&self.tok@[j],)),
                forall|j: int|
                    self.start <= j < i ==> call_ensures(predicate, (&self.tok@[j],), false),
            decreases self.end - i,
        {
            if predicate(&self.tok[i]) {
                return Some(i - self.start);
            }
            i += 1;
        }
        None
    }

    /// The window without its first token.
    pub fn advance(&self) -> (r: Self)
        requires
            self.start < self.limit(),
        ensures
            r == self.at(self.start + 1),
    {
        Tokens { tok: self.tok, start: self.start + 1, end: self.end }
    }

    /// The first `count` tokens of the window.
    pub fn take(&self, count: usize) -> (r: Self)
        requires
            self.wf(),
            count <= self@.len(),
        ensures
            r.wf(),
            r.tok == self.tok,
            r.start == self.start,
            r.end == self.start + count,
            r@ == self@.take(count as int),
    {
        let r = Tokens { tok: self.tok, start: self.start, end: self.start + count };
        assert(r@ =~= self@.take(count as int));
        r
    }

    /// The window split after its first `count` tokens: the rest, then the prefix.
    pub fn take_split(&self, count: usize) -> (r: (Self, Self))
        requires
            self.wf(),
            count <= self@.len(),
        ensures
            r.0.wf(),
            r.1.wf(),
            r.0.tok == self.tok && r.0.start == self.start + count && r.0.end == self.end,
            r.1.tok == self.tok && r.1.start == self.start && r.1.end == self.start + count,
            r.0@ == self@.skip(count as int),
            r.1@ == self@.take(count as int),
    {
        let prefix = Tokens { tok: self.tok, start: self.start, end: self.start + count };
        let suffix = Tokens { tok: self.tok, start: self.start + count, end: self.end };
        assert(prefix@ =~= self@.take(count as int));
        assert(suffix@ =~= self@.skip(count as int));
        (suffix, prefix)
    }

    /// The tokens `from..to` of the window.
    pub fn slice(&self, from: usize, to: usize) -> (r: Self)
        requires
            self.wf(),
            from <= to <= self@.len(),
        ensures
            r.wf(),
            r.tok == self.tok,
            r.start == self.start + from,
            r.end == self.start + to,
            r@ == self@.subrange(from as int, to as int),
    {
        let r = Tokens { tok: self.tok, start: self.start + from, end: self.start + to };
        assert(r@ =~= self@.subrange(from as int, to as int));
        r
    }

    /// The tokens `..to` of the window.
    pub fn slice_to(&self, to: usize) -> (r: Self)
        requires
            self.wf(),
            to <= self@.len(),
        ensures
            r.wf(),
            r.tok == self.tok,
            r.start == self.start,
            r.end == self.start + to,
            r@ == self@.subrange(0, to as int),
    {
        self.slice(0, to)
    }

    /// The tokens `from..` of the window.
    pub fn slice_from(&self, from: usize) -> (r: Self)
        requires
            self.wf(),
            from <= self@.len(),
        ensures
            r.wf(),
            r.tok == self.tok,
            r.start == self.start + from,
            r.end == self.end,
            r@ == self@.subrange(from as int, self@.len() as int),
    {
        self.slice(from, self.end - self.start)
    }

    /// The whole window.
    pub fn slice_full(&self) -> (r: Self)
        ensures
            r == *self,
    {
        Tokens { tok: self.tok, start: self.start, end: self.end }
    }

    /// The offset of the token number `count`, if the window reaches that far.
    pub fn slice_index(&self, count: usize) -> (r: Option<usize>)
        ensures
            r == if self@.len() >= count {
                Some(count)
            } else {
                None
            },
    {
        if self.input_len() >= count {
            Some(count)
        } else {
            None
        }
    }

    /// Is the token at the start of the window of category `t`?
    pub fn compare(&self, t: TLTokenEnum) -> (r: bool)
        ensures
            r == (self@.len() > 0 && self@[0].kind == t),
    {
        match self.first() {
            Some(token) => token.token_type == t,
            None => false,
        }
    }

    /// Categories have no case: the same as [`Tokens::compare`].
    pub fn compare_no_case(&self, t: TLTokenEnum) -> (r: bool)
        ensures
            r == (self@.len() > 0 && self@[0].kind == t),
    {
        self.compare(t)
    }
}

impl<'a> View for Tokens<'a> {
    type V = Seq<TokenView>;

    /// The tokens in the window.
    open spec fn view(&self) -> Seq<TokenView> {
        if self.start <= self.limit() {
            self.stream().skip(self.start as int)
        } else {
            Seq::empty()
        }
    }
}

/// Appends the character `c` to the end of `text`.
///
/// This is `String::push` of the standard library. Its contract here says
/// what the documentation of `String::push` says, and is not proved.
#[verifier::external_body]
fn push_char(text: &mut String, c: char)
    ensures
        final(text)@ == old(text)@.push(c),
{
    text.push(c)
}

/// The characters of `s`, in order.
pub(crate) fn chars_of(s: &str) -> (r: Vec<char>)
    ensures
        r@ == s@,
{
    let mut out: Vec<char> = Vec::new();
    for c in it: s.chars()
        invariant
            out@ == it.seq().take(it.index() as int),
    {
        out.push(c);
    }
    out
}

/// Do `text` and `word` hold the same characters?
pub(crate) fn text_equals(text: &str, word: &str) -> (r: bool)
    ensures
        r == (text@ == word@),
{
    let a = chars_of(text);
    let b = chars_of(word);
    if a.len() != b.len() {
        return false;
    }
    let mut i: usize = 0;
    while i < a.len()
        invariant
            i <= a.len(),
            a.len() == b.len(),
            a@ == text@,
            b@ == word@,
            forall|k: int| 0 <= k < i ==> a@[k] == b@[k],
        decreases a.len() - i,
    {
        if a[i] != b[i] {
            return false;
        }
        i += 1;
    }
    assert(a@ =~= b@);
    true
}

/// The text `chars[from..to]` as a string.
fn text_of(chars: &Vec<char>, from: usize, to: usize) -> (r: String)
    requires
        from <= to <= chars.len(),
    ensures
        r@ == chars@.subrange(from as int, to as int),
{
    let mut out = String::new();
    let mut i: usize = from;
    while i < to
        invariant
            from <= i <= to <= chars.len(),
            out@ == chars@.subrange(from as int, i as int),
        decreases to - i,
    {
        push_char(&mut out, chars[i]);
        i += 1;
        assert(out@ =~= chars@.subrange(from as int, i as int));
    }
    out
}

fn class_has(class: CharClass, c: char) -> (r: bool)
    ensures
        r == in_class(class, c),
{
    match class {
        CharClass::Digit => '0' <= c && c <= '9',
        CharClass::Hex => ('0' <= c && c <= '9') || ('a' <= c && c <= 'f') || ('A' <= c && c
            <= 'F'),
        CharClass::Ident => ('a' <= c && c <= 'z') || ('A' <= c && c <= 'Z') || ('0' <= c && c
            <= '9') || c == '_',
        CharClass::CommentBody => c != '\n',
    }
}

/// The length of the run of `class` that starts at `from`.
fn scan_run(chars: &Vec<char>, from: usize, class: CharClass) -> (n: usize)
    requires
        from <= chars.len(),
    ensures
        n == run(chars@, from as int, class),
        from + n <= chars.len(),
{
    let mut i: usize = from;
    while i < chars.len() && class_has(class, chars[i])
        invariant
            from <= i <= chars.len(),
            run(chars@, from as int, class) == (i - from) + run(chars@, i as int, class),
        decreases chars.len() - i,
    {
        i += 1;
    }
    i - from
}

fn symbol_of(c: char) -> (r: Option<TLTokenEnum>)
    ensures
        r == symbol(c),
{
    if c == '_' {
        Some(TLTokenEnum::UNDERLINE)
    } else if c == ':' {
        Some(TLTokenEnum::COLON)
    } else if c == ';' {
        Some(TLTokenEnum::SEMICOLON)
    } else if c == '(' {
        Some(TLTokenEnum::OPBR)
    } else if c == ')' {
        Some(TLTokenEnum::CLBR)
    } else if c == '[' {
        Some(TLTokenEnum::OPSBR)
    } else if c == ']' {
        Some(TLTokenEnum::CLSBR)
    } else if c == '{' {
        Some(TLTokenEnum::OPCBR)
    } else if c == '}' {
        Some(TLTokenEnum::CLSCBR)
    } else if c == '=' {
        Some(TLTokenEnum::EQ)
    } else if c == '#' {
        Some(TLTokenEnum::NUM)
    } else if c == '?' {
        Some(TLTokenEnum::QMARK)
    } else if c == '%' {
        Some(TLTokenEnum::PERCENT)
    } else if c == '+' {
        Some(TLTokenEnum::PLUS)
    } else if c == '<' {
        Some(TLTokenEnum::LESSTHAN)
    } else if c == '>' {
        Some(TLTokenEnum::GREATERTHAN)
    } else if c == ',' {
        Some(TLTokenEnum::COMA)
    } else if c == '.' {
        Some(TLTokenEnum::STOP)
    } else if c == '*' {
        Some(TLTokenEnum::MULT)
    } else if c == '!' {
        Some(TLTokenEnum::EXCLMARK)
    } else {
        None
    }
}

/// Is `chars[from..to]` the text `word`?
fn word_is(chars: &Vec<char>, from: usize, to: usize, word: &str) -> (r: bool)
    requires
        from <= to <= chars.len(),
    ensures
        r == (chars@.subrange(from as int, to as int) == word@),
{
    let n = word.unicode_len();
    if to - from != n {
        return false;
    }
    let mut j: usize = 0;
    while j < n
        invariant
            j <= n,
            n == word@.len(),
            n == to - from,
            from <= to <= chars.len(),
            forall|k: int| 0 <= k < j ==> chars@[from + k] == word@[k],
        decreases n - j,
    {
        if chars[from + j] != word.get_char(j) {
            assert(chars@.subrange(from as int, to as int)[j as int] != word@[j as int]);
            return false;
        }
        j += 1;
    }
    assert(chars@.subrange(from as int, to as int) =~= word@);
    true
}

/// The category of the word `chars[from..to]`.
fn word_kind_of(chars: &Vec<char>, from: usize, to: usize) -> (r: TLTokenEnum)
    requires
        from < to <= chars.len(),
    ensures
        r == word_kind(chars@.subrange(from as int, to as int)),
{
    if word_is(chars, from, to, "Final") {
        TLTokenEnum::FINAL
    } else if word_is(chars, from, to, "New") {
        TLTokenEnum::NEW
    } else if word_is(chars, from, to, "Empty") {
        TLTokenEnum::EMPTY
    } else if word_is(chars, from, to, "Types") {
        TLTokenEnum::TYPES
    } else if word_is(chars, from, to, "Functions") {
        TLTokenEnum::FUNCTIONS
    } else if 'a' <= chars[from] && chars[from] <= 'z' {
        TLTokenEnum::LCIDENT
    } else {
        TLTokenEnum::UCIDENT
    }
}

/// The category and the length of the lexeme that starts at `i`.
fn scan_lexeme(chars: &Vec<char>, i: usize) -> (r: (TLTokenEnum, usize))
    requires
        i < chars.len(),
    ensures
        r.0 == lexeme_at(chars@, i as int).kind,
        r.1 == lexeme_at(chars@, i as int).len,
        1 <= r.1,
        i + r.1 <= chars.len(),
{
    proof {
        lemma_lexeme_bound(chars@, i as int);
    }
    let c = chars[i];
    let n = chars.len();
    if c == '/' && n - i > 1 && chars[i + 1] == '/' {
        let body = scan_run(chars, i + 2, CharClass::CommentBody);
        return (TLTokenEnum::COMMENT, 2 + body);
    }
    if c == '-' && n - i > 2 && chars[i + 1] == '-' && chars[i + 2] == '-' {
        return (TLTokenEnum::SEPARATOR, 3);
    }
    match symbol_of(c) {
        Some(kind) => {
            return (kind, 1);
        },
        None => {},
    }
    if '0' <= c && c <= '9' {
        let decimal = 1 + scan_run(chars, i + 1, CharClass::Digit);
        let hex = 1 + scan_run(chars, i + 1, CharClass::Hex);
        if hex > decimal {
            (TLTokenEnum::HEXNUMBER, hex)
        } else {
            (TLTokenEnum::NUMBER, decimal)
        }
    } else if ('a' <= c && c <= 'z') || ('A' <= c && c <= 'Z') {
        let word = 1 + scan_run(chars, i + 1, CharClass::Ident);
        if word >= 2 {
            (word_kind_of(chars, i, i + word), word)
        } else if ('a' <= c && c <= 'f') || ('A' <= c && c <= 'F') {
            (TLTokenEnum::HEXNUMBER, 1)
        } else {
            (TLTokenEnum::ERROR, 1)
        }
    } else {
        (TLTokenEnum::ERROR, 1)
    }
}

/// Appends the tokens of `scheme` to `result` and returns a window over all of `result`.
///
/// Comments and white space are dropped. Lexing never fails: text that starts
/// no token of the language becomes a token of category `ERROR`, which no rule
/// of the grammar accepts.
pub fn lex<'a>(scheme: &str, result: &'a mut Vec<TLToken>) -> (tokens: Tokens<'a>)
    ensures
        final(result).deep_view() == old(result).deep_view() + tokens_of(scheme@),
        tokens.tok@ == final(result)@,
        tokens.start == 0,
        tokens.end == final(result).len(),
        tokens@ == final(result).deep_view(),
{
    let chars = chars_of(scheme);
    let ghost before = result.deep_view();
    let mut i: usize = 0;
    while i < chars.len()
        invariant
            i <= chars.len(),
            chars@ == scheme@,
            before + tokens_of(scheme@) == result.deep_view() + lex_from(scheme@, i as int),
        decreases chars.len() - i,
    {
        let c = chars[i];
        if c == ' ' || c == '\t' || c == '\n' || c == '\r' || c == '\x0c' {
            i += 1;
        } else {
            let (kind, len) = scan_lexeme(&chars, i);
            if kind != TLTokenEnum::COMMENT {
                let ghost prior = result.deep_view();
                let token = TLToken { token_type: kind, token: text_of(&chars, i, i + len) };
                result.push(token);
                assert(result.deep_view() =~= prior.push(token@));
                assert(prior.push(token@) + lex_from(scheme@, i + len) =~= prior + lex_from(
                    scheme@,
                    i as int,
                ));
            }
            i += len;
        }
    }
    assert(result.deep_view() =~= before + tokens_of(scheme@));
    Tokens::new(result)
}

} // verus!
