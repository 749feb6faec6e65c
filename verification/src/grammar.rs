//! The grammar of TL over a sequence of tokens, as mathematics.
//!
//! Each rule is a function of the token sequence `s` and a position `p` in it.
//! It gives one of three results: the rule matched, used a number of tokens
//! and has a value; the rule did not match (a soft mismatch, after which the
//! caller may try another alternative); or the rule had committed itself and
//! then met something invalid (a hard failure, which ends the whole parse).
//!
//! Alternatives are ordered: the first that does not mismatch decides. A
//! repetition stops at the first mismatch of its item and never fails for it.

use crate::ast::{
    ArgView, CNameView, CombinatorView, ConditionView, DeclarationBlockView, DeclarationView,
    ExpressionView, FinalView, NameView, Nat, ProgramView, TLOperator, TypeIdentView,
};
use crate::lexer::{TLTokenEnum, TokenView};
use crate::numbers::parse_nat;
use vstd::prelude::*;

verus! {

/// The result of a rule at a position.
pub enum Parsed<T> {
    /// The rule matched `used` tokens and gives `value`.
    Done { used: nat, value: T },
    /// The rule does not match; `at` is the position of the token that did not fit.
    Mismatch { at: nat },
    /// The rule had committed and cannot go on; `at` is the position it reports.
    Failure { at: nat },
}

/// The number of tokens from `p` to the end of `s`.
pub open spec fn left(s: Seq<TokenView>, p: nat) -> nat {
    if p <= s.len() {
        (s.len() - p) as nat
    } else {
        0
    }
}

/// Is there a token of category `kind` at position `p`?
pub open spec fn is_kind(s: Seq<TokenView>, p: nat, kind: TLTokenEnum) -> bool {
    p < s.len() && s[p as int].kind == kind
}

/// The text of the token at position `p`.
pub open spec fn text_at(s: Seq<TokenView>, p: nat) -> Seq<char> {
    s[p as int].text
}

/// Ordered choice: `second` counts only where `first` mismatches.
pub open spec fn or_else<T>(first: Parsed<T>, second: Parsed<T>) -> Parsed<T> {
    if first is Mismatch {
        second
    } else {
        first
    }
}

/// An optional rule: a mismatch becomes a match of no tokens without a value.
pub open spec fn optional<T>(r: Parsed<T>) -> Parsed<Option<T>> {
    match r {
        Parsed::Done { used, value } => Parsed::Done { used, value: Some(value) },
        Parsed::Mismatch { at } => Parsed::Done { used: 0, value: None },
        Parsed::Failure { at } => Parsed::Failure { at },
    }
}

/// An optional expression: a mismatch becomes the explicit `Empty` node.
pub open spec fn or_empty(r: Parsed<ExpressionView>) -> Parsed<ExpressionView> {
    match r {
        Parsed::Mismatch { at } => Parsed::Done { used: 0, value: ExpressionView::Empty },
        _ => r,
    }
}

/// The mismatch or failure of `r`, as the result of a rule of another type.
pub open spec fn refused<A, B>(r: Parsed<A>) -> Parsed<B>
    recommends
        !(r is Done),
{
    match r {
        Parsed::Failure { at } => Parsed::Failure { at },
        Parsed::Mismatch { at } => Parsed::Mismatch { at },
        Parsed::Done { used, value } => Parsed::Mismatch { at: 0 },
    }
}

/// The result `r` with `f` applied to its value.
pub open spec fn with_value<A, B>(r: Parsed<A>, f: spec_fn(A) -> B) -> Parsed<B> {
    match r {
        Parsed::Done { used, value } => Parsed::Done { used, value: f(value) },
        _ => refused(r),
    }
}

/// `first`, then `rest` after it: `front` tokens and values go before those of `rest`.
pub open spec fn prepend<T>(front: Seq<T>, used: nat, rest: Parsed<Seq<T>>) -> Parsed<Seq<T>> {
    match rest {
        Parsed::Done { used: more, value } => Parsed::Done {
            used: used + more,
            value: front + value,
        },
        _ => rest,
    }
}

// ---------------------------------------------------------------------------
// Names and numbers
// ---------------------------------------------------------------------------
/// An optional namespace `ident '.'`, then a name of category `last`.
///
/// Once the namespace and its dot are read, the name must follow.
pub open spec fn namespaced(s: Seq<TokenView>, p: nat, last: TLTokenEnum) -> Parsed<NameView> {
    if is_kind(s, p, TLTokenEnum::LCIDENT) && is_kind(s, p + 1, TLTokenEnum::STOP) {
        if is_kind(s, p + 2, last) {
            Parsed::Done {
                used: 3,
                value: NameView::NameNs { ns: text_at(s, p), name: text_at(s, p + 2) },
            }
        } else {
            Parsed::Mismatch { at: p + 2 }
        }
    } else if is_kind(s, p, last) {
        Parsed::Done { used: 1, value: NameView::Name(text_at(s, p)) }
    } else {
        Parsed::Mismatch { at: p }
    }
}

/// A lower-case name, with or without a namespace.
pub open spec fn lc_ident(s: Seq<TokenView>, p: nat) -> Parsed<NameView> {
    namespaced(s, p, TLTokenEnum::LCIDENT)
}

/// An upper-case name, with or without a namespace.
pub open spec fn uc_ident(s: Seq<TokenView>, p: nat) -> Parsed<NameView> {
    namespaced(s, p, TLTokenEnum::UCIDENT)
}

/// May a token of this category hold a hexadecimal number? A word of
/// hexadecimal digits is a number, or an identifier where it starts with a
/// letter.
pub open spec fn holds_hex_number(kind: TLTokenEnum) -> bool {
    kind == TLTokenEnum::NUMBER || kind == TLTokenEnum::HEXNUMBER || kind == TLTokenEnum::LCIDENT
        || kind == TLTokenEnum::UCIDENT
}

/// The magic number that the token at `p` holds, if there is such a token,
/// it may hold a number, and its text is a hexadecimal number of 32 bits.
pub open spec fn magic_at(s: Seq<TokenView>, p: nat) -> Option<Nat> {
    if p < s.len() && holds_hex_number(s[p as int].kind) {
        parse_nat(text_at(s, p), 16)
    } else {
        None
    }
}

/// A magic number: `#`, then a token that holds a hexadecimal number of 32 bits.
///
/// The `#` commits: anything else after it is a hard failure at that token.
pub open spec fn hex_number(s: Seq<TokenView>, p: nat) -> Parsed<Nat> {
    if !is_kind(s, p, TLTokenEnum::NUM) {
        Parsed::Mismatch { at: p }
    } else {
        match magic_at(s, p + 1) {
            Some(magic) => Parsed::Done { used: 2, value: magic },
            None => Parsed::Failure { at: p + 1 },
        }
    }
}

/// The name of a combinator: `_`, or a lower-case name with an optional magic number.
pub open spec fn combinator_name(s: Seq<TokenView>, p: nat) -> Parsed<CNameView> {
    if is_kind(s, p, TLTokenEnum::UNDERLINE) {
        Parsed::Done { used: 1, value: CNameView::EmptyName }
    } else {
        match lc_ident(s, p) {
            Parsed::Done { used, value: name } => match hex_number(s, p + used) {
                Parsed::Done { used: more, value: magic } => Parsed::Done {
                    used: used + more,
                    value: CNameView::FullName(name, magic),
                },
                Parsed::Mismatch { at } => Parsed::Done { used, value: CNameView::Name(name) },
                Parsed::Failure { at } => Parsed::Failure { at },
            },
            r => refused(r),
        }
    }
}

/// May a token of this category name a variable?
pub open spec fn names_variable(kind: TLTokenEnum) -> bool {
    kind == TLTokenEnum::LCIDENT || kind == TLTokenEnum::UCIDENT || kind == TLTokenEnum::TYPES
        || kind == TLTokenEnum::FUNCTIONS
}

/// The name of a variable: an identifier of either case, or one of the words
/// that name a block.
pub open spec fn var_name(s: Seq<TokenView>, p: nat) -> Parsed<Seq<char>> {
    if p < s.len() && names_variable(s[p as int].kind) {
        Parsed::Done { used: 1, value: text_at(s, p) }
    } else {
        Parsed::Mismatch { at: p }
    }
}

/// A binder: `_` for none, or the name of a variable.
pub open spec fn var_name_optional(s: Seq<TokenView>, p: nat) -> Parsed<Option<Seq<char>>> {
    if is_kind(s, p, TLTokenEnum::UNDERLINE) {
        Parsed::Done { used: 1, value: None }
    } else {
        with_value(var_name(s, p), |name: Seq<char>| Some(name))
    }
}

/// A reference to a type: a lower-case name, else an upper-case name.
pub open spec fn type_ident(s: Seq<TokenView>, p: nat) -> Parsed<TypeIdentView> {
    or_else(
        with_value(lc_ident(s, p), |name: NameView| TypeIdentView::Lower(name)),
        with_value(uc_ident(s, p), |name: NameView| TypeIdentView::Upper(name)),
    )
}

/// A natural number: a decimal token. One that does not fit 32 bits is a
/// hard failure at that token.
pub open spec fn nat_const(s: Seq<TokenView>, p: nat) -> Parsed<Nat> {
    if !is_kind(s, p, TLTokenEnum::NUMBER) {
        Parsed::Mismatch { at: p }
    } else {
        match parse_nat(text_at(s, p), 10) {
            Some(n) => Parsed::Done { used: 1, value: n },
            None => Parsed::Failure { at: p },
        }
    }
}

// ---------------------------------------------------------------------------
// Expressions
// ---------------------------------------------------------------------------
/// A term: the first that matches of a parenthesised expression, a `%` term,
/// `#`, a natural number, a generic application and a bare type name.
pub open spec fn parse_term(s: Seq<TokenView>, p: nat) -> Parsed<ExpressionView>
    decreases left(s, p), 1nat,
{
    or_else(
        parse_term_full_expression(s, p),
        or_else(
            parse_term_operator(s, p),
            or_else(
                term_hash(s, p),
                or_else(
                    with_value(nat_const(s, p), |n: Nat| ExpressionView::Nat(n)),
                    or_else(
                        parse_term_brackets(s, p),
                        with_value(
                            type_ident(s, p),
                            |ident: TypeIdentView| ExpressionView::Ident(ident),
                        ),
                    ),
                ),
            ),
        ),
    )
}

/// The term `#`.
pub open spec fn term_hash(s: Seq<TokenView>, p: nat) -> Parsed<ExpressionView> {
    if is_kind(s, p, TLTokenEnum::NUM) {
        Parsed::Done { used: 1, value: ExpressionView::Hash }
    } else {
        Parsed::Mismatch { at: p }
    }
}

/// `(` expressions `)`: the value is that of the expressions between.
pub open spec fn parse_term_full_expression(s: Seq<TokenView>, p: nat) -> Parsed<ExpressionView>
    decreases left(s, p), 0nat,
{
    if !is_kind(s, p, TLTokenEnum::OPBR) {
        Parsed::Mismatch { at: p }
    } else {
        match parse_full_expression(s, p + 1) {
            Parsed::Done { used, value } => if is_kind(s, p + 1 + used, TLTokenEnum::CLBR) {
                Parsed::Done { used: used + 2, value }
            } else {
                Parsed::Mismatch { at: p + 1 + used }
            },
            r => r,
        }
    }
}

/// `%` term: the term under the operator `Bang`.
pub open spec fn parse_term_operator(s: Seq<TokenView>, p: nat) -> Parsed<ExpressionView>
    decreases left(s, p), 0nat,
{
    if !is_kind(s, p, TLTokenEnum::PERCENT) {
        Parsed::Mismatch { at: p }
    } else {
        match parse_term(s, p + 1) {
            Parsed::Done { used, value } => Parsed::Done {
                used: used + 1,
                value: ExpressionView::Operator(TLOperator::Bang, Box::new(value)),
            },
            r => r,
        }
    }
}

/// A generic application: a type name, `<`, one or more groups of
/// expressions separated by commas, `>`. Its value is the sequence of the
/// name and the sequence of the groups.
pub open spec fn parse_term_brackets(s: Seq<TokenView>, p: nat) -> Parsed<ExpressionView>
    decreases left(s, p), 0nat,
{
    match type_ident(s, p) {
        Parsed::Done { used, value: ident } => if !is_kind(s, p + used, TLTokenEnum::LESSTHAN) {
            Parsed::Mismatch { at: p + used }
        } else {
            match expression_groups(s, p + used + 1) {
                Parsed::Done { used: more, value: groups } => if is_kind(
                    s,
                    p + used + 1 + more,
                    TLTokenEnum::GREATERTHAN,
                ) {
                    Parsed::Done {
                        used: used + more + 2,
                        value: ExpressionView::Expression(
                            seq![
                                ExpressionView::Ident(ident),
                                ExpressionView::Expression(groups),
                            ],
                        ),
                    }
                } else {
                    Parsed::Mismatch { at: p + used + 1 + more }
                },
                r => refused(r),
            }
        },
        r => refused(r),
    }
}

/// One or more groups separated by commas; a group is one or more
/// expressions and has the value of their sequence.
pub open spec fn expression_groups(s: Seq<TokenView>, p: nat) -> Parsed<Seq<ExpressionView>>
    decreases left(s, p), 6nat,
{
    match many1_expression(s, p) {
        Parsed::Done { used, value } => if used == 0 {
            Parsed::Mismatch { at: p }
        } else {
            prepend(
                seq![ExpressionView::Expression(value)],
                used,
                more_expression_groups(s, p + used),
            )
        },
        r => r,
    }
}

/// The groups after the first: each a comma and a group. A comma that no
/// group follows is left unread.
pub open spec fn more_expression_groups(s: Seq<TokenView>, p: nat) -> Parsed<Seq<ExpressionView>>
    decreases left(s, p), 5nat,
{
    if !is_kind(s, p, TLTokenEnum::COMA) {
        Parsed::Done { used: 0, value: Seq::empty() }
    } else {
        match many1_expression(s, p + 1) {
            Parsed::Done { used, value } => prepend(
                seq![ExpressionView::Expression(value)],
                used + 1,
                more_expression_groups(s, p + 1 + used),
            ),
            Parsed::Mismatch { at } => Parsed::Done { used: 0, value: Seq::empty() },
            Parsed::Failure { at } => Parsed::Failure { at },
        }
    }
}

/// The continuation of a sum: `+`, a natural number, and an expression or nothing.
pub open spec fn parse_expression_hp(s: Seq<TokenView>, p: nat) -> Parsed<ExpressionView>
    decreases left(s, p), 1nat,
{
    if !is_kind(s, p, TLTokenEnum::PLUS) {
        Parsed::Mismatch { at: p }
    } else {
        match nat_const(s, p + 1) {
            Parsed::Done { used, value: n } => match or_empty(parse_expression(s, p + 1 + used)) {
                Parsed::Done { used: more, value } => Parsed::Done {
                    used: 1 + used + more,
                    value: ExpressionView::Operator(
                        TLOperator::Plus,
                        Box::new(
                            ExpressionView::Expression(seq![ExpressionView::Nat(n), value]),
                        ),
                    ),
                },
                r => r,
            },
            r => refused(r),
        }
    }
}

/// A term and its continuation, which is `Empty` where there is none.
pub open spec fn expression_of_term(s: Seq<TokenView>, p: nat) -> Parsed<ExpressionView>
    decreases left(s, p), 2nat,
{
    match parse_term(s, p) {
        Parsed::Done { used, value: term } => match or_empty(parse_expression_hp(s, p + used)) {
            Parsed::Done { used: more, value } => Parsed::Done {
                used: used + more,
                value: ExpressionView::Expression(seq![term, value]),
            },
            r => r,
        },
        r => r,
    }
}

/// A sum that leads with a number: a natural number, `+`, an expression and
/// a continuation, under the operator `Plus`.
pub open spec fn expression_of_sum(s: Seq<TokenView>, p: nat) -> Parsed<ExpressionView>
    decreases left(s, p), 2nat,
{
    match nat_const(s, p) {
        Parsed::Done { used, value: n } => if !is_kind(s, p + used, TLTokenEnum::PLUS) {
            Parsed::Mismatch { at: p + used }
        } else {
            match parse_expression(s, p + used + 1) {
                Parsed::Done { used: more, value: expr } => match or_empty(
                    parse_expression_hp(s, p + used + 1 + more),
                ) {
                    Parsed::Done { used: last, value: tail } => Parsed::Done {
                        used: used + 1 + more + last,
                        value: ExpressionView::Operator(
                            TLOperator::Plus,
                            Box::new(
                                ExpressionView::Expression(
                                    seq![ExpressionView::Nat(n), expr, tail],
                                ),
                            ),
                        ),
                    },
                    r => r,
                },
                r => r,
            }
        },
        r => refused(r),
    }
}

/// An expression: a term with its continuation, else a sum that leads with a number.
pub open spec fn parse_expression(s: Seq<TokenView>, p: nat) -> Parsed<ExpressionView>
    decreases left(s, p), 3nat,
{
    or_else(expression_of_term(s, p), expression_of_sum(s, p))
}

/// Zero or more expressions. An expression that uses no token is a mismatch
/// of the repetition.
pub open spec fn many0_expression(s: Seq<TokenView>, p: nat) -> Parsed<Seq<ExpressionView>>
    decreases left(s, p), 4nat,
{
    if p >= s.len() {
        Parsed::Done { used: 0, value: Seq::empty() }
    } else {
        match parse_expression(s, p) {
            Parsed::Done { used, value } => if used == 0 {
                Parsed::Mismatch { at: p }
            } else {
                prepend(seq![value], used, many0_expression(s, p + used))
            },
            Parsed::Mismatch { at } => Parsed::Done { used: 0, value: Seq::empty() },
            Parsed::Failure { at } => Parsed::Failure { at },
        }
    }
}

/// One or more expressions.
pub open spec fn many1_expression(s: Seq<TokenView>, p: nat) -> Parsed<Seq<ExpressionView>>
    decreases left(s, p), 5nat,
{
    match parse_expression(s, p) {
        Parsed::Done { used, value } => prepend(seq![value], used, many0_expression(s, p + used)),
        r => refused(r),
    }
}

/// Zero or more expressions, as one expression: their sequence.
pub open spec fn parse_full_expression(s: Seq<TokenView>, p: nat) -> Parsed<ExpressionView>
    decreases left(s, p), 5nat,
{
    match many0_expression(s, p) {
        Parsed::Done { used, value } => Parsed::Done {
            used,
            value: ExpressionView::Expression(value),
        },
        r => refused(r),
    }
}

/// One or more sequences of expressions separated by commas. The first must
/// use a token; one after a comma may be empty.
pub open spec fn full_expression_groups(s: Seq<TokenView>, p: nat) -> Parsed<Seq<ExpressionView>>
    decreases left(s, p), 7nat,
{
    match parse_full_expression(s, p) {
        Parsed::Done { used, value } => if used == 0 {
            Parsed::Mismatch { at: p }
        } else {
            prepend(seq![value], used, more_full_expression_groups(s, p + used))
        },
        r => refused(r),
    }
}

/// The sequences after the first: each a comma and a sequence of expressions.
pub open spec fn more_full_expression_groups(s: Seq<TokenView>, p: nat) -> Parsed<
    Seq<ExpressionView>,
>
    decreases left(s, p), 6nat,
{
    if !is_kind(s, p, TLTokenEnum::COMA) {
        Parsed::Done { used: 0, value: Seq::empty() }
    } else {
        match parse_full_expression(s, p + 1) {
            Parsed::Done { used, value } => prepend(
                seq![value],
                used + 1,
                more_full_expression_groups(s, p + 1 + used),
            ),
            Parsed::Mismatch { at } => Parsed::Done { used: 0, value: Seq::empty() },
            Parsed::Failure { at } => Parsed::Failure { at },
        }
    }
}

/// The arguments of a result type in angle brackets.
pub open spec fn parse_result_type_helper(s: Seq<TokenView>, p: nat) -> Parsed<
    Seq<ExpressionView>,
> {
    if !is_kind(s, p, TLTokenEnum::LESSTHAN) {
        Parsed::Mismatch { at: p }
    } else {
        match full_expression_groups(s, p + 1) {
            Parsed::Done { used, value } => if is_kind(
                s,
                p + 1 + used,
                TLTokenEnum::GREATERTHAN,
            ) {
                Parsed::Done { used: used + 2, value }
            } else {
                Parsed::Mismatch { at: p + 1 + used }
            },
            r => r,
        }
    }
}

/// A result type: an upper-case name, then its arguments in angle brackets,
/// else zero or more expressions. Its value is the sequence of the name and
/// the arguments.
pub open spec fn parse_result_type(s: Seq<TokenView>, p: nat) -> Parsed<ExpressionView> {
    match uc_ident(s, p) {
        Parsed::Done { used, value: name } => match or_else(
            parse_result_type_helper(s, p + used),
            many0_expression(s, p + used),
        ) {
            Parsed::Done { used: more, value } => Parsed::Done {
                used: used + more,
                value: ExpressionView::Expression(
                    seq![ExpressionView::Ident(TypeIdentView::Upper(name))] + value,
                ),
            },
            r => refused(r),
        },
        r => refused(r),
    }
}

/// The type of an argument: a term, or `!` and a term under the operator `Bang`.
pub open spec fn parse_type_term_with_bang(s: Seq<TokenView>, p: nat) -> Parsed<ExpressionView> {
    if is_kind(s, p, TLTokenEnum::EXCLMARK) {
        match parse_term(s, p + 1) {
            Parsed::Done { used, value } => Parsed::Done {
                used: used + 1,
                value: ExpressionView::Operator(TLOperator::Bang, Box::new(value)),
            },
            r => r,
        }
    } else {
        parse_term(s, p)
    }
}

// ---------------------------------------------------------------------------
// Arguments
// ---------------------------------------------------------------------------
/// A condition: the name of a flags field, `.`, a bit number, `?`.
pub open spec fn conditional(s: Seq<TokenView>, p: nat) -> Parsed<ConditionView> {
    match var_name(s, p) {
        Parsed::Done { used, value: name } => if !is_kind(s, p + 1, TLTokenEnum::STOP) {
            Parsed::Mismatch { at: p + 1 }
        } else {
            match nat_const(s, p + 2) {
                Parsed::Done { used: more, value: bit } => if is_kind(
                    s,
                    p + 3,
                    TLTokenEnum::QMARK,
                ) {
                    Parsed::Done { used: 4, value: ConditionView { name, bit } }
                } else {
                    Parsed::Mismatch { at: p + 3 }
                },
                r => refused(r),
            }
        },
        r => refused(r),
    }
}

/// One or more binders, each `_` or the name of a variable.
pub open spec fn many1_var_name_optional(s: Seq<TokenView>, p: nat) -> Parsed<
    Seq<Option<Seq<char>>>,
> {
    match var_name_optional(s, p) {
        Parsed::Done { used, value } => Parsed::Done {
            used: binders(s, p).len(),
            value: binders(s, p),
        },
        r => refused(r),
    }
}

/// The binders that stand in a row from `p` on.
pub open spec fn binders(s: Seq<TokenView>, p: nat) -> Seq<Option<Seq<char>>>
    decreases left(s, p),
{
    match var_name_optional(s, p) {
        Parsed::Done { used, value } => seq![value] + binders(s, p + 1),
        _ => Seq::empty(),
    }
}

/// One or more names of variables.
pub open spec fn many1_var_name(s: Seq<TokenView>, p: nat) -> Parsed<Seq<Seq<char>>> {
    match var_name(s, p) {
        Parsed::Done { used, value } => Parsed::Done {
            used: names(s, p).len(),
            value: names(s, p),
        },
        r => refused(r),
    }
}

/// The names of variables that stand in a row from `p` on.
pub open spec fn names(s: Seq<TokenView>, p: nat) -> Seq<Seq<char>>
    decreases left(s, p),
{
    match var_name(s, p) {
        Parsed::Done { used, value } => seq![value] + names(s, p + 1),
        _ => Seq::empty(),
    }
}

/// The optional binder of a repeated group: a binder and `:`, or nothing.
pub open spec fn multiplicity_binder(s: Seq<TokenView>, p: nat) -> Parsed<Option<Seq<char>>> {
    match var_name_optional(s, p) {
        Parsed::Done { used, value } => if is_kind(s, p + 1, TLTokenEnum::COLON) {
            Parsed::Done { used: 2, value }
        } else {
            Parsed::Done { used: 0, value: None }
        },
        _ => Parsed::Done { used: 0, value: None },
    }
}

/// The optional count of a repeated group: a term and `*`, or nothing.
pub open spec fn multiplicity_count(s: Seq<TokenView>, p: nat) -> Parsed<Option<ExpressionView>>
    decreases left(s, p), 2nat,
{
    match parse_term(s, p) {
        Parsed::Done { used, value } => if is_kind(s, p + used, TLTokenEnum::MULT) {
            Parsed::Done { used: used + 1, value: Some(value) }
        } else {
            Parsed::Done { used: 0, value: None }
        },
        Parsed::Mismatch { at } => Parsed::Done { used: 0, value: None },
        Parsed::Failure { at } => Parsed::Failure { at },
    }
}

/// A repeated group: an optional binder, an optional count, and zero or more
/// arguments between `[` and `]`. It is one argument that holds the nested
/// ones in order.
pub open spec fn parse_multiplicity_args(s: Seq<TokenView>, p: nat) -> Parsed<Seq<ArgView>>
    decreases left(s, p), 3nat,
{
    match multiplicity_binder(s, p) {
        Parsed::Done { used: b, value: name } => match multiplicity_count(s, p + b) {
            Parsed::Done { used: c, value: count } => if !is_kind(
                s,
                p + b + c,
                TLTokenEnum::OPSBR,
            ) {
                Parsed::Mismatch { at: p + b + c }
            } else {
                match many0_args(s, p + b + c + 1) {
                    Parsed::Done { used: n, value: groups } => if is_kind(
                        s,
                        p + b + c + 1 + n,
                        TLTokenEnum::CLSBR,
                    ) {
                        Parsed::Done {
                            used: b + c + n + 2,
                            value: seq![ArgView::MultiplicityArg(name, count, groups.flatten())],
                        }
                    } else {
                        Parsed::Mismatch { at: p + b + c + 1 + n }
                    },
                    r => refused(r),
                }
            },
            r => refused(r),
        },
        r => refused(r),
    }
}

/// A named argument: a binder, `:`, an optional condition, and a type.
pub open spec fn parse_simple_arg(s: Seq<TokenView>, p: nat) -> Parsed<Seq<ArgView>> {
    match var_name_optional(s, p) {
        Parsed::Done { used, value: name } => if !is_kind(s, p + 1, TLTokenEnum::COLON) {
            Parsed::Mismatch { at: p + 1 }
        } else {
            match optional(conditional(s, p + 2)) {
                Parsed::Done { used: c, value: cond } => match parse_type_term_with_bang(
                    s,
                    p + 2 + c,
                ) {
                    Parsed::Done { used: t, value: ty } => Parsed::Done {
                        used: 2 + c + t,
                        value: seq![
                            match cond {
                                Some(condition) => ArgView::ConditionalArg(name, condition, ty),
                                None => ArgView::Arg(name, ty),
                            },
                        ],
                    },
                    r => refused(r),
                },
                r => refused(r),
            }
        },
        r => refused(r),
    }
}

/// Several arguments of one type: `(`, one or more binders, `:`, a type,
/// `)`. It gives one argument for each binder, each with the type.
pub open spec fn parse_list_args(s: Seq<TokenView>, p: nat) -> Parsed<Seq<ArgView>> {
    if !is_kind(s, p, TLTokenEnum::OPBR) {
        Parsed::Mismatch { at: p }
    } else {
        match many1_var_name_optional(s, p + 1) {
            Parsed::Done { used: n, value: binders } => if !is_kind(
                s,
                p + 1 + n,
                TLTokenEnum::COLON,
            ) {
                Parsed::Mismatch { at: p + 1 + n }
            } else {
                match parse_type_term_with_bang(s, p + 2 + n) {
                    Parsed::Done { used: t, value: ty } => if is_kind(
                        s,
                        p + 2 + n + t,
                        TLTokenEnum::CLBR,
                    ) {
                        Parsed::Done {
                            used: n + t + 3,
                            value: Seq::new(binders.len(), |i: int| ArgView::Arg(binders[i], ty)),
                        }
                    } else {
                        Parsed::Mismatch { at: p + 2 + n + t }
                    },
                    r => refused(r),
                }
            },
            r => refused(r),
        }
    }
}

/// An argument without a binder: a type alone.
pub open spec fn parse_short_arg(s: Seq<TokenView>, p: nat) -> Parsed<Seq<ArgView>> {
    with_value(
        parse_type_term_with_bang(s, p),
        |ty: ExpressionView| seq![ArgView::Arg(None, ty)],
    )
}

/// One group of arguments: the first that matches of a repeated group, a
/// named argument, several arguments of one type and a type alone.
pub open spec fn parse_args(s: Seq<TokenView>, p: nat) -> Parsed<Seq<ArgView>>
    decreases left(s, p), 4nat,
{
    or_else(
        parse_multiplicity_args(s, p),
        or_else(parse_simple_arg(s, p), or_else(parse_list_args(s, p), parse_short_arg(s, p))),
    )
}

/// Zero or more groups of arguments.
pub open spec fn many0_args(s: Seq<TokenView>, p: nat) -> Parsed<Seq<Seq<ArgView>>>
    decreases left(s, p), 5nat,
{
    if p >= s.len() {
        Parsed::Done { used: 0, value: Seq::empty() }
    } else {
        match parse_args(s, p) {
            Parsed::Done { used, value } => if used == 0 {
                Parsed::Mismatch { at: p }
            } else {
                prepend(seq![value], used, many0_args(s, p + used))
            },
            Parsed::Mismatch { at } => Parsed::Done { used: 0, value: Seq::empty() },
            Parsed::Failure { at } => Parsed::Failure { at },
        }
    }
}

/// A group of optional arguments: `{`, one or more names, `:`, a type, `}`.
/// It gives one optional argument for each name, each with the type.
pub open spec fn parse_optional_args(s: Seq<TokenView>, p: nat) -> Parsed<Seq<ArgView>> {
    if !is_kind(s, p, TLTokenEnum::OPCBR) {
        Parsed::Mismatch { at: p }
    } else {
        match many1_var_name(s, p + 1) {
            Parsed::Done { used: n, value: names } => if !is_kind(
                s,
                p + 1 + n,
                TLTokenEnum::COLON,
            ) {
                Parsed::Mismatch { at: p + 1 + n }
            } else {
                match parse_type_term_with_bang(s, p + 2 + n) {
                    Parsed::Done { used: t, value: ty } => if is_kind(
                        s,
                        p + 2 + n + t,
                        TLTokenEnum::CLSCBR,
                    ) {
                        Parsed::Done {
                            used: n + t + 3,
                            value: Seq::new(names.len(), |i: int| ArgView::OptArg(names[i], ty)),
                        }
                    } else {
                        Parsed::Mismatch { at: p + 2 + n + t }
                    },
                    r => refused(r),
                }
            },
            r => refused(r),
        }
    }
}

/// Zero or more groups of optional arguments.
pub open spec fn many0_optional_args(s: Seq<TokenView>, p: nat) -> Parsed<Seq<Seq<ArgView>>>
    decreases left(s, p),
{
    if p >= s.len() {
        Parsed::Done { used: 0, value: Seq::empty() }
    } else {
        match parse_optional_args(s, p) {
            Parsed::Done { used, value } => if used == 0 {
                Parsed::Mismatch { at: p }
            } else {
                prepend(seq![value], used, many0_optional_args(s, p + used))
            },
            Parsed::Mismatch { at } => Parsed::Done { used: 0, value: Seq::empty() },
            Parsed::Failure { at } => Parsed::Failure { at },
        }
    }
}

// ---------------------------------------------------------------------------
// Declarations
// ---------------------------------------------------------------------------
/// A combinator: its name, groups of optional arguments, groups of
/// arguments, `=`, the result type, `;`. The optional arguments come first
/// in the argument list.
pub open spec fn parse_combinator(s: Seq<TokenView>, p: nat) -> Parsed<CombinatorView> {
    match combinator_name(s, p) {
        Parsed::Done { used: n, value: identifier } => match many0_optional_args(s, p + n) {
            Parsed::Done { used: o, value: optional_groups } => match many0_args(s, p + n + o) {
                Parsed::Done { used: a, value: groups } => if !is_kind(
                    s,
                    p + n + o + a,
                    TLTokenEnum::EQ,
                ) {
                    Parsed::Mismatch { at: p + n + o + a }
                } else {
                    match parse_result_type(s, p + n + o + a + 1) {
                        Parsed::Done { used: t, value: result_type } => if is_kind(
                            s,
                            p + n + o + a + 1 + t,
                            TLTokenEnum::SEMICOLON,
                        ) {
                            Parsed::Done {
                                used: n + o + a + t + 2,
                                value: CombinatorView {
                                    identifier,
                                    args: optional_groups.flatten() + groups.flatten(),
                                    result_type,
                                },
                            }
                        } else {
                            Parsed::Mismatch { at: p + n + o + a + 1 + t }
                        },
                        r => refused(r),
                    }
                },
                r => refused(r),
            },
            r => refused(r),
        },
        r => refused(r),
    }
}

/// A built-in: a combinator name, `?`, `=`, the result type, `;`. It has no arguments.
pub open spec fn parse_builtin(s: Seq<TokenView>, p: nat) -> Parsed<CombinatorView> {
    match combinator_name(s, p) {
        Parsed::Done { used: n, value: identifier } => if !is_kind(
            s,
            p + n,
            TLTokenEnum::QMARK,
        ) {
            Parsed::Mismatch { at: p + n }
        } else if !is_kind(s, p + n + 1, TLTokenEnum::EQ) {
            Parsed::Mismatch { at: p + n + 1 }
        } else {
            match parse_result_type(s, p + n + 2) {
                Parsed::Done { used: t, value: result_type } => if is_kind(
                    s,
                    p + n + 2 + t,
                    TLTokenEnum::SEMICOLON,
                ) {
                    Parsed::Done {
                        used: n + t + 3,
                        value: CombinatorView { identifier, args: Seq::empty(), result_type },
                    }
                } else {
                    Parsed::Mismatch { at: p + n + 2 + t }
                },
                r => refused(r),
            }
        },
        r => refused(r),
    }
}

/// Is the token of this category one of the reserved words `Final`, `New`, `Empty`?
pub open spec fn is_final_word(kind: TLTokenEnum) -> bool {
    kind == TLTokenEnum::FINAL || kind == TLTokenEnum::NEW || kind == TLTokenEnum::EMPTY
}

/// The word that leads a final declaration: one of the reserved words, or
/// an upper-case name, which is judged once the declaration has committed.
pub open spec fn final_head(s: Seq<TokenView>, p: nat) -> Parsed<NameView> {
    if p < s.len() && is_final_word(s[p as int].kind) {
        Parsed::Done { used: 1, value: NameView::Name(text_at(s, p)) }
    } else {
        uc_ident(s, p)
    }
}

/// The final declaration that the word `head` makes of the type `subject`,
/// if `head` is one of `Final`, `New`, `Empty` without a namespace and
/// `subject` has no namespace either.
pub open spec fn final_of(head: NameView, subject: NameView) -> Option<FinalView> {
    match (head, subject) {
        (NameView::Name(word), NameView::Name(_)) => if word == "Final"@ {
            Some(FinalView::Final(subject))
        } else if word == "New"@ {
            Some(FinalView::New(subject))
        } else if word == "Empty"@ {
            Some(FinalView::Empty(subject))
        } else {
            None
        },
        _ => None,
    }
}

/// A final declaration: the leading word, the subject, `;`.
///
/// Two upper-case words in a row commit the rule: after them, a leading
/// word other than `Final`, `New` or `Empty`, a subject with a namespace or
/// a missing `;` is a hard failure, reported at the start of the declaration.
pub open spec fn parse_final(s: Seq<TokenView>, p: nat) -> Parsed<FinalView> {
    match final_head(s, p) {
        Parsed::Done { used: h, value: head } => match uc_ident(s, p + h) {
            Parsed::Done { used: n, value: subject } => if final_of(head, subject) is Some
                && is_kind(s, p + h + n, TLTokenEnum::SEMICOLON) {
                Parsed::Done { used: h + n + 1, value: final_of(head, subject)->0 }
            } else {
                Parsed::Failure { at: p }
            },
            r => refused(r),
        },
        r => refused(r),
    }
}

/// A declaration: the first that matches of a combinator, a built-in and a
/// final declaration.
pub open spec fn parse_declaration(s: Seq<TokenView>, p: nat) -> Parsed<DeclarationView> {
    or_else(
        with_value(parse_combinator(s, p), |c: CombinatorView| DeclarationView::Combinator(c)),
        or_else(
            with_value(parse_builtin(s, p), |c: CombinatorView| DeclarationView::BuiltIn(c)),
            with_value(parse_final(s, p), |f: FinalView| DeclarationView::Final(f)),
        ),
    )
}

/// Zero or more declarations.
pub open spec fn many0_declaration(s: Seq<TokenView>, p: nat) -> Parsed<Seq<DeclarationView>>
    decreases left(s, p),
{
    if p >= s.len() {
        Parsed::Done { used: 0, value: Seq::empty() }
    } else {
        match parse_declaration(s, p) {
            Parsed::Done { used, value } => if used == 0 {
                Parsed::Mismatch { at: p }
            } else {
                prepend(seq![value], used, many0_declaration(s, p + used))
            },
            Parsed::Mismatch { at } => Parsed::Done { used: 0, value: Seq::empty() },
            Parsed::Failure { at } => Parsed::Failure { at },
        }
    }
}

// ---------------------------------------------------------------------------
// Programs
// ---------------------------------------------------------------------------
/// An explicit block: `---`, the word `Functions` or `Types`, `---`, and
/// zero or more declarations. The word gives the sort of the block.
pub open spec fn parse_block(s: Seq<TokenView>, p: nat) -> Parsed<DeclarationBlockView> {
    if !is_kind(s, p, TLTokenEnum::SEPARATOR) {
        Parsed::Mismatch { at: p }
    } else if !is_kind(s, p + 1, TLTokenEnum::FUNCTIONS) && !is_kind(
        s,
        p + 1,
        TLTokenEnum::TYPES,
    ) {
        Parsed::Mismatch { at: p + 1 }
    } else if !is_kind(s, p + 2, TLTokenEnum::SEPARATOR) {
        Parsed::Mismatch { at: p + 2 }
    } else {
        match many0_declaration(s, p + 3) {
            Parsed::Done { used, value } => Parsed::Done {
                used: used + 3,
                value: if is_kind(s, p + 1, TLTokenEnum::FUNCTIONS) {
                    DeclarationBlockView::Functions(value)
                } else {
                    DeclarationBlockView::Types(value)
                },
            },
            r => refused(r),
        }
    }
}

/// Zero or more explicit blocks.
pub open spec fn many0_block(s: Seq<TokenView>, p: nat) -> Parsed<Seq<DeclarationBlockView>>
    decreases left(s, p),
{
    if p >= s.len() {
        Parsed::Done { used: 0, value: Seq::empty() }
    } else {
        match parse_block(s, p) {
            Parsed::Done { used, value } => if used == 0 {
                Parsed::Mismatch { at: p }
            } else {
                prepend(seq![value], used, many0_block(s, p + used))
            },
            Parsed::Mismatch { at } => Parsed::Done { used: 0, value: Seq::empty() },
            Parsed::Failure { at } => Parsed::Failure { at },
        }
    }
}

/// A program: the declarations before the first separator, which form a
/// block of types even where there are none, then the explicit blocks.
pub open spec fn parse_program(s: Seq<TokenView>, p: nat) -> Parsed<ProgramView> {
    match many0_declaration(s, p) {
        Parsed::Done { used, value: leading } => match many0_block(s, p + used) {
            Parsed::Done { used: more, value: blocks } => Parsed::Done {
                used: used + more,
                value: ProgramView {
                    blocks: seq![DeclarationBlockView::Types(leading)] + blocks,
                },
            },
            r => refused(r),
        },
        r => refused(r),
    }
}

} // verus!
