//! The rules for terms and expressions.

use crate::ast::{
    lemma_sequence_view, ExpressionView, TLExpression, TLOperator, TLTypeIdent,
};
use crate::grammar;
use crate::grammar::{left, prepend, Parsed};
use crate::lexer::{TLTokenEnum, Tokens};
use crate::rules::{
    lemma_prepend_twice, nat_const, tag, type_ident, uc_ident, yields, TLParseError, TLParser,
};
use vstd::prelude::*;

verus! {

/// A term: the first that matches of a parenthesised expression, a `%`
/// term, `#`, a natural number, a generic application and a bare type name.
pub fn parse_term<'a>(input: Tokens<'a>) -> (r: TLParser<'a, TLExpression>)
    ensures
        yields(r, input, grammar::parse_term(input.stream(), input.start as nat)),
    decreases left(input.stream(), input.start as nat), 1nat,
{
    match parse_term_full_expression(input) {
        Err(TLParseError::Mismatch { position }) => {},
        r => {
            return r;
        },
    }
    match parse_term_operator(input) {
        Err(TLParseError::Mismatch { position }) => {},
        r => {
            return r;
        },
    }
    if tag(input, TLTokenEnum::NUM).is_some() {
        return Ok((input.advance(), TLExpression::Hash));
    }
    match nat_const(input) {
        Ok((rest, n)) => {
            return Ok((rest, TLExpression::Nat(n)));
        },
        Err(TLParseError::Mismatch { position }) => {},
        Err(e) => {
            return Err(e);
        },
    }
    match parse_term_brackets(input) {
        Err(TLParseError::Mismatch { position }) => {},
        r => {
            return r;
        },
    }
    match type_ident(input) {
        Ok((rest, ident)) => Ok((rest, TLExpression::Ident(ident))),
        Err(e) => Err(e),
    }
}

/// A generic application: a type name and, in angle brackets, one or more
/// groups of expressions separated by commas.
fn parse_term_brackets<'a>(input: Tokens<'a>) -> (r: TLParser<'a, TLExpression>)
    ensures
        yields(r, input, grammar::parse_term_brackets(input.stream(), input.start as nat)),
    decreases left(input.stream(), input.start as nat), 0nat,
{
    let (rest, ident) = match type_ident(input) {
        Ok(found) => found,
        Err(e) => {
            return Err(e);
        },
    };
    if tag(rest, TLTokenEnum::LESSTHAN).is_none() {
        return Err(TLParseError::Mismatch { position: rest.start });
    }
    let (rest, groups) = match expression_groups(rest.advance()) {
        Ok(found) => found,
        Err(e) => {
            return Err(e);
        },
    };
    if tag(rest, TLTokenEnum::GREATERTHAN).is_none() {
        return Err(TLParseError::Mismatch { position: rest.start });
    }
    proof {
        lemma_sequence_view(groups);
    }
    let items = vec![TLExpression::Ident(ident), TLExpression::Expression(groups)];
    proof {
        lemma_sequence_view(items);
        assert(items.deep_view() =~= seq![
            ExpressionView::Ident(ident@),
            ExpressionView::Expression(groups.deep_view()),
        ]);
    }
    Ok((rest.advance(), TLExpression::Expression(items)))
}

/// One or more groups of expressions separated by commas.
#[verifier::rlimit(40)]
fn expression_groups<'a>(input: Tokens<'a>) -> (r: TLParser<'a, Vec<TLExpression>>)
    ensures
        yields(r, input, grammar::expression_groups(input.stream(), input.start as nat)),
    decreases left(input.stream(), input.start as nat), 6nat,
{
    let ghost s = input.stream();
    let ghost p = input.start as nat;
    let (first_rest, first) = match many1_expression(input) {
        Ok(found) => found,
        Err(e) => {
            return Err(e);
        },
    };
    if first_rest.start == input.start {
        return Err(TLParseError::Mismatch { position: input.start });
    }
    let mut groups: Vec<TLExpression> = Vec::new();
    proof {
        lemma_sequence_view(first);
    }
    groups.push(TLExpression::Expression(first));
    let mut cur = first_rest;
    assert(groups.deep_view() =~= seq![ExpressionView::Expression(first.deep_view())]);
    loop
        invariant
            s == input.stream(),
            p == input.start,
            cur.tok == input.tok,
            cur.end == input.end,
            cur.start > input.start,
            grammar::expression_groups(s, p) == prepend(
                groups.deep_view(),
                (cur.start - input.start) as nat,
                grammar::more_expression_groups(s, cur.start as nat),
            ),
        decreases left(s, cur.start as nat),
    {
        if tag(cur, TLTokenEnum::COMA).is_none() {
            assert(groups.deep_view() + Seq::empty() =~= groups.deep_view());
            return Ok((cur, groups));
        }
        let ghost found = grammar::many1_expression(s, cur.start as nat + 1);
        match many1_expression(cur.advance()) {
            Ok((rest, group)) => {
                proof {
                    lemma_sequence_view(group);
                    assert(found == Parsed::Done {
                        used: (rest.start - cur.start - 1) as nat,
                        value: group.deep_view(),
                    });
                    assert(grammar::more_expression_groups(s, cur.start as nat) == prepend(
                        seq![ExpressionView::Expression(group.deep_view())],
                        (rest.start - cur.start) as nat,
                        grammar::more_expression_groups(s, rest.start as nat),
                    ));
                    lemma_prepend_twice(
                        groups.deep_view(),
                        (cur.start - input.start) as nat,
                        ExpressionView::Expression(group.deep_view()),
                        (rest.start - cur.start) as nat,
                        grammar::more_expression_groups(s, rest.start as nat),
                    );
                }
                let ghost before = groups.deep_view();
                let node = TLExpression::Expression(group);
                groups.push(node);
                assert(groups.deep_view() =~= before.push(node@));
                cur = rest;
            },
            Err(TLParseError::Mismatch { position }) => {
                assert(groups.deep_view() + Seq::empty() =~= groups.deep_view());
                return Ok((cur, groups));
            },
            Err(e) => {
                return Err(e);
            },
        }
    }
}

/// `(` expressions `)`.
fn parse_term_full_expression<'a>(input: Tokens<'a>) -> (r: TLParser<'a, TLExpression>)
    ensures
        yields(r, input, grammar::parse_term_full_expression(input.stream(), input.start as nat)),
    decreases left(input.stream(), input.start as nat), 0nat,
{
    if tag(input, TLTokenEnum::OPBR).is_none() {
        return Err(TLParseError::Mismatch { position: input.start });
    }
    let (rest, inner) = match parse_full_expression(input.advance()) {
        Ok(found) => found,
        Err(e) => {
            return Err(e);
        },
    };
    if tag(rest, TLTokenEnum::CLBR).is_none() {
        return Err(TLParseError::Mismatch { position: rest.start });
    }
    Ok((rest.advance(), inner))
}

/// `%` term: the term under the operator `Bang`.
fn parse_term_operator<'a>(input: Tokens<'a>) -> (r: TLParser<'a, TLExpression>)
    ensures
        yields(r, input, grammar::parse_term_operator(input.stream(), input.start as nat)),
    decreases left(input.stream(), input.start as nat), 0nat,
{
    if tag(input, TLTokenEnum::PERCENT).is_none() {
        return Err(TLParseError::Mismatch { position: input.start });
    }
    match parse_term(input.advance()) {
        Ok((rest, term)) => Ok((rest, TLExpression::Operator(TLOperator::Bang, Box::new(term)))),
        Err(e) => Err(e),
    }
}

/// The continuation of a sum: `+`, a natural number, and an expression or nothing.
fn parse_expression_hp<'a>(input: Tokens<'a>) -> (r: TLParser<'a, TLExpression>)
    ensures
        yields(r, input, grammar::parse_expression_hp(input.stream(), input.start as nat)),
    decreases left(input.stream(), input.start as nat), 1nat,
{
    if tag(input, TLTokenEnum::PLUS).is_none() {
        return Err(TLParseError::Mismatch { position: input.start });
    }
    let (rest, n) = match nat_const(input.advance()) {
        Ok(found) => found,
        Err(e) => {
            return Err(e);
        },
    };
    let (rest, expr) = match empty(rest, parse_expression(rest)) {
        Ok(found) => found,
        Err(e) => {
            return Err(e);
        },
    };
    let items = vec![TLExpression::Nat(n), expr];
    proof {
        lemma_sequence_view(items);
        assert(items.deep_view() =~= seq![ExpressionView::Nat(n), expr@]);
    }
    Ok((rest, TLExpression::Operator(TLOperator::Plus, Box::new(TLExpression::Expression(items)))))
}

/// Zero or more expressions, as one expression: their sequence.
pub fn parse_full_expression<'a>(input: Tokens<'a>) -> (r: TLParser<'a, TLExpression>)
    ensures
        yields(r, input, grammar::parse_full_expression(input.stream(), input.start as nat)),
    decreases left(input.stream(), input.start as nat), 5nat,
{
    match many0_expression(input) {
        Ok((rest, terms)) => {
            proof {
                lemma_sequence_view(terms);
            }
            Ok((rest, TLExpression::Expression(terms)))
        },
        Err(e) => Err(e),
    }
}

/// Makes an optional rule of the result `r` that a rule for an expression
/// gave on `input`: a mismatch becomes a match of no tokens with the node
/// `Empty`. Anything else is handed on.
pub fn empty<'a>(input: Tokens<'a>, r: TLParser<'a, TLExpression>) -> (out: TLParser<
    'a,
    TLExpression,
>)
    ensures
        match r {
            Err(TLParseError::Mismatch { position }) => out == Ok::<
                (Tokens<'a>, TLExpression),
                TLParseError,
            >((input, TLExpression::Empty)),
            _ => out == r,
        },
        forall|expected: Parsed<ExpressionView>| #[trigger]
            yields(r, input, expected) ==> yields(out, input, grammar::or_empty(expected)),
{
    match r {
        Err(TLParseError::Mismatch { position }) => Ok((input, TLExpression::Empty)),
        other => other,
    }
}

/// Zero or more expressions.
#[verifier::rlimit(40)]
pub fn many0_expression<'a>(input: Tokens<'a>) -> (r: TLParser<'a, Vec<TLExpression>>)
    ensures
        yields(r, input, grammar::many0_expression(input.stream(), input.start as nat)),
    decreases left(input.stream(), input.start as nat), 4nat,
{
    let ghost s = input.stream();
    let ghost p = input.start as nat;
    let mut items: Vec<TLExpression> = Vec::new();
    let mut cur = input;
    assert(items.deep_view() =~= Seq::empty());
    assert(prepend(Seq::empty(), 0, grammar::many0_expression(s, p)) == grammar::many0_expression(
        s,
        p,
    )) by {
        lemma_prepend_nothing(grammar::many0_expression(s, p));
    }
    loop
        invariant
            s == input.stream(),
            p == input.start,
            cur.tok == input.tok,
            cur.end == input.end,
            cur.start >= input.start,
            grammar::many0_expression(s, p) == prepend(
                items.deep_view(),
                (cur.start - input.start) as nat,
                grammar::many0_expression(s, cur.start as nat),
            ),
        decreases left(s, cur.start as nat),
    {
        if cur.first().is_none() {
            assert(items.deep_view() + Seq::empty() =~= items.deep_view());
            return Ok((cur, items));
        }
        match parse_expression(cur) {
            Ok((rest, item)) => {
                if rest.start == cur.start {
                    return Err(TLParseError::Mismatch { position: cur.start });
                }
                proof {
                    lemma_prepend_twice(
                        items.deep_view(),
                        (cur.start - input.start) as nat,
                        item@,
                        (rest.start - cur.start) as nat,
                        grammar::many0_expression(s, rest.start as nat),
                    );
                }
                let ghost before = items.deep_view();
                items.push(item);
                assert(items.deep_view() =~= before.push(item@));
                cur = rest;
            },
            Err(TLParseError::Mismatch { position }) => {
                assert(items.deep_view() + Seq::empty() =~= items.deep_view());
                return Ok((cur, items));
            },
            Err(e) => {
                return Err(e);
            },
        }
    }
}

/// Prepending nothing changes nothing.
proof fn lemma_prepend_nothing<T>(rest: Parsed<Seq<T>>)
    ensures
        prepend(Seq::empty(), 0, rest) == rest,
{
    match rest {
        Parsed::Done { used, value } => {
            assert(Seq::<T>::empty() + value =~= value);
        },
        _ => {},
    }
}

/// One or more expressions.
fn many1_expression<'a>(input: Tokens<'a>) -> (r: TLParser<'a, Vec<TLExpression>>)
    ensures
        yields(r, input, grammar::many1_expression(input.stream(), input.start as nat)),
    decreases left(input.stream(), input.start as nat), 5nat,
{
    let (rest, first) = match parse_expression(input) {
        Ok(found) => found,
        Err(e) => {
            return Err(e);
        },
    };
    match many0_expression(rest) {
        Ok((rest, mut more)) => {
            let ghost tail = more.deep_view();
            more.insert(0, first);
            assert(more.deep_view() =~= seq![first@] + tail);
            Ok((rest, more))
        },
        Err(e) => Err(e),
    }
}

/// An expression: a term with its continuation, else a sum that leads with
/// a number.
pub fn parse_expression<'a>(input: Tokens<'a>) -> (r: TLParser<'a, TLExpression>)
    ensures
        yields(r, input, grammar::parse_expression(input.stream(), input.start as nat)),
    decreases left(input.stream(), input.start as nat), 3nat,
{
    match expression_of_term(input) {
        Err(TLParseError::Mismatch { position }) => expression_of_sum(input),
        r => r,
    }
}

/// A term and its continuation, which is `Empty` where there is none.
fn expression_of_term<'a>(input: Tokens<'a>) -> (r: TLParser<'a, TLExpression>)
    ensures
        yields(r, input, grammar::expression_of_term(input.stream(), input.start as nat)),
    decreases left(input.stream(), input.start as nat), 2nat,
{
    let (rest, term) = match parse_term(input) {
        Ok(found) => found,
        Err(e) => {
            return Err(e);
        },
    };
    let (rest, tail) = match empty(rest, parse_expression_hp(rest)) {
        Ok(found) => found,
        Err(e) => {
            return Err(e);
        },
    };
    let items = vec![term, tail];
    proof {
        lemma_sequence_view(items);
        assert(items.deep_view() =~= seq![term@, tail@]);
    }
    Ok((rest, TLExpression::Expression(items)))
}

/// A sum that leads with a number: a natural number, `+`, an expression and
/// a continuation, under the operator `Plus`.
fn expression_of_sum<'a>(input: Tokens<'a>) -> (r: TLParser<'a, TLExpression>)
    ensures
        yields(r, input, grammar::expression_of_sum(input.stream(), input.start as nat)),
    decreases left(input.stream(), input.start as nat), 2nat,
{
    let (rest, n) = match nat_const(input) {
        Ok(found) => found,
        Err(e) => {
            return Err(e);
        },
    };
    if tag(rest, TLTokenEnum::PLUS).is_none() {
        return Err(TLParseError::Mismatch { position: rest.start });
    }
    let (rest, expr) = match parse_expression(rest.advance()) {
        Ok(found) => found,
        Err(e) => {
            return Err(e);
        },
    };
    let (rest, tail) = match empty(rest, parse_expression_hp(rest)) {
        Ok(found) => found,
        Err(e) => {
            return Err(e);
        },
    };
    let items = vec![TLExpression::Nat(n), expr, tail];
    proof {
        lemma_sequence_view(items);
        assert(items.deep_view() =~= seq![ExpressionView::Nat(n), expr@, tail@]);
    }
    Ok((rest, TLExpression::Operator(TLOperator::Plus, Box::new(TLExpression::Expression(items)))))
}

/// One or more sequences of expressions separated by commas.
#[verifier::rlimit(40)]
fn full_expression_groups<'a>(input: Tokens<'a>) -> (r: TLParser<'a, Vec<TLExpression>>)
    ensures
        yields(r, input, grammar::full_expression_groups(input.stream(), input.start as nat)),
{
    let ghost s = input.stream();
    let ghost p = input.start as nat;
    let (first_rest, first) = match parse_full_expression(input) {
        Ok(found) => found,
        Err(e) => {
            return Err(e);
        },
    };
    if first_rest.start == input.start {
        return Err(TLParseError::Mismatch { position: input.start });
    }
    let mut groups: Vec<TLExpression> = Vec::new();
    groups.push(first);
    let mut cur = first_rest;
    assert(groups.deep_view() =~= seq![first@]);
    loop
        invariant
            s == input.stream(),
            p == input.start,
            cur.tok == input.tok,
            cur.end == input.end,
            cur.start > input.start,
            grammar::full_expression_groups(s, p) == prepend(
                groups.deep_view(),
                (cur.start - input.start) as nat,
                grammar::more_full_expression_groups(s, cur.start as nat),
            ),
        decreases left(s, cur.start as nat),
    {
        if tag(cur, TLTokenEnum::COMA).is_none() {
            assert(groups.deep_view() + Seq::empty() =~= groups.deep_view());
            return Ok((cur, groups));
        }
        let ghost found = grammar::parse_full_expression(s, cur.start as nat + 1);
        match parse_full_expression(cur.advance()) {
            Ok((rest, group)) => {
                proof {
                    assert(found == Parsed::Done {
                        used: (rest.start - cur.start - 1) as nat,
                        value: group@,
                    });
                    assert(grammar::more_full_expression_groups(s, cur.start as nat) == prepend(
                        seq![group@],
                        (rest.start - cur.start) as nat,
                        grammar::more_full_expression_groups(s, rest.start as nat),
                    ));
                    lemma_prepend_twice(
                        groups.deep_view(),
                        (cur.start - input.start) as nat,
                        group@,
                        (rest.start - cur.start) as nat,
                        grammar::more_full_expression_groups(s, rest.start as nat),
                    );
                }
                let ghost before = groups.deep_view();
                groups.push(group);
                assert(groups.deep_view() =~= before.push(group@));
                cur = rest;
            },
            Err(TLParseError::Mismatch { position }) => {
                assert(groups.deep_view() + Seq::empty() =~= groups.deep_view());
                return Ok((cur, groups));
            },
            Err(e) => {
                return Err(e);
            },
        }
    }
}

/// The arguments of a result type in angle brackets.
fn parse_result_type_helper<'a>(input: Tokens<'a>) -> (r: TLParser<'a, Vec<TLExpression>>)
    ensures
        yields(r, input, grammar::parse_result_type_helper(input.stream(), input.start as nat)),
{
    if tag(input, TLTokenEnum::LESSTHAN).is_none() {
        return Err(TLParseError::Mismatch { position: input.start });
    }
    let (rest, groups) = match full_expression_groups(input.advance()) {
        Ok(found) => found,
        Err(e) => {
            return Err(e);
        },
    };
    if tag(rest, TLTokenEnum::GREATERTHAN).is_none() {
        return Err(TLParseError::Mismatch { position: rest.start });
    }
    Ok((rest.advance(), groups))
}

/// A result type: an upper-case name, then its arguments in angle brackets,
/// else zero or more expressions.
pub fn parse_result_type<'a>(input: Tokens<'a>) -> (r: TLParser<'a, TLExpression>)
    ensures
        yields(r, input, grammar::parse_result_type(input.stream(), input.start as nat)),
{
    let (rest, ident) = match uc_ident(input) {
        Ok(found) => found,
        Err(e) => {
            return Err(e);
        },
    };
    let arguments = match parse_result_type_helper(rest) {
        Err(TLParseError::Mismatch { position }) => many0_expression(rest),
        r => r,
    };
    let (rest, mut exprs) = match arguments {
        Ok(found) => found,
        Err(e) => {
            return Err(e);
        },
    };
    let name = TLExpression::Ident(TLTypeIdent::Upper(ident));
    let mut exprs_with_ident = vec![name];
    let ghost tail = exprs.deep_view();
    exprs_with_ident.append(&mut exprs);
    proof {
        lemma_sequence_view(exprs_with_ident);
        assert(exprs_with_ident.deep_view() =~= seq![name@] + tail);
    }
    Ok((rest, TLExpression::Expression(exprs_with_ident)))
}

/// The type of an argument: a term, or `!` and a term under the operator `Bang`.
pub fn parse_type_term_with_bang<'a>(input: Tokens<'a>) -> (r: TLParser<'a, TLExpression>)
    ensures
        yields(r, input, grammar::parse_type_term_with_bang(input.stream(), input.start as nat)),
{
    if tag(input, TLTokenEnum::EXCLMARK).is_some() {
        match parse_term(input.advance()) {
            Ok((rest, term)) => Ok(
                (rest, TLExpression::Operator(TLOperator::Bang, Box::new(term))),
            ),
            Err(e) => Err(e),
        }
    } else {
        parse_term(input)
    }
}

} // verus!
