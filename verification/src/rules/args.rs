//! The rules for the arguments of a combinator.

use crate::ast::{
    lemma_multiplicity_view, ArgView, TLArg, TLCondition, TLExpression, TLVarName,
};
use crate::grammar;
use crate::grammar::{left, prepend, Parsed};
use crate::lexer::{TLTokenEnum, Tokens};
use crate::rules::expressions::{parse_term, parse_type_term_with_bang};
use crate::rules::{
    lemma_prepend_twice, nat_const, tag, var_name, var_name_optional, yields, TLParseError,
    TLParser,
};
use vstd::prelude::*;

verus! {

/// A condition: the name of a flags field, `.`, a bit number, `?`.
fn conditional<'a>(input: Tokens<'a>) -> (r: TLParser<'a, TLCondition>)
    ensures
        yields(r, input, grammar::conditional(input.stream(), input.start as nat)),
{
    let (rest, name) = match var_name(input) {
        Ok(found) => found,
        Err(e) => {
            return Err(e);
        },
    };
    if tag(rest, TLTokenEnum::STOP).is_none() {
        return Err(TLParseError::Mismatch { position: rest.start });
    }
    let (rest, bit) = match nat_const(rest.advance()) {
        Ok(found) => found,
        Err(e) => {
            return Err(e);
        },
    };
    if tag(rest, TLTokenEnum::QMARK).is_none() {
        return Err(TLParseError::Mismatch { position: rest.start });
    }
    Ok((rest.advance(), TLCondition::Condition(name, bit)))
}

/// The binder inside an optional binder, if both are there.
pub fn flatten(m: Option<Option<TLVarName>>) -> (r: Option<TLVarName>)
    ensures
        r == match m {
            Some(inner) => inner,
            None => None,
        },
{
    match m {
        Some(m) => m,
        None => None,
    }
}

/// The optional binder of a repeated group: a binder and `:`, or nothing.
fn multiplicity_binder<'a>(input: Tokens<'a>) -> (r: (Tokens<'a>, Option<Option<TLVarName>>))
    ensures
        yields(
            Ok::<(Tokens<'a>, Option<TLVarName>), TLParseError>(
                (
                    r.0,
                    match r.1 {
                        Some(inner) => inner,
                        None => None,
                    },
                ),
            ),
            input,
            grammar::multiplicity_binder(input.stream(), input.start as nat),
        ),
{
    match var_name_optional(input) {
        Ok((rest, name)) => if tag(rest, TLTokenEnum::COLON).is_some() {
            (rest.advance(), Some(name))
        } else {
            (input, None)
        },
        Err(_) => (input, None),
    }
}

/// The optional count of a repeated group: a term and `*`, or nothing.
fn multiplicity_count<'a>(input: Tokens<'a>) -> (r: TLParser<'a, Option<TLExpression>>)
    ensures
        yields(r, input, grammar::multiplicity_count(input.stream(), input.start as nat)),
{
    match parse_term(input) {
        Ok((rest, term)) => if tag(rest, TLTokenEnum::MULT).is_some() {
            Ok((rest.advance(), Some(term)))
        } else {
            Ok((input, None))
        },
        Err(TLParseError::Mismatch { position }) => Ok((input, None)),
        Err(e) => Err(e),
    }
}

/// A repeated group: an optional binder, an optional count, and zero or
/// more arguments between `[` and `]`. The result is one argument that
/// holds the nested ones in order.
pub fn parse_multiplicity_args<'a>(input: Tokens<'a>) -> (r: TLParser<'a, Vec<TLArg>>)
    ensures
        yields(r, input, grammar::parse_multiplicity_args(input.stream(), input.start as nat)),
    decreases left(input.stream(), input.start as nat), 3nat,
{
    let (rest, name_opt) = multiplicity_binder(input);
    let (rest, term_opt) = match multiplicity_count(rest) {
        Ok(found) => found,
        Err(e) => {
            return Err(e);
        },
    };
    if tag(rest, TLTokenEnum::OPSBR).is_none() {
        return Err(TLParseError::Mismatch { position: rest.start });
    }
    let (rest, args) = match many0_args(rest.advance()) {
        Ok(found) => found,
        Err(e) => {
            return Err(e);
        },
    };
    if tag(rest, TLTokenEnum::CLSBR).is_none() {
        return Err(TLParseError::Mismatch { position: rest.start });
    }
    let mut all_args: Vec<TLArg> = Vec::new();
    flatten_args(&mut all_args, args);
    let name = flatten(name_opt);
    proof {
        lemma_multiplicity_view(name, term_opt, all_args);
        assert(Seq::<ArgView>::empty() + args.deep_view().flatten() =~= args.deep_view().flatten());
    }
    let group = vec![TLArg::MultiplicityArg(name, term_opt, all_args)];
    assert(group.deep_view() =~= seq![
        ArgView::MultiplicityArg(
            name.deep_view(),
            term_opt.deep_view(),
            args.deep_view().flatten(),
        ),
    ]);
    Ok((rest.advance(), group))
}

/// Moves the arguments of every group of `args_args`, in order, to the end
/// of `accum_args`.
pub fn flatten_args(accum_args: &mut Vec<TLArg>, args_args: Vec<Vec<TLArg>>)
    ensures
        final(accum_args).deep_view() == old(accum_args).deep_view()
            + args_args.deep_view().flatten(),
{
    let ghost before = accum_args.deep_view();
    let ghost groups = args_args.deep_view();
    let mut rest = args_args;
    let mut taken: Vec<Vec<TLArg>> = Vec::new();
    // The groups leave `rest` from its end, so they are turned round first.
    while rest.len() > 0
        invariant
            rest.len() + taken.len() == groups.len(),
            forall|i: int| 0 <= i < rest.len() ==> rest@[i].deep_view() == groups[i],
            forall|i: int|
                0 <= i < taken.len() ==> taken@[i].deep_view() == groups[groups.len() - 1 - i],
        decreases rest.len(),
    {
        match rest.pop() {
            Some(group) => {
                taken.push(group);
            },
            None => {},
        }
    }
    let ghost mut done: int = 0;
    while taken.len() > 0
        invariant
            0 <= done <= groups.len(),
            taken.len() + done == groups.len(),
            forall|i: int|
                0 <= i < taken.len() ==> taken@[i].deep_view() == groups[groups.len() - 1 - i],
            accum_args.deep_view() == before + groups.take(done).flatten(),
        decreases taken.len(),
    {
        match taken.pop() {
            Some(mut group) => {
                let ghost prior = accum_args.deep_view();
                let ghost added = group.deep_view();
                accum_args.append(&mut group);
                proof {
                    assert(accum_args.deep_view() =~= prior + added);
                    assert(added == groups[done]);
                    assert(groups.take(done + 1) =~= groups.take(done).push(groups[done]));
                    groups.take(done).lemma_flatten_push(groups[done]);
                    assert(before + (groups.take(done).flatten() + added) =~= before
                        + groups.take(done).flatten() + added);
                    done = done + 1;
                }
            },
            None => {},
        }
    }
    assert(groups.take(done) =~= groups);
}

/// A named argument: a binder, `:`, an optional condition, and a type.
fn parse_simple_arg<'a>(input: Tokens<'a>) -> (r: TLParser<'a, Vec<TLArg>>)
    ensures
        yields(r, input, grammar::parse_simple_arg(input.stream(), input.start as nat)),
{
    let (rest, name) = match var_name_optional(input) {
        Ok(found) => found,
        Err(e) => {
            return Err(e);
        },
    };
    if tag(rest, TLTokenEnum::COLON).is_none() {
        return Err(TLParseError::Mismatch { position: rest.start });
    }
    let rest = rest.advance();
    let (rest, cond) = match conditional(rest) {
        Ok((after, condition)) => (after, Some(condition)),
        Err(TLParseError::Mismatch { position }) => (rest, None),
        Err(e) => {
            return Err(e);
        },
    };
    let (rest, expr) = match parse_type_term_with_bang(rest) {
        Ok(found) => found,
        Err(e) => {
            return Err(e);
        },
    };
    let arg = match cond {
        Some(conditional) => TLArg::ConditionalArg(name, conditional, expr),
        None => TLArg::Arg(name, expr),
    };
    let group = vec![arg];
    assert(group.deep_view() =~= seq![arg@]);
    Ok((rest, group))
}

/// One or more binders.
#[verifier::rlimit(40)]
fn many1_var_name_optional<'a>(input: Tokens<'a>) -> (r: TLParser<'a, Vec<Option<TLVarName>>>)
    ensures
        yields(r, input, grammar::many1_var_name_optional(input.stream(), input.start as nat)),
{
    let ghost s = input.stream();
    let (first_rest, first) = match var_name_optional(input) {
        Ok(found) => found,
        Err(e) => {
            return Err(e);
        },
    };
    let mut names: Vec<Option<TLVarName>> = Vec::new();
    names.push(first);
    let mut cur = first_rest;
    assert(names.deep_view() =~= seq![first.deep_view()]);
    loop
        invariant
            s == input.stream(),
            cur.tok == input.tok,
            cur.end == input.end,
            cur.start == input.start + names.len(),
            grammar::var_name_optional(s, input.start as nat) is Done,
            grammar::binders(s, input.start as nat) == names.deep_view() + grammar::binders(
                s,
                cur.start as nat,
            ),
        decreases left(s, cur.start as nat),
    {
        match var_name_optional(cur) {
            Ok((rest, name)) => {
                let ghost before = names.deep_view();
                names.push(name);
                proof {
                    assert(names.deep_view() =~= before.push(name.deep_view()));
                    assert(before + (seq![name.deep_view()] + grammar::binders(
                        s,
                        rest.start as nat,
                    )) =~= before.push(name.deep_view()) + grammar::binders(s, rest.start as nat));
                }
                cur = rest;
            },
            Err(_) => {
                assert(names.deep_view() + Seq::empty() =~= names.deep_view());
                return Ok((cur, names));
            },
        }
    }
}

/// One or more names of variables.
#[verifier::rlimit(40)]
fn many1_var_name<'a>(input: Tokens<'a>) -> (r: TLParser<'a, Vec<TLVarName>>)
    ensures
        yields(r, input, grammar::many1_var_name(input.stream(), input.start as nat)),
{
    let ghost s = input.stream();
    let (first_rest, first) = match var_name(input) {
        Ok(found) => found,
        Err(e) => {
            return Err(e);
        },
    };
    let mut names: Vec<TLVarName> = Vec::new();
    names.push(first);
    let mut cur = first_rest;
    assert(names.deep_view() =~= seq![first@]);
    loop
        invariant
            s == input.stream(),
            cur.tok == input.tok,
            cur.end == input.end,
            cur.start == input.start + names.len(),
            grammar::var_name(s, input.start as nat) is Done,
            grammar::names(s, input.start as nat) == names.deep_view() + grammar::names(
                s,
                cur.start as nat,
            ),
        decreases left(s, cur.start as nat),
    {
        match var_name(cur) {
            Ok((rest, name)) => {
                let ghost before = names.deep_view();
                names.push(name);
                proof {
                    assert(names.deep_view() =~= before.push(name@));
                    assert(before + (seq![name@] + grammar::names(s, rest.start as nat))
                        =~= before.push(name@) + grammar::names(s, rest.start as nat));
                }
                cur = rest;
            },
            Err(_) => {
                assert(names.deep_view() + Seq::empty() =~= names.deep_view());
                return Ok((cur, names));
            },
        }
    }
}

/// Several arguments of one type: `(`, one or more binders, `:`, a type,
/// `)`. Each binder gets an argument with a copy of the type of its own.
fn parse_list_args<'a>(input: Tokens<'a>) -> (r: TLParser<'a, Vec<TLArg>>)
    ensures
        yields(r, input, grammar::parse_list_args(input.stream(), input.start as nat)),
{
    if tag(input, TLTokenEnum::OPBR).is_none() {
        return Err(TLParseError::Mismatch { position: input.start });
    }
    let (rest, names) = match many1_var_name_optional(input.advance()) {
        Ok(found) => found,
        Err(e) => {
            return Err(e);
        },
    };
    if tag(rest, TLTokenEnum::COLON).is_none() {
        return Err(TLParseError::Mismatch { position: rest.start });
    }
    let (rest, expr) = match parse_type_term_with_bang(rest.advance()) {
        Ok(found) => found,
        Err(e) => {
            return Err(e);
        },
    };
    if tag(rest, TLTokenEnum::CLBR).is_none() {
        return Err(TLParseError::Mismatch { position: rest.start });
    }
    let ghost binders = names.deep_view();
    let mut args: Vec<TLArg> = Vec::new();
    let mut i: usize = 0;
    while i < names.len()
        invariant
            i <= names.len(),
            args.len() == i,
            binders == names.deep_view(),
            forall|j: int| 0 <= j < i ==> args@[j]@ == ArgView::Arg(binders[j], expr@),
        decreases names.len() - i,
    {
        let name = match &names[i] {
            Some(n) => Some(n.clone()),
            None => None,
        };
        args.push(TLArg::Arg(name, expr.clone()));
        i += 1;
    }
    assert(args.deep_view() =~= Seq::new(binders.len(), |j: int| ArgView::Arg(binders[j], expr@)));
    Ok((rest.advance(), args))
}

/// An argument without a binder: a type alone.
fn parse_short_arg<'a>(input: Tokens<'a>) -> (r: TLParser<'a, Vec<TLArg>>)
    ensures
        yields(r, input, grammar::parse_short_arg(input.stream(), input.start as nat)),
{
    match parse_type_term_with_bang(input) {
        Ok((rest, term)) => {
            let arg = TLArg::Arg(None, term);
            let group = vec![arg];
            assert(group.deep_view() =~= seq![arg@]);
            Ok((rest, group))
        },
        Err(e) => Err(e),
    }
}

/// One group of arguments: the first that matches of a repeated group, a
/// named argument, several arguments of one type and a type alone.
pub fn parse_args<'a>(input: Tokens<'a>) -> (r: TLParser<'a, Vec<TLArg>>)
    ensures
        yields(r, input, grammar::parse_args(input.stream(), input.start as nat)),
    decreases left(input.stream(), input.start as nat), 4nat,
{
    match parse_multiplicity_args(input) {
        Err(TLParseError::Mismatch { position }) => {},
        r => {
            return r;
        },
    }
    match parse_simple_arg(input) {
        Err(TLParseError::Mismatch { position }) => {},
        r => {
            return r;
        },
    }
    match parse_list_args(input) {
        Err(TLParseError::Mismatch { position }) => {},
        r => {
            return r;
        },
    }
    parse_short_arg(input)
}

/// Zero or more groups of arguments.
#[verifier::rlimit(40)]
pub fn many0_args<'a>(input: Tokens<'a>) -> (r: TLParser<'a, Vec<Vec<TLArg>>>)
    ensures
        yields(r, input, grammar::many0_args(input.stream(), input.start as nat)),
    decreases left(input.stream(), input.start as nat), 5nat,
{
    let ghost s = input.stream();
    let ghost p = input.start as nat;
    let mut groups: Vec<Vec<TLArg>> = Vec::new();
    let mut cur = input;
    proof {
        assert(groups.deep_view() =~= Seq::empty());
        match grammar::many0_args(s, p) {
            Parsed::Done { used, value } => {
                assert(Seq::<Seq<ArgView>>::empty() + value =~= value);
            },
            _ => {},
        }
    }
    loop
        invariant
            s == input.stream(),
            p == input.start,
            cur.tok == input.tok,
            cur.end == input.end,
            cur.start >= input.start,
            grammar::many0_args(s, p) == prepend(
                groups.deep_view(),
                (cur.start - input.start) as nat,
                grammar::many0_args(s, cur.start as nat),
            ),
        decreases left(s, cur.start as nat),
    {
        if cur.first().is_none() {
            assert(groups.deep_view() + Seq::empty() =~= groups.deep_view());
            return Ok((cur, groups));
        }
        match parse_args(cur) {
            Ok((rest, group)) => {
                if rest.start == cur.start {
                    return Err(TLParseError::Mismatch { position: cur.start });
                }
                proof {
                    lemma_prepend_twice(
                        groups.deep_view(),
                        (cur.start - input.start) as nat,
                        group.deep_view(),
                        (rest.start - cur.start) as nat,
                        grammar::many0_args(s, rest.start as nat),
                    );
                }
                let ghost before = groups.deep_view();
                groups.push(group);
                assert(groups.deep_view() =~= before.push(group.deep_view()));
                cur = rest;
            },
            Err(TLParseError::Mismatch { position }) => {
                assert(groups.deep_view() + Seq::empty() =~= groups.deep_view());
                return Ok((cur, groups));
            },
            Err(e) => {
                return Err(e);
            },
        }
    }
}

/// A group of optional arguments: `{`, one or more names, `:`, a type, `}`.
/// Each name gets an optional argument with a copy of the type of its own.
pub fn parse_optional_args<'a>(input: Tokens<'a>) -> (r: TLParser<'a, Vec<TLArg>>)
    ensures
        yields(r, input, grammar::parse_optional_args(input.stream(), input.start as nat)),
{
    if tag(input, TLTokenEnum::OPCBR).is_none() {
        return Err(TLParseError::Mismatch { position: input.start });
    }
    let (rest, names) = match many1_var_name(input.advance()) {
        Ok(found) => found,
        Err(e) => {
            return Err(e);
        },
    };
    if tag(rest, TLTokenEnum::COLON).is_none() {
        return Err(TLParseError::Mismatch { position: rest.start });
    }
    let (rest, expr) = match parse_type_term_with_bang(rest.advance()) {
        Ok(found) => found,
        Err(e) => {
            return Err(e);
        },
    };
    if tag(rest, TLTokenEnum::CLSCBR).is_none() {
        return Err(TLParseError::Mismatch { position: rest.start });
    }
    let ghost binders = names.deep_view();
    let mut args: Vec<TLArg> = Vec::new();
    let mut i: usize = 0;
    while i < names.len()
        invariant
            i <= names.len(),
            args.len() == i,
            binders == names.deep_view(),
            forall|j: int| 0 <= j < i ==> args@[j]@ == ArgView::OptArg(binders[j], expr@),
        decreases names.len() - i,
    {
        args.push(TLArg::OptArg(names[i].clone(), expr.clone()));
        i += 1;
    }
    assert(args.deep_view() =~= Seq::new(
        binders.len(),
        |j: int| ArgView::OptArg(binders[j], expr@),
    ));
    Ok((rest.advance(), args))
}

/// Zero or more groups of optional arguments.
#[verifier::rlimit(40)]
pub fn many0_optional_args<'a>(input: Tokens<'a>) -> (r: TLParser<'a, Vec<Vec<TLArg>>>)
    ensures
        yields(r, input, grammar::many0_optional_args(input.stream(), input.start as nat)),
{
    let ghost s = input.stream();
    let ghost p = input.start as nat;
    let mut groups: Vec<Vec<TLArg>> = Vec::new();
    let mut cur = input;
    proof {
        assert(groups.deep_view() =~= Seq::empty());
        match grammar::many0_optional_args(s, p) {
            Parsed::Done { used, value } => {
                assert(Seq::<Seq<ArgView>>::empty() + value =~= value);
            },
            _ => {},
        }
    }
    loop
        invariant
            s == input.stream(),
            p == input.start,
            cur.tok == input.tok,
            cur.end == input.end,
            cur.start >= input.start,
            grammar::many0_optional_args(s, p) == prepend(
                groups.deep_view(),
                (cur.start - input.start) as nat,
                grammar::many0_optional_args(s, cur.start as nat),
            ),
        decreases left(s, cur.start as nat),
    {
        if cur.first().is_none() {
            assert(groups.deep_view() + Seq::empty() =~= groups.deep_view());
            return Ok((cur, groups));
        }
        match parse_optional_args(cur) {
            Ok((rest, group)) => {
                if rest.start == cur.start {
                    return Err(TLParseError::Mismatch { position: cur.start });
                }
                proof {
                    lemma_prepend_twice(
                        groups.deep_view(),
                        (cur.start - input.start) as nat,
                        group.deep_view(),
                        (rest.start - cur.start) as nat,
                        grammar::many0_optional_args(s, rest.start as nat),
                    );
                }
                let ghost before = groups.deep_view();
                groups.push(group);
                assert(groups.deep_view() =~= before.push(group.deep_view()));
                cur = rest;
            },
            Err(TLParseError::Mismatch { position }) => {
                assert(groups.deep_view() + Seq::empty() =~= groups.deep_view());
                return Ok((cur, groups));
            },
            Err(e) => {
                return Err(e);
            },
        }
    }
}

} // verus!
