//! The rules for declarations.

use crate::ast::{
    ArgView, DeclarationView, TLArg, TLCombinator, TLDeclaration, TLFinal, TLUpperName,
};
use crate::grammar;
use crate::grammar::{prepend, Parsed};
use crate::lexer::{text_equals, TLTokenEnum, Tokens};
use crate::rules::args::{flatten_args, many0_args, many0_optional_args};
use crate::rules::expressions::parse_result_type;
use crate::rules::{
    combinator_name, lemma_prepend_twice, tag, uc_ident, yields, TLParseError, TLParser,
};
use vstd::prelude::*;

verus! {

/// A combinator: its name, groups of optional arguments, groups of
/// arguments, `=`, the result type, `;`. The optional arguments come first
/// in the argument list, whatever their place in the source.
fn parse_combinator<'a>(input: Tokens<'a>) -> (r: TLParser<'a, TLCombinator>)
    ensures
        yields(r, input, grammar::parse_combinator(input.stream(), input.start as nat)),
{
    let (rest, name) = match combinator_name(input) {
        Ok(found) => found,
        Err(e) => {
            return Err(e);
        },
    };
    let (rest, opt_args) = match many0_optional_args(rest) {
        Ok(found) => found,
        Err(e) => {
            return Err(e);
        },
    };
    let (rest, args) = match many0_args(rest) {
        Ok(found) => found,
        Err(e) => {
            return Err(e);
        },
    };
    if tag(rest, TLTokenEnum::EQ).is_none() {
        return Err(TLParseError::Mismatch { position: rest.start });
    }
    let (rest, result_type) = match parse_result_type(rest.advance()) {
        Ok(found) => found,
        Err(e) => {
            return Err(e);
        },
    };
    if tag(rest, TLTokenEnum::SEMICOLON).is_none() {
        return Err(TLParseError::Mismatch { position: rest.start });
    }
    let mut all_args: Vec<TLArg> = Vec::new();
    flatten_args(&mut all_args, opt_args);
    flatten_args(&mut all_args, args);
    assert(all_args.deep_view() =~= opt_args.deep_view().flatten() + args.deep_view().flatten());
    let combinator = TLCombinator { identifier: name, args: all_args, result_type: result_type };
    Ok((rest.advance(), combinator))
}

/// A built-in: a combinator name, `?`, `=`, the result type, `;`.
fn parse_builtin<'a>(input: Tokens<'a>) -> (r: TLParser<'a, TLCombinator>)
    ensures
        yields(r, input, grammar::parse_builtin(input.stream(), input.start as nat)),
{
    let (rest, name) = match combinator_name(input) {
        Ok(found) => found,
        Err(e) => {
            return Err(e);
        },
    };
    if tag(rest, TLTokenEnum::QMARK).is_none() {
        return Err(TLParseError::Mismatch { position: rest.start });
    }
    let rest = rest.advance();
    if tag(rest, TLTokenEnum::EQ).is_none() {
        return Err(TLParseError::Mismatch { position: rest.start });
    }
    let (rest, result_type) = match parse_result_type(rest.advance()) {
        Ok(found) => found,
        Err(e) => {
            return Err(e);
        },
    };
    if tag(rest, TLTokenEnum::SEMICOLON).is_none() {
        return Err(TLParseError::Mismatch { position: rest.start });
    }
    let args: Vec<TLArg> = Vec::new();
    assert(args.deep_view() =~= Seq::<ArgView>::empty());
    let combinator = TLCombinator { identifier: name, args: args, result_type: result_type };
    Ok((rest.advance(), combinator))
}

/// The word that leads a final declaration: a reserved word or an
/// upper-case name.
fn final_head<'a>(input: Tokens<'a>) -> (r: TLParser<'a, TLUpperName>)
    ensures
        yields(r, input, grammar::final_head(input.stream(), input.start as nat)),
{
    match input.first() {
        Some(token) => match token.token_type {
            TLTokenEnum::FINAL | TLTokenEnum::NEW | TLTokenEnum::EMPTY => {
                return Ok((input.advance(), TLUpperName::Name(token.token.clone())));
            },
            _ => {},
        },
        None => {},
    }
    uc_ident(input)
}

/// A final declaration: one of the words `Final`, `New`, `Empty`, the type
/// it is about, `;`.
///
/// Two upper-case words in a row commit the rule. After them, another
/// leading word, a namespace on either word or a missing `;` is a hard
/// failure at the start of the declaration.
fn parse_final<'a>(input: Tokens<'a>) -> (r: TLParser<'a, TLFinal>)
    ensures
        yields(r, input, grammar::parse_final(input.stream(), input.start as nat)),
{
    let (rest, id) = match final_head(input) {
        Ok(found) => found,
        Err(e) => {
            return Err(e);
        },
    };
    let (rest, subject) = match uc_ident(rest) {
        Ok(found) => found,
        Err(e) => {
            return Err(e);
        },
    };
    let failure = Err(TLParseError::Failure { position: input.start });
    let closed = tag(rest, TLTokenEnum::SEMICOLON).is_some();
    let plain = match &subject {
        TLUpperName::Name(_) => true,
        TLUpperName::NameNs { ns: _, name: _ } => false,
    };
    let fin = match id {
        TLUpperName::Name(id) => {
            if !plain {
                return failure;
            } else if text_equals(id.as_str(), "Final") {
                TLFinal::Final(subject)
            } else if text_equals(id.as_str(), "New") {
                TLFinal::New(subject)
            } else if text_equals(id.as_str(), "Empty") {
                TLFinal::Empty(subject)
            } else {
                return failure;
            }
        },
        TLUpperName::NameNs { ns: _, name: _ } => {
            return failure;
        },
    };
    if !closed {
        return failure;
    }
    Ok((rest.advance(), fin))
}

/// A declaration: the first that matches of a combinator, a built-in and a
/// final declaration.
pub fn parse_declaration<'a>(input: Tokens<'a>) -> (r: TLParser<'a, TLDeclaration>)
    ensures
        yields(r, input, grammar::parse_declaration(input.stream(), input.start as nat)),
{
    match parse_combinator(input) {
        Ok((rest, comb)) => {
            return Ok((rest, TLDeclaration::Combinator(comb)));
        },
        Err(TLParseError::Mismatch { position }) => {},
        Err(e) => {
            return Err(e);
        },
    }
    match parse_builtin(input) {
        Ok((rest, builtin)) => {
            return Ok((rest, TLDeclaration::BuiltIn(builtin)));
        },
        Err(TLParseError::Mismatch { position }) => {},
        Err(e) => {
            return Err(e);
        },
    }
    match parse_final(input) {
        Ok((rest, fin)) => Ok((rest, TLDeclaration::Final(fin))),
        Err(e) => Err(e),
    }
}

/// Zero or more declarations.
#[verifier::rlimit(40)]
pub fn many0_declaration<'a>(input: Tokens<'a>) -> (r: TLParser<'a, Vec<TLDeclaration>>)
    ensures
        yields(r, input, grammar::many0_declaration(input.stream(), input.start as nat)),
{
    let ghost s = input.stream();
    let ghost p = input.start as nat;
    let mut decls: Vec<TLDeclaration> = Vec::new();
    let mut cur = input;
    proof {
        assert(decls.deep_view() =~= Seq::empty());
        match grammar::many0_declaration(s, p) {
            Parsed::Done { used, value } => {
                assert(Seq::<DeclarationView>::empty() + value =~= value);
            },
            _ => {},
        }
    }
    loop
        invariant
            s == input.stream(),
            p == input.start,
            cur.tok == input.tok,
            cur.end == input.end,
            cur.start >= input.start,
            grammar::many0_declaration(s, p) == prepend(
                decls.deep_view(),
                (cur.start - input.start) as nat,
                grammar::many0_declaration(s, cur.start as nat),
            ),
        decreases grammar::left(s, cur.start as nat),
    {
        if cur.first().is_none() {
            assert(decls.deep_view() + Seq::empty() =~= decls.deep_view());
            return Ok((cur, decls));
        }
        match parse_declaration(cur) {
            Ok((rest, decl)) => {
                if rest.start == cur.start {
                    return Err(TLParseError::Mismatch { position: cur.start });
                }
                proof {
                    lemma_prepend_twice(
                        decls.deep_view(),
                        (cur.start - input.start) as nat,
                        decl@,
                        (rest.start - cur.start) as nat,
                        grammar::many0_declaration(s, rest.start as nat),
                    );
                }
                let ghost before = decls.deep_view();
                decls.push(decl);
                assert(decls.deep_view() =~= before.push(decl@));
                cur = rest;
            },
            Err(TLParseError::Mismatch { position }) => {
                assert(decls.deep_view() + Seq::empty() =~= decls.deep_view());
                return Ok((cur, decls));
            },
            Err(e) => {
                return Err(e);
            },
        }
    }
}

} // verus!
