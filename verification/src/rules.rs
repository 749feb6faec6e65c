//! The rules of the grammar, as functions from a window of tokens to the
//! rest of the window and a node of the syntax tree.
//!
//! Every rule is total and reads only the window it is given. What it
//! returns is fixed by the rule of the same name in [`crate::grammar`].

use crate::ast::{Nat, TLCName, TLLowerName, TLTypeIdent, TLUpperName, TLVarName};
use crate::grammar;
use crate::grammar::Parsed;
use crate::lexer::{TLToken, TLTokenEnum, Tokens};
use crate::numbers::parse_radix;
use vstd::prelude::*;

pub mod args;
pub mod declarations;
pub mod expressions;
pub mod program;

verus! {

/// Why a rule did not give a value.
#[derive(Debug, Clone, Copy, PartialEq, Eq, Structural)]
pub enum TLParseError {
    /// The rule does not match at this token. An enclosing choice goes on
    /// with its next alternative.
    Mismatch { position: usize },
    /// The rule had committed and met something invalid. Nothing else is tried.
    Failure { position: usize },
}

/// What a rule returns: the rest of the window and a value, or an error.
pub type TLParser<'a, T> = Result<(Tokens<'a>, T), TLParseError>;

/// Does the result `r` of a rule run on `input` say what `expected` says?
///
/// A match leaves a window over the same array with the same end, moved
/// forward by the tokens used, and a node with the expected value. A
/// mismatch or failure carries the expected position.
pub open spec fn yields<'a, T: DeepView>(
    r: TLParser<'a, T>,
    input: Tokens<'a>,
    expected: Parsed<T::V>,
) -> bool {
    match expected {
        Parsed::Done { used, value } => match r {
            Ok((rest, node)) => rest.tok == input.tok && rest.end == input.end && rest.start
                == input.start + used && node.deep_view() == value,
            Err(_) => false,
        },
        Parsed::Mismatch { at } => match r {
            Err(TLParseError::Mismatch { position }) => position == at,
            _ => false,
        },
        Parsed::Failure { at } => match r {
            Err(TLParseError::Failure { position }) => position == at,
            _ => false,
        },
    }
}

/// Prepending an item to what follows it, and then a front to both, is
/// prepending the front with the item pushed on it.
pub proof fn lemma_prepend_twice<T>(
    front: Seq<T>,
    used: nat,
    item: T,
    more: nat,
    rest: Parsed<Seq<T>>,
)
    ensures
        grammar::prepend(front, used, grammar::prepend(seq![item], more, rest))
            == grammar::prepend(front.push(item), used + more, rest),
{
    match rest {
        Parsed::Done { used: last, value } => {
            assert(front + (seq![item] + value) =~= front.push(item) + value);
        },
        _ => {},
    }
}

/// The token at the start of the window, if it is of category `kind`.
pub fn tag<'a>(input: Tokens<'a>, kind: TLTokenEnum) -> (r: Option<&'a TLToken>)
    ensures
        r is Some == grammar::is_kind(input.stream(), input.start as nat, kind),
        r is Some ==> r->0@ == input.stream()[input.start as int] && input.start < input.limit(),
{
    match input.first() {
        Some(token) => if token.token_type == kind {
            Some(token)
        } else {
            None
        },
        None => None,
    }
}

/// An optional namespace, then a name of category `last`.
fn namespaced<'a>(input: Tokens<'a>, last: TLTokenEnum) -> (r: TLParser<'a, TLLowerName>)
    ensures
        yields(r, input, grammar::namespaced(input.stream(), input.start as nat, last)),
{
    match tag(input, TLTokenEnum::LCIDENT) {
        Some(first) => {
            let after = input.advance();
            match tag(after, TLTokenEnum::STOP) {
                Some(_) => {
                    let rest = after.advance();
                    return match tag(rest, last) {
                        Some(name) => Ok(
                            (
                                rest.advance(),
                                TLLowerName::NameNs {
                                    ns: first.token.clone(),
                                    name: name.token.clone(),
                                },
                            ),
                        ),
                        None => Err(TLParseError::Mismatch { position: rest.start }),
                    };
                },
                None => {},
            }
        },
        None => {},
    }
    match tag(input, last) {
        Some(name) => Ok((input.advance(), TLLowerName::Name(name.token.clone()))),
        None => Err(TLParseError::Mismatch { position: input.start }),
    }
}

/// A lower-case name, with or without a namespace.
pub fn lc_ident<'a>(input: Tokens<'a>) -> (r: TLParser<'a, TLLowerName>)
    ensures
        yields(r, input, grammar::lc_ident(input.stream(), input.start as nat)),
{
    namespaced(input, TLTokenEnum::LCIDENT)
}

/// An upper-case name, with or without a namespace.
pub fn uc_ident<'a>(input: Tokens<'a>) -> (r: TLParser<'a, TLUpperName>)
    ensures
        yields(r, input, grammar::uc_ident(input.stream(), input.start as nat)),
{
    match namespaced(input, TLTokenEnum::UCIDENT) {
        Ok((rest, TLLowerName::NameNs { ns, name })) => Ok(
            (rest, TLUpperName::NameNs { ns, name }),
        ),
        Ok((rest, TLLowerName::Name(name))) => Ok((rest, TLUpperName::Name(name))),
        Err(e) => Err(e),
    }
}

/// A magic number: `#` and a hexadecimal number of 32 bits.
///
/// Without `#` the rule mismatches. After `#`, a token that is no such
/// number, or no token at all, is a hard failure.
pub fn hex_number<'a>(input: Tokens<'a>) -> (r: TLParser<'a, Nat>)
    ensures
        yields(r, input, grammar::hex_number(input.stream(), input.start as nat)),
{
    if tag(input, TLTokenEnum::NUM).is_none() {
        return Err(TLParseError::Mismatch { position: input.start });
    }
    let rest = input.advance();
    let failure = Err(TLParseError::Failure { position: rest.start });
    match rest.first() {
        Some(token) => match token.token_type {
            TLTokenEnum::NUMBER | TLTokenEnum::HEXNUMBER | TLTokenEnum::LCIDENT
            | TLTokenEnum::UCIDENT => match parse_radix(token.token.as_str(), 16) {
                Some(magic) => Ok((rest.advance(), magic)),
                None => failure,
            },
            _ => failure,
        },
        None => failure,
    }
}

/// The name of a combinator: `_`, or a lower-case name with an optional
/// magic number. A `#` after the name that no magic number follows is a
/// hard failure: the name is never read as a plain one then.
pub fn combinator_name<'a>(input: Tokens<'a>) -> (r: TLParser<'a, TLCName>)
    ensures
        yields(r, input, grammar::combinator_name(input.stream(), input.start as nat)),
{
    if tag(input, TLTokenEnum::UNDERLINE).is_some() {
        return Ok((input.advance(), TLCName::EmptyName));
    }
    match lc_ident(input) {
        Ok((rest, name)) => match hex_number(rest) {
            Ok((after, magic)) => Ok((after, TLCName::FullName(name, magic))),
            Err(TLParseError::Mismatch { position }) => Ok((rest, TLCName::Name(name))),
            Err(e) => Err(e),
        },
        Err(e) => Err(e),
    }
}

/// The name of a variable.
pub fn var_name<'a>(input: Tokens<'a>) -> (r: TLParser<'a, TLVarName>)
    ensures
        yields(r, input, grammar::var_name(input.stream(), input.start as nat)),
{
    match input.first() {
        Some(token) => match token.token_type {
            TLTokenEnum::LCIDENT | TLTokenEnum::UCIDENT | TLTokenEnum::TYPES
            | TLTokenEnum::FUNCTIONS => Ok(
                (input.advance(), TLVarName::Name(token.token.clone())),
            ),
            _ => Err(TLParseError::Mismatch { position: input.start }),
        },
        None => Err(TLParseError::Mismatch { position: input.start }),
    }
}

/// A binder: `_` for none, or the name of a variable.
pub fn var_name_optional<'a>(input: Tokens<'a>) -> (r: TLParser<'a, Option<TLVarName>>)
    ensures
        yields(r, input, grammar::var_name_optional(input.stream(), input.start as nat)),
{
    if tag(input, TLTokenEnum::UNDERLINE).is_some() {
        return Ok((input.advance(), None));
    }
    match var_name(input) {
        Ok((rest, name)) => Ok((rest, Some(name))),
        Err(e) => Err(e),
    }
}

/// A reference to a type: a lower-case name, else an upper-case name.
pub fn type_ident<'a>(input: Tokens<'a>) -> (r: TLParser<'a, TLTypeIdent>)
    ensures
        yields(r, input, grammar::type_ident(input.stream(), input.start as nat)),
{
    match lc_ident(input) {
        Ok((rest, name)) => Ok((rest, TLTypeIdent::Lower(name))),
        Err(TLParseError::Mismatch { position }) => match uc_ident(input) {
            Ok((rest, name)) => Ok((rest, TLTypeIdent::Upper(name))),
            Err(e) => Err(e),
        },
        Err(e) => Err(e),
    }
}

/// A natural number. A decimal token that does not fit 32 bits is a hard failure.
pub fn nat_const<'a>(input: Tokens<'a>) -> (r: TLParser<'a, Nat>)
    ensures
        yields(r, input, grammar::nat_const(input.stream(), input.start as nat)),
{
    match tag(input, TLTokenEnum::NUMBER) {
        Some(token) => match parse_radix(token.token.as_str(), 10) {
            Some(n) => Ok((input.advance(), n)),
            None => Err(TLParseError::Failure { position: input.start }),
        },
        None => Err(TLParseError::Mismatch { position: input.start }),
    }
}

} // verus!
