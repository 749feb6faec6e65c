//! What holds of the grammar as a whole, proved from its rules.

use crate::ast::CNameView;
use crate::barrier::{barrier, lemma_declaration_barrier};
use crate::bounds::{
    lemma_block_within, lemma_many0_block_within, lemma_many0_declaration_within,
    lemma_program_within,
};
use crate::grammar::{
    combinator_name, expression_of_term, hex_number, holds_hex_number, is_kind, lc_ident,
    magic_at, many0_args, many0_block, many0_declaration, many0_expression, parse_args,
    parse_block, parse_builtin, parse_combinator, parse_declaration, parse_expression,
    parse_final, parse_program, parse_term, text_at, Parsed,
};
use crate::lexer::{TLTokenEnum, TokenView};
use crate::lexical::{lemma_lex_again, rendered, tokens_of};
use crate::numbers::{lemma_hex_ignores_case, same_but_case};
use crate::parser::{parse, TLError};
use vstd::prelude::*;

verus! {

/// A combinator that is declared with a magic number keeps that number
/// exactly: where a name, `#` and a hexadecimal number of 32 bits stand in
/// a row, the combinator's name holds the value of the number.
pub proof fn lemma_magic_number_is_kept(s: Seq<TokenView>, p: nat, magic: u32)
    requires
        lc_ident(s, p) is Done,
        is_kind(s, p + lc_ident(s, p)->used, TLTokenEnum::NUM),
        magic_at(s, p + lc_ident(s, p)->used + 1) == Some(magic),
    ensures
        combinator_name(s, p) == (Parsed::Done {
            used: lc_ident(s, p)->used + 2,
            value: CNameView::FullName(lc_ident(s, p)->value, magic),
        }),
{
}

/// The case of the letters of a magic number does not matter: two token
/// sequences that differ only there give the same magic number.
pub proof fn lemma_magic_number_ignores_case(
    s: Seq<TokenView>,
    p: nat,
    other_number: TokenView,
)
    requires
        p + 1 < s.len(),
        holds_hex_number(s[p as int + 1].kind) == holds_hex_number(other_number.kind),
        same_but_case(text_at(s, p + 1), other_number.text),
    ensures
        hex_number(s.update(p as int + 1, other_number), p) == hex_number(s, p),
{
    lemma_hex_ignores_case(text_at(s, p + 1), other_number.text);
}

/// Does a name with a `#` stand at `p`, without a hexadecimal number of
/// 32 bits after the `#`?
pub open spec fn has_malformed_magic_number(s: Seq<TokenView>, p: nat) -> bool {
    let hash = p + lc_ident(s, p)->used;
    &&& lc_ident(s, p) is Done
    &&& is_kind(s, hash, TLTokenEnum::NUM)
    &&& magic_at(s, hash + 1) is None
}

/// A `#` after the name of a combinator commits to a magic number. Where
/// no hexadecimal number of 32 bits follows it, the name is a hard failure
/// at the token after `#`, and so are the declaration and the run of
/// declarations that it stands in: the name is never read as a plain one
/// with `#` left over.
pub proof fn lemma_malformed_magic_number_fails(s: Seq<TokenView>, p: nat)
    requires
        has_malformed_magic_number(s, p),
    ensures
        combinator_name(s, p) is Failure,
        combinator_name(s, p)->Failure_at == p + lc_ident(s, p)->used + 1,
        parse_declaration(s, p) is Failure,
        parse_declaration(s, p)->Failure_at == p + lc_ident(s, p)->used + 1,
        many0_declaration(s, p) is Failure,
        many0_declaration(s, p)->Failure_at == p + lc_ident(s, p)->used + 1,
{
}

/// A schema whose first declaration has a malformed magic number is
/// refused with a grammar error at the token after `#`.
pub proof fn lemma_malformed_magic_number_is_reported(s: Seq<TokenView>)
    requires
        has_malformed_magic_number(s, 0),
    ensures
        parse(s) is Err,
        parse(s)->Err_0 is Grammar,
        parse(s)->Err_0->Grammar_position == (lc_ident(s, 0)->used + 1) as usize,
{
    lemma_malformed_magic_number_fails(s, 0);
}

/// A declaration uses at least one token.
pub proof fn lemma_declaration_uses_tokens(s: Seq<TokenView>, p: nat)
    ensures
        parse_declaration(s, p) is Done ==> parse_declaration(s, p)->used >= 1,
{
    if parse_combinator(s, p) is Done {
    } else if parse_builtin(s, p) is Done {
    } else if parse_final(s, p) is Done {
    }
}

/// A run of declarations never mismatches.
pub proof fn lemma_declarations_never_mismatch(s: Seq<TokenView>, p: nat)
    ensures
        !(many0_declaration(s, p) is Mismatch),
    decreases crate::grammar::left(s, p),
{
    if p < s.len() {
        lemma_declaration_uses_tokens(s, p);
        match parse_declaration(s, p) {
            Parsed::Done { used, value } => {
                lemma_declarations_never_mismatch(s, p + used);
            },
            _ => {},
        }
    }
}

/// A run of blocks never mismatches.
pub proof fn lemma_blocks_never_mismatch(s: Seq<TokenView>, p: nat)
    ensures
        !(many0_block(s, p) is Mismatch),
    decreases crate::grammar::left(s, p),
{
    if p < s.len() {
        lemma_declarations_never_mismatch(s, p + 3);
        match parse_block(s, p) {
            Parsed::Done { used, value } => {
                lemma_blocks_never_mismatch(s, p + used);
            },
            _ => {},
        }
    }
}

/// The program rule never mismatches: it matches, perhaps with tokens left
/// over, or a rule in it fails hard.
pub proof fn lemma_program_never_mismatches(s: Seq<TokenView>, p: nat)
    ensures
        !(parse_program(s, p) is Mismatch),
{
    lemma_declarations_never_mismatch(s, p);
    match many0_declaration(s, p) {
        Parsed::Done { used, value } => {
            lemma_blocks_never_mismatch(s, p + used);
        },
        _ => {},
    }
}

/// Tokens that the program rule leaves over are never dropped in silence:
/// a schema is accepted only if the rule used every token, and where it
/// stopped before the end the error names the first token left over.
pub proof fn lemma_trailing_input_is_reported(s: Seq<TokenView>)
    ensures
        parse(s) is Ok <==> parse_program(s, 0) is Done && parse_program(s, 0)->used == s.len(),
        parse(s) is Ok ==> parse(s)->Ok_0 == parse_program(s, 0)->value,
        parse_program(s, 0) is Done && parse_program(s, 0)->used != s.len() ==> parse(s) is Err
            && parse(s)->Err_0 is TrailingInput && parse(s)->Err_0->TrailingInput_position
            == parse_program(s, 0)->used as usize,
        parse(s) is Err && parse(s)->Err_0 is Grammar ==> parse_program(s, 0) is Failure,
{
    lemma_program_never_mismatches(s, 0);
}

/// A term uses at least one token.
pub proof fn lemma_term_uses_tokens(s: Seq<TokenView>, p: nat)
    ensures
        parse_term(s, p) is Done ==> parse_term(s, p)->used >= 1,
{
}

/// An expression uses at least one token.
pub proof fn lemma_expression_uses_tokens(s: Seq<TokenView>, p: nat)
    ensures
        parse_expression(s, p) is Done ==> parse_expression(s, p)->used >= 1,
{
    lemma_term_uses_tokens(s, p);
}

/// The second alternative of an expression, the sum that leads with a
/// number, never decides: a number is a term, so wherever the sum could
/// match, the first alternative has matched or failed before it. An
/// expression is a term with its continuation, or a mismatch at its start.
pub proof fn lemma_expression_is_term_with_continuation(s: Seq<TokenView>, p: nat)
    ensures
        parse_expression(s, p) == if expression_of_term(s, p) is Mismatch {
            Parsed::Mismatch { at: p }
        } else {
            expression_of_term(s, p)
        },
{
}

/// A group of arguments uses at least one token.
pub proof fn lemma_args_use_tokens(s: Seq<TokenView>, p: nat)
    ensures
        parse_args(s, p) is Done ==> parse_args(s, p)->used >= 1,
{
    lemma_term_uses_tokens(s, p);
    lemma_term_uses_tokens(s, p + 1);
}

/// A run of expressions never mismatches: it stops where no expression
/// follows, or an expression in it fails hard.
pub proof fn lemma_expressions_never_mismatch(s: Seq<TokenView>, p: nat)
    ensures
        !(many0_expression(s, p) is Mismatch),
    decreases crate::grammar::left(s, p),
{
    if p < s.len() {
        lemma_expression_uses_tokens(s, p);
        match parse_expression(s, p) {
            Parsed::Done { used, value } => {
                lemma_expressions_never_mismatch(s, p + used);
            },
            _ => {},
        }
    }
}

/// A run of groups of arguments never mismatches.
pub proof fn lemma_args_never_mismatch(s: Seq<TokenView>, p: nat)
    ensures
        !(many0_args(s, p) is Mismatch),
    decreases crate::grammar::left(s, p),
{
    if p < s.len() {
        lemma_args_use_tokens(s, p);
        match parse_args(s, p) {
            Parsed::Done { used, value } => {
                lemma_args_never_mismatch(s, p + used);
            },
            _ => {},
        }
    }
}

/// An error names a position inside the schema: tokens left over start at
/// a token that is there, and a grammar error lies at a token or at the end.
pub proof fn lemma_error_positions_are_inside(s: Seq<TokenView>)
    requires
        s.len() <= usize::MAX,
    ensures
        match parse(s) {
            Ok(_) => true,
            Err(TLError::TrailingInput { position }) => position < s.len(),
            Err(TLError::Grammar { position }) => position <= s.len(),
        },
{
    lemma_program_within(s, 0);
}

/// A declaration ends with a `;` that is there.
proof fn lemma_declaration_ends_with_semicolon(s: Seq<TokenView>, p: nat)
    requires
        parse_declaration(s, p) is Done,
    ensures
        parse_declaration(s, p)->used >= 1,
        is_kind(s, (p + parse_declaration(s, p)->used - 1) as nat, TLTokenEnum::SEMICOLON),
{
    if parse_combinator(s, p) is Done {
    } else if parse_builtin(s, p) is Done {
    } else if parse_final(s, p) is Done {
    }
}

/// The last token alone starts no declaration and no block.
proof fn lemma_last_token_starts_nothing(s: Seq<TokenView>, p: nat)
    requires
        p + 1 == s.len(),
    ensures
        parse_declaration(s, p) is Mismatch,
        parse_block(s, p) is Mismatch,
{
}

/// A separator starts no declaration.
proof fn lemma_separator_starts_no_declaration(s: Seq<TokenView>, p: nat)
    requires
        is_kind(s, p, TLTokenEnum::SEPARATOR),
    ensures
        parse_declaration(s, p) is Mismatch,
{
}

/// A run of declarations that ends at the end of the tokens or at a
/// separator is the same run after one more token is put at the end.
proof fn lemma_declarations_ignore_appended_token(s: Seq<TokenView>, p: nat, stray: TokenView)
    requires
        p <= s.len(),
        many0_declaration(s, p) is Done,
        p + many0_declaration(s, p)->used == s.len() || is_kind(
            s,
            p + many0_declaration(s, p)->used,
            TLTokenEnum::SEPARATOR,
        ),
    ensures
        many0_declaration(s.push(stray), p) == many0_declaration(s, p),
    decreases crate::grammar::left(s, p),
{
    let longer = s.push(stray);
    if p == s.len() {
        lemma_last_token_starts_nothing(longer, p);
    } else {
        match parse_declaration(s, p) {
            Parsed::Done { used, value } => {
                lemma_declaration_ends_with_semicolon(s, p);
                let k = (p + used - 1) as nat;
                assert(barrier(s, longer, k));
                lemma_declaration_barrier(s, longer, k, p);
                lemma_declarations_ignore_appended_token(s, p + used, stray);
            },
            Parsed::Mismatch { at } => {
                lemma_separator_starts_no_declaration(longer, p);
            },
            Parsed::Failure { at } => {},
        }
    }
}

/// A block that ends at the end of the tokens or at a separator is the
/// same block after one more token is put at the end.
proof fn lemma_block_ignores_appended_token(s: Seq<TokenView>, p: nat, stray: TokenView)
    requires
        parse_block(s, p) is Done,
        p + parse_block(s, p)->used == s.len() || is_kind(
            s,
            p + parse_block(s, p)->used,
            TLTokenEnum::SEPARATOR,
        ),
    ensures
        parse_block(s.push(stray), p) == parse_block(s, p),
{
    let longer = s.push(stray);
    assert(longer[p as int] == s[p as int]);
    assert(longer[p as int + 1] == s[p as int + 1]);
    assert(longer[p as int + 2] == s[p as int + 2]);
    lemma_declarations_ignore_appended_token(s, p + 3, stray);
}

/// A run of blocks that ends at the end of the tokens is the same run
/// after one more token is put at the end.
proof fn lemma_blocks_ignore_appended_token(s: Seq<TokenView>, p: nat, stray: TokenView)
    requires
        p <= s.len(),
        many0_block(s, p) is Done,
        p + many0_block(s, p)->used == s.len(),
    ensures
        many0_block(s.push(stray), p) == many0_block(s, p),
    decreases crate::grammar::left(s, p),
{
    let longer = s.push(stray);
    if p == s.len() {
        lemma_last_token_starts_nothing(longer, p);
    } else {
        let first = parse_block(s, p);
        match first {
            Parsed::Done { used, value } => {
                let end = p + used;
                let rest = many0_block(s, end);
                assert(used > 0);
                assert(many0_block(s, p) == crate::grammar::prepend(seq![value], used, rest));
                assert(rest is Done && end + rest->used == s.len());
                lemma_block_within(s, p);
                if end < s.len() {
                    assert(parse_block(s, end) is Done);
                    assert(is_kind(s, end, TLTokenEnum::SEPARATOR));
                }
                lemma_block_ignores_appended_token(s, p, stray);
                lemma_blocks_ignore_appended_token(s, end, stray);
                assert(parse_block(longer, p) == first);
                assert(many0_block(longer, end) == rest);
                assert(many0_block(longer, p) == crate::grammar::prepend(
                    seq![value],
                    used,
                    many0_block(longer, end),
                ));
            },
            _ => {},
        }
    }
}

/// One stray token after a well-formed schema is never dropped in silence
/// and never changes what was read before it: where a schema is accepted,
/// the same schema with any one token put at its end is refused, and the
/// error names that token as the first of the tokens left over.
pub proof fn lemma_stray_token_is_reported(s: Seq<TokenView>, stray: TokenView)
    requires
        parse(s) is Ok,
        s.len() < usize::MAX,
    ensures
        parse_program(s.push(stray), 0) == parse_program(s, 0),
        parse(s.push(stray)) is Err,
        parse(s.push(stray))->Err_0 is TrailingInput,
        parse(s.push(stray))->Err_0->TrailingInput_position == s.len(),
{
    lemma_many0_declaration_within(s, 0);
    let lead = many0_declaration(s, 0)->used;
    lemma_many0_block_within(s, lead);
    lemma_declarations_ignore_appended_token(s, 0, stray);
    lemma_blocks_ignore_appended_token(s, lead, stray);
}

/// What a source means does not depend on its layout: the source and its
/// tokens written anew, with a space after each and without the comments,
/// are read as the same program or refused with the same error.
pub proof fn lemma_meaning_ignores_layout(source: Seq<char>)
    ensures
        parse(tokens_of(rendered(tokens_of(source)))) == parse(tokens_of(source)),
{
    lemma_lex_again(source);
}

} // verus!
