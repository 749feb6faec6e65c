//! Every rule stays inside the tokens it is given: a match uses no more
//! tokens than are left, and a mismatch or failure is reported at a
//! position between the start of the rule and the end of the tokens.

use crate::grammar::{
    binders, combinator_name, expression_groups, expression_of_sum, expression_of_term,
    full_expression_groups, is_kind, left, many0_args, many0_block, many0_declaration,
    many0_expression, many0_optional_args, many1_expression, many1_var_name,
    many1_var_name_optional, more_expression_groups, more_full_expression_groups,
    multiplicity_binder, multiplicity_count, names, nat_const, parse_args,
    parse_block, parse_builtin, parse_combinator, parse_declaration, parse_expression,
    parse_expression_hp, parse_final, parse_full_expression, parse_list_args,
    parse_multiplicity_args, parse_optional_args, parse_program, parse_result_type,
    parse_result_type_helper, parse_short_arg, parse_simple_arg, parse_term, parse_term_brackets,
    parse_term_full_expression, parse_term_operator, parse_type_term_with_bang, type_ident,
    uc_ident, var_name, var_name_optional, Parsed,
};
use crate::lexer::{TLTokenEnum, TokenView};
use vstd::prelude::*;

verus! {

/// Does the result `r` of a rule at `p` stay inside the tokens `s`?
pub open spec fn within<T>(r: Parsed<T>, s: Seq<TokenView>, p: nat) -> bool {
    match r {
        Parsed::Done { used, value } => used <= left(s, p),
        Parsed::Mismatch { at } => p <= at <= p + left(s, p),
        Parsed::Failure { at } => p <= at <= p + left(s, p),
    }
}

/// A term stays inside the tokens.
pub proof fn lemma_term_within(s: Seq<TokenView>, p: nat)
    ensures
        within(parse_term(s, p), s, p),
    decreases left(s, p), 1nat,
{
    lemma_term_full_expression_within(s, p);
    lemma_term_operator_within(s, p);
    lemma_term_brackets_within(s, p);
}

/// A term in parentheses stays inside the tokens.
pub proof fn lemma_term_full_expression_within(s: Seq<TokenView>, p: nat)
    ensures
        within(parse_term_full_expression(s, p), s, p),
    decreases left(s, p), 0nat,
{
    if is_kind(s, p, TLTokenEnum::OPBR) {
        lemma_full_expression_within(s, p + 1);
    }
}

/// A `%` term stays inside the tokens.
pub proof fn lemma_term_operator_within(s: Seq<TokenView>, p: nat)
    ensures
        within(parse_term_operator(s, p), s, p),
    decreases left(s, p), 0nat,
{
    if is_kind(s, p, TLTokenEnum::PERCENT) {
        lemma_term_within(s, p + 1);
    }
}

/// A generic application stays inside the tokens.
pub proof fn lemma_term_brackets_within(s: Seq<TokenView>, p: nat)
    ensures
        within(parse_term_brackets(s, p), s, p),
    decreases left(s, p), 0nat,
{
    match type_ident(s, p) {
        Parsed::Done { used, value } => {
            if is_kind(s, p + used, TLTokenEnum::LESSTHAN) {
                lemma_expression_groups_within(s, p + used + 1);
            }
        },
        _ => {},
    }
}

/// The groups of a generic application stays inside the tokens.
pub proof fn lemma_expression_groups_within(s: Seq<TokenView>, p: nat)
    ensures
        within(expression_groups(s, p), s, p),
    decreases left(s, p), 6nat,
{
    lemma_many1_expression_within(s, p);
    match many1_expression(s, p) {
        Parsed::Done { used, value } => {
            if used > 0 {
                lemma_more_expression_groups_within(s, p + used);
            }
        },
        _ => {},
    }
}

/// The groups after the first never mismatch and stay inside the tokens.
pub proof fn lemma_more_expression_groups_within(s: Seq<TokenView>, p: nat)
    ensures
        more_expression_groups(s, p) is Done ==> more_expression_groups(s, p)->used <= left(s, p),
        more_expression_groups(s, p) is Failure ==> p <= more_expression_groups(s, p)->Failure_at
            <= p + left(s, p),
        !(more_expression_groups(s, p) is Mismatch),
    decreases left(s, p), 5nat,
{
    if is_kind(s, p, TLTokenEnum::COMA) {
        lemma_many1_expression_within(s, p + 1);
        match many1_expression(s, p + 1) {
            Parsed::Done { used, value } => {
                lemma_more_expression_groups_within(s, p + 1 + used);
            },
            _ => {},
        }
    }
}

/// The continuation of a sum stays inside the tokens.
pub proof fn lemma_expression_hp_within(s: Seq<TokenView>, p: nat)
    ensures
        within(parse_expression_hp(s, p), s, p),
    decreases left(s, p), 1nat,
{
    if is_kind(s, p, TLTokenEnum::PLUS) {
        match nat_const(s, p + 1) {
            Parsed::Done { used, value } => {
                lemma_expression_within(s, p + 1 + used);
            },
            _ => {},
        }
    }
}

/// A term with its continuation stays inside the tokens.
pub proof fn lemma_expression_of_term_within(s: Seq<TokenView>, p: nat)
    ensures
        within(expression_of_term(s, p), s, p),
    decreases left(s, p), 2nat,
{
    lemma_term_within(s, p);
    match parse_term(s, p) {
        Parsed::Done { used, value } => {
            lemma_expression_hp_within(s, p + used);
        },
        _ => {},
    }
}

/// A sum that leads with a number stays inside the tokens.
pub proof fn lemma_expression_of_sum_within(s: Seq<TokenView>, p: nat)
    ensures
        within(expression_of_sum(s, p), s, p),
    decreases left(s, p), 2nat,
{
    match nat_const(s, p) {
        Parsed::Done { used, value } => {
            if is_kind(s, p + used, TLTokenEnum::PLUS) {
                lemma_expression_within(s, p + used + 1);
                match parse_expression(s, p + used + 1) {
                    Parsed::Done { used: more, value } => {
                        lemma_expression_hp_within(s, p + used + 1 + more);
                    },
                    _ => {},
                }
            }
        },
        _ => {},
    }
}

/// An expression stays inside the tokens.
pub proof fn lemma_expression_within(s: Seq<TokenView>, p: nat)
    ensures
        within(parse_expression(s, p), s, p),
    decreases left(s, p), 3nat,
{
    lemma_expression_of_term_within(s, p);
    lemma_expression_of_sum_within(s, p);
}

/// A run of expressions stays inside the tokens.
pub proof fn lemma_many0_expression_within(s: Seq<TokenView>, p: nat)
    ensures
        within(many0_expression(s, p), s, p),
    decreases left(s, p), 4nat,
{
    if p < s.len() {
        lemma_expression_within(s, p);
        match parse_expression(s, p) {
            Parsed::Done { used, value } => {
                if used > 0 {
                    lemma_many0_expression_within(s, p + used);
                }
            },
            _ => {},
        }
    }
}

/// A run of one or more expressions stays inside the tokens.
pub proof fn lemma_many1_expression_within(s: Seq<TokenView>, p: nat)
    ensures
        within(many1_expression(s, p), s, p),
    decreases left(s, p), 5nat,
{
    lemma_expression_within(s, p);
    match parse_expression(s, p) {
        Parsed::Done { used, value } => {
            lemma_many0_expression_within(s, p + used);
        },
        _ => {},
    }
}

/// A sequence of expressions stays inside the tokens.
pub proof fn lemma_full_expression_within(s: Seq<TokenView>, p: nat)
    ensures
        within(parse_full_expression(s, p), s, p),
    decreases left(s, p), 5nat,
{
    lemma_many0_expression_within(s, p);
}

/// The groups of a result type stays inside the tokens.
pub proof fn lemma_full_expression_groups_within(s: Seq<TokenView>, p: nat)
    ensures
        within(full_expression_groups(s, p), s, p),
{
    lemma_full_expression_within(s, p);
    match parse_full_expression(s, p) {
        Parsed::Done { used, value } => {
            if used > 0 {
                lemma_more_full_expression_groups_within(s, p + used);
            }
        },
        _ => {},
    }
}

/// The groups of a result type after the first never mismatch and stay inside the tokens.
pub proof fn lemma_more_full_expression_groups_within(s: Seq<TokenView>, p: nat)
    ensures
        more_full_expression_groups(s, p) is Done ==> more_full_expression_groups(s, p)->used
            <= left(s, p),
        more_full_expression_groups(s, p) is Failure ==> p <= more_full_expression_groups(
            s,
            p,
        )->Failure_at <= p + left(s, p),
        !(more_full_expression_groups(s, p) is Mismatch),
    decreases left(s, p),
{
    if is_kind(s, p, TLTokenEnum::COMA) {
        lemma_full_expression_within(s, p + 1);
        match parse_full_expression(s, p + 1) {
            Parsed::Done { used, value } => {
                lemma_more_full_expression_groups_within(s, p + 1 + used);
            },
            _ => {},
        }
    }
}

/// The arguments of a result type in angle brackets stays inside the tokens.
pub proof fn lemma_result_type_helper_within(s: Seq<TokenView>, p: nat)
    ensures
        within(parse_result_type_helper(s, p), s, p),
{
    if is_kind(s, p, TLTokenEnum::LESSTHAN) {
        lemma_full_expression_groups_within(s, p + 1);
    }
}

/// A result type stays inside the tokens.
pub proof fn lemma_result_type_within(s: Seq<TokenView>, p: nat)
    ensures
        within(parse_result_type(s, p), s, p),
{
    match uc_ident(s, p) {
        Parsed::Done { used, value } => {
            lemma_result_type_helper_within(s, p + used);
            lemma_many0_expression_within(s, p + used);
        },
        _ => {},
    }
}

/// The type of an argument stays inside the tokens.
pub proof fn lemma_type_term_with_bang_within(s: Seq<TokenView>, p: nat)
    ensures
        within(parse_type_term_with_bang(s, p), s, p),
{
    lemma_term_within(s, p);
    lemma_term_within(s, p + 1);
}

/// A row of binders is no longer than the tokens that are left.
pub proof fn lemma_binders_within(s: Seq<TokenView>, p: nat)
    ensures
        binders(s, p).len() <= left(s, p),
    decreases left(s, p),
{
    if var_name_optional(s, p) is Done {
        lemma_binders_within(s, p + 1);
    }
}

/// A row of names is no longer than the tokens that are left.
pub proof fn lemma_names_within(s: Seq<TokenView>, p: nat)
    ensures
        names(s, p).len() <= left(s, p),
    decreases left(s, p),
{
    if var_name(s, p) is Done {
        lemma_names_within(s, p + 1);
    }
}

/// The count of a repeated group stays inside the tokens.
pub proof fn lemma_multiplicity_count_within(s: Seq<TokenView>, p: nat)
    ensures
        within(multiplicity_count(s, p), s, p),
{
    lemma_term_within(s, p);
}

/// A repeated group stays inside the tokens.
pub proof fn lemma_multiplicity_args_within(s: Seq<TokenView>, p: nat)
    ensures
        within(parse_multiplicity_args(s, p), s, p),
    decreases left(s, p), 3nat,
{
    match multiplicity_binder(s, p) {
        Parsed::Done { used: b, value } => {
            lemma_multiplicity_count_within(s, p + b);
            match multiplicity_count(s, p + b) {
                Parsed::Done { used: c, value } => {
                    if is_kind(s, p + b + c, TLTokenEnum::OPSBR) {
                        lemma_many0_args_within(s, p + b + c + 1);
                    }
                },
                _ => {},
            }
        },
        _ => {},
    }
}

/// A named argument stays inside the tokens.
pub proof fn lemma_simple_arg_within(s: Seq<TokenView>, p: nat)
    ensures
        within(parse_simple_arg(s, p), s, p),
{
    lemma_type_term_with_bang_within(s, p + 2);
    lemma_type_term_with_bang_within(s, p + 6);
}

/// A list of arguments of one type stays inside the tokens.
pub proof fn lemma_list_args_within(s: Seq<TokenView>, p: nat)
    ensures
        within(parse_list_args(s, p), s, p),
{
    if is_kind(s, p, TLTokenEnum::OPBR) {
        lemma_binders_within(s, p + 1);
        match many1_var_name_optional(s, p + 1) {
            Parsed::Done { used: n, value } => {
                lemma_type_term_with_bang_within(s, p + 2 + n);
            },
            _ => {},
        }
    }
}

/// A type alone stays inside the tokens.
pub proof fn lemma_short_arg_within(s: Seq<TokenView>, p: nat)
    ensures
        within(parse_short_arg(s, p), s, p),
{
    lemma_type_term_with_bang_within(s, p);
}

/// A group of arguments stays inside the tokens.
pub proof fn lemma_args_within(s: Seq<TokenView>, p: nat)
    ensures
        within(parse_args(s, p), s, p),
    decreases left(s, p), 4nat,
{
    lemma_multiplicity_args_within(s, p);
    lemma_simple_arg_within(s, p);
    lemma_list_args_within(s, p);
    lemma_short_arg_within(s, p);
}

/// A run of groups of arguments stays inside the tokens.
pub proof fn lemma_many0_args_within(s: Seq<TokenView>, p: nat)
    ensures
        within(many0_args(s, p), s, p),
    decreases left(s, p), 5nat,
{
    if p < s.len() {
        lemma_args_within(s, p);
        match parse_args(s, p) {
            Parsed::Done { used, value } => {
                if used > 0 {
                    lemma_many0_args_within(s, p + used);
                }
            },
            _ => {},
        }
    }
}

/// A group of optional arguments stays inside the tokens.
pub proof fn lemma_optional_args_within(s: Seq<TokenView>, p: nat)
    ensures
        within(parse_optional_args(s, p), s, p),
{
    if is_kind(s, p, TLTokenEnum::OPCBR) {
        lemma_names_within(s, p + 1);
        match many1_var_name(s, p + 1) {
            Parsed::Done { used: n, value } => {
                lemma_type_term_with_bang_within(s, p + 2 + n);
            },
            _ => {},
        }
    }
}

/// A run of groups of optional arguments stays inside the tokens.
pub proof fn lemma_many0_optional_args_within(s: Seq<TokenView>, p: nat)
    ensures
        within(many0_optional_args(s, p), s, p),
    decreases left(s, p),
{
    if p < s.len() {
        lemma_optional_args_within(s, p);
        match parse_optional_args(s, p) {
            Parsed::Done { used, value } => {
                if used > 0 {
                    lemma_many0_optional_args_within(s, p + used);
                }
            },
            _ => {},
        }
    }
}

/// A combinator stays inside the tokens.
pub proof fn lemma_combinator_within(s: Seq<TokenView>, p: nat)
    ensures
        within(parse_combinator(s, p), s, p),
{
    match combinator_name(s, p) {
        Parsed::Done { used: n, value } => {
            lemma_many0_optional_args_within(s, p + n);
            match many0_optional_args(s, p + n) {
                Parsed::Done { used: o, value } => {
                    lemma_many0_args_within(s, p + n + o);
                    match many0_args(s, p + n + o) {
                        Parsed::Done { used: a, value } => {
                            lemma_result_type_within(s, p + n + o + a + 1);
                        },
                        _ => {},
                    }
                },
                _ => {},
            }
        },
        _ => {},
    }
}

/// A built-in stays inside the tokens.
pub proof fn lemma_builtin_within(s: Seq<TokenView>, p: nat)
    ensures
        within(parse_builtin(s, p), s, p),
{
    match combinator_name(s, p) {
        Parsed::Done { used: n, value } => {
            lemma_result_type_within(s, p + n + 2);
        },
        _ => {},
    }
}

/// A final declaration stays inside the tokens.
pub proof fn lemma_final_within(s: Seq<TokenView>, p: nat)
    ensures
        within(parse_final(s, p), s, p),
{
}

/// A declaration stays inside the tokens.
pub proof fn lemma_declaration_within(s: Seq<TokenView>, p: nat)
    ensures
        within(parse_declaration(s, p), s, p),
{
    lemma_combinator_within(s, p);
    lemma_builtin_within(s, p);
    lemma_final_within(s, p);
}

/// A run of declarations stays inside the tokens.
pub proof fn lemma_many0_declaration_within(s: Seq<TokenView>, p: nat)
    ensures
        within(many0_declaration(s, p), s, p),
    decreases left(s, p),
{
    if p < s.len() {
        lemma_declaration_within(s, p);
        match parse_declaration(s, p) {
            Parsed::Done { used, value } => {
                if used > 0 {
                    lemma_many0_declaration_within(s, p + used);
                }
            },
            _ => {},
        }
    }
}

/// A block stays inside the tokens.
pub proof fn lemma_block_within(s: Seq<TokenView>, p: nat)
    ensures
        within(parse_block(s, p), s, p),
{
    lemma_many0_declaration_within(s, p + 3);
}

/// A run of blocks stays inside the tokens.
pub proof fn lemma_many0_block_within(s: Seq<TokenView>, p: nat)
    ensures
        within(many0_block(s, p), s, p),
    decreases left(s, p),
{
    if p < s.len() {
        lemma_block_within(s, p);
        match parse_block(s, p) {
            Parsed::Done { used, value } => {
                if used > 0 {
                    lemma_many0_block_within(s, p + used);
                }
            },
            _ => {},
        }
    }
}

/// The program rule stays inside the tokens: what it leaves over starts at
/// a token that is there.
pub proof fn lemma_program_within(s: Seq<TokenView>, p: nat)
    ensures
        within(parse_program(s, p), s, p),
{
    lemma_many0_declaration_within(s, p);
    match many0_declaration(s, p) {
        Parsed::Done { used, value } => {
            lemma_many0_block_within(s, p + used);
        },
        _ => {},
    }
}

} // verus!
