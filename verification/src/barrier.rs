//! No rule below a declaration reads past a `;`.
//!
//! Only a declaration accepts `;`, as its last token. So whatever a rule
//! for a name, an expression or an argument gives at a position before a
//! `;` depends on the tokens up to that `;` alone: two token sequences that
//! are the same up to it give the same result, and a match ends before it.

use crate::grammar::{
    binders, combinator_name, conditional, expression_groups, expression_of_sum,
    expression_of_term, full_expression_groups, hex_number, is_kind, left, many0_args,
    many0_expression, many0_optional_args, many1_expression, many1_var_name,
    many1_var_name_optional, more_expression_groups, more_full_expression_groups,
    multiplicity_binder, multiplicity_count, names, namespaced, nat_const, parse_args,
    parse_builtin, parse_combinator, parse_declaration, parse_expression, parse_expression_hp,
    parse_final, parse_full_expression, parse_list_args, parse_multiplicity_args,
    parse_optional_args, parse_result_type, parse_result_type_helper, parse_short_arg,
    parse_simple_arg, parse_term, parse_term_brackets, parse_term_full_expression,
    parse_term_operator, parse_type_term_with_bang, type_ident, uc_ident, var_name,
    var_name_optional, final_head, Parsed,
};
use crate::lexer::{TLTokenEnum, TokenView};
use vstd::prelude::*;

verus! {

/// Are `a` and `b` the same up to and with position `k`, where a `;` stands?
pub open spec fn barrier(a: Seq<TokenView>, b: Seq<TokenView>, k: nat) -> bool {
    &&& k < a.len()
    &&& k < b.len()
    &&& forall|i: int| 0 <= i <= k ==> a[i] == b[i]
    &&& a[k as int].kind == TLTokenEnum::SEMICOLON
}

/// Does the rule give the same on both sequences, and end before `k` where it matches?
pub open spec fn stops<T>(ra: Parsed<T>, rb: Parsed<T>, p: nat, k: nat) -> bool {
    ra == rb && (ra is Done ==> p + ra->used <= k)
}

/// A token before the barrier is of a category in both sequences or in neither.
proof fn lemma_token_barrier(a: Seq<TokenView>, b: Seq<TokenView>, k: nat, p: nat)
    requires
        barrier(a, b, k),
        p <= k,
    ensures
        a[p as int] == b[p as int],
        p < a.len(),
        p < b.len(),
        forall|kind: TLTokenEnum| is_kind(a, p, kind) == is_kind(b, p, kind),
{
}

/// Names and numbers stop at a `;`.
proof fn lemma_names_and_numbers_barrier(a: Seq<TokenView>, b: Seq<TokenView>, k: nat, p: nat)
    requires
        barrier(a, b, k),
        p <= k,
    ensures
        forall|last: TLTokenEnum|
            last != TLTokenEnum::SEMICOLON ==> stops(
                #[trigger] namespaced(a, p, last),
                namespaced(b, p, last),
                p,
                k,
            ),
        stops(hex_number(a, p), hex_number(b, p), p, k),
        stops(nat_const(a, p), nat_const(b, p), p, k),
        stops(var_name(a, p), var_name(b, p), p, k),
        stops(var_name_optional(a, p), var_name_optional(b, p), p, k),
        stops(type_ident(a, p), type_ident(b, p), p, k),
        stops(combinator_name(a, p), combinator_name(b, p), p, k),
        stops(conditional(a, p), conditional(b, p), p, k),
        stops(multiplicity_binder(a, p), multiplicity_binder(b, p), p, k),
        stops(final_head(a, p), final_head(b, p), p, k),
{
    lemma_token_barrier(a, b, k, p);
    if p + 1 <= k {
        lemma_token_barrier(a, b, k, p + 1);
    }
    if p + 2 <= k {
        lemma_token_barrier(a, b, k, p + 2);
    }
    if p + 3 <= k {
        lemma_token_barrier(a, b, k, p + 3);
    }
}

/// A term stops at a `;`.
proof fn lemma_term_barrier(a: Seq<TokenView>, b: Seq<TokenView>, k: nat, p: nat)
    requires
        barrier(a, b, k),
        p <= k,
    ensures
        stops(parse_term(a, p), parse_term(b, p), p, k),
    decreases left(a, p), 1nat,
{
    lemma_names_and_numbers_barrier(a, b, k, p);
    lemma_term_full_expression_barrier(a, b, k, p);
    lemma_term_operator_barrier(a, b, k, p);
    lemma_term_brackets_barrier(a, b, k, p);
}

/// A term in parentheses stops at a `;`.
proof fn lemma_term_full_expression_barrier(a: Seq<TokenView>, b: Seq<TokenView>, k: nat, p: nat)
    requires
        barrier(a, b, k),
        p <= k,
    ensures
        stops(parse_term_full_expression(a, p), parse_term_full_expression(b, p), p, k),
    decreases left(a, p), 0nat,
{
    lemma_token_barrier(a, b, k, p);
    if is_kind(a, p, TLTokenEnum::OPBR) {
        lemma_full_expression_barrier(a, b, k, p + 1);
        match parse_full_expression(a, p + 1) {
            Parsed::Done { used, value } => {
                lemma_token_barrier(a, b, k, p + 1 + used);
            },
            _ => {},
        }
    }
}

/// A `%` term stops at a `;`.
proof fn lemma_term_operator_barrier(a: Seq<TokenView>, b: Seq<TokenView>, k: nat, p: nat)
    requires
        barrier(a, b, k),
        p <= k,
    ensures
        stops(parse_term_operator(a, p), parse_term_operator(b, p), p, k),
    decreases left(a, p), 0nat,
{
    lemma_token_barrier(a, b, k, p);
    if is_kind(a, p, TLTokenEnum::PERCENT) {
        lemma_term_barrier(a, b, k, p + 1);
    }
}

/// A generic application stops at a `;`.
proof fn lemma_term_brackets_barrier(a: Seq<TokenView>, b: Seq<TokenView>, k: nat, p: nat)
    requires
        barrier(a, b, k),
        p <= k,
    ensures
        stops(parse_term_brackets(a, p), parse_term_brackets(b, p), p, k),
    decreases left(a, p), 0nat,
{
    lemma_names_and_numbers_barrier(a, b, k, p);
    match type_ident(a, p) {
        Parsed::Done { used, value } => {
            lemma_token_barrier(a, b, k, p + used);
            if is_kind(a, p + used, TLTokenEnum::LESSTHAN) {
                lemma_expression_groups_barrier(a, b, k, p + used + 1);
                match expression_groups(a, p + used + 1) {
                    Parsed::Done { used: more, value } => {
                        lemma_token_barrier(a, b, k, p + used + 1 + more);
                    },
                    _ => {},
                }
            }
        },
        _ => {},
    }
}

/// The groups of a generic application stop at a `;`.
proof fn lemma_expression_groups_barrier(a: Seq<TokenView>, b: Seq<TokenView>, k: nat, p: nat)
    requires
        barrier(a, b, k),
        p <= k,
    ensures
        stops(expression_groups(a, p), expression_groups(b, p), p, k),
    decreases left(a, p), 6nat,
{
    lemma_many1_expression_barrier(a, b, k, p);
    match many1_expression(a, p) {
        Parsed::Done { used, value } => {
            if used > 0 {
                lemma_more_expression_groups_barrier(a, b, k, p + used);
            }
        },
        _ => {},
    }
}

/// The groups after the first stop at a `;`.
proof fn lemma_more_expression_groups_barrier(a: Seq<TokenView>, b: Seq<TokenView>, k: nat, p: nat)
    requires
        barrier(a, b, k),
        p <= k,
    ensures
        stops(more_expression_groups(a, p), more_expression_groups(b, p), p, k),
    decreases left(a, p), 5nat,
{
    lemma_token_barrier(a, b, k, p);
    if is_kind(a, p, TLTokenEnum::COMA) {
        lemma_many1_expression_barrier(a, b, k, p + 1);
        match many1_expression(a, p + 1) {
            Parsed::Done { used, value } => {
                lemma_more_expression_groups_barrier(a, b, k, p + 1 + used);
            },
            _ => {},
        }
    }
}

/// The continuation of a sum stops at a `;`.
proof fn lemma_expression_hp_barrier(a: Seq<TokenView>, b: Seq<TokenView>, k: nat, p: nat)
    requires
        barrier(a, b, k),
        p <= k,
    ensures
        stops(parse_expression_hp(a, p), parse_expression_hp(b, p), p, k),
    decreases left(a, p), 1nat,
{
    lemma_token_barrier(a, b, k, p);
    if is_kind(a, p, TLTokenEnum::PLUS) {
        lemma_names_and_numbers_barrier(a, b, k, p + 1);
        match nat_const(a, p + 1) {
            Parsed::Done { used, value } => {
                lemma_expression_barrier(a, b, k, p + 1 + used);
            },
            _ => {},
        }
    }
}

/// A term with its continuation stops at a `;`.
proof fn lemma_expression_of_term_barrier(a: Seq<TokenView>, b: Seq<TokenView>, k: nat, p: nat)
    requires
        barrier(a, b, k),
        p <= k,
    ensures
        stops(expression_of_term(a, p), expression_of_term(b, p), p, k),
    decreases left(a, p), 2nat,
{
    lemma_term_barrier(a, b, k, p);
    match parse_term(a, p) {
        Parsed::Done { used, value } => {
            lemma_expression_hp_barrier(a, b, k, p + used);
        },
        _ => {},
    }
}

/// A sum that leads with a number stops at a `;`.
proof fn lemma_expression_of_sum_barrier(a: Seq<TokenView>, b: Seq<TokenView>, k: nat, p: nat)
    requires
        barrier(a, b, k),
        p <= k,
    ensures
        stops(expression_of_sum(a, p), expression_of_sum(b, p), p, k),
    decreases left(a, p), 2nat,
{
    lemma_names_and_numbers_barrier(a, b, k, p);
    match nat_const(a, p) {
        Parsed::Done { used, value } => {
            lemma_token_barrier(a, b, k, p + used);
            if is_kind(a, p + used, TLTokenEnum::PLUS) {
                lemma_expression_barrier(a, b, k, p + used + 1);
                match parse_expression(a, p + used + 1) {
                    Parsed::Done { used: more, value } => {
                        lemma_expression_hp_barrier(a, b, k, p + used + 1 + more);
                    },
                    _ => {},
                }
            }
        },
        _ => {},
    }
}

/// An expression stops at a `;`.
proof fn lemma_expression_barrier(a: Seq<TokenView>, b: Seq<TokenView>, k: nat, p: nat)
    requires
        barrier(a, b, k),
        p <= k,
    ensures
        stops(parse_expression(a, p), parse_expression(b, p), p, k),
    decreases left(a, p), 3nat,
{
    lemma_expression_of_term_barrier(a, b, k, p);
    lemma_expression_of_sum_barrier(a, b, k, p);
}

/// A run of expressions stops at a `;`.
proof fn lemma_many0_expression_barrier(a: Seq<TokenView>, b: Seq<TokenView>, k: nat, p: nat)
    requires
        barrier(a, b, k),
        p <= k,
    ensures
        stops(many0_expression(a, p), many0_expression(b, p), p, k),
    decreases left(a, p), 4nat,
{
    lemma_expression_barrier(a, b, k, p);
    match parse_expression(a, p) {
        Parsed::Done { used, value } => {
            if used > 0 {
                lemma_many0_expression_barrier(a, b, k, p + used);
            }
        },
        _ => {},
    }
}

/// A run of one or more expressions stops at a `;`.
proof fn lemma_many1_expression_barrier(a: Seq<TokenView>, b: Seq<TokenView>, k: nat, p: nat)
    requires
        barrier(a, b, k),
        p <= k,
    ensures
        stops(many1_expression(a, p), many1_expression(b, p), p, k),
    decreases left(a, p), 5nat,
{
    lemma_expression_barrier(a, b, k, p);
    match parse_expression(a, p) {
        Parsed::Done { used, value } => {
            lemma_many0_expression_barrier(a, b, k, p + used);
        },
        _ => {},
    }
}

/// A sequence of expressions stops at a `;`.
proof fn lemma_full_expression_barrier(a: Seq<TokenView>, b: Seq<TokenView>, k: nat, p: nat)
    requires
        barrier(a, b, k),
        p <= k,
    ensures
        stops(parse_full_expression(a, p), parse_full_expression(b, p), p, k),
    decreases left(a, p), 5nat,
{
    lemma_many0_expression_barrier(a, b, k, p);
}

/// The groups of a result type stop at a `;`.
proof fn lemma_full_expression_groups_barrier(
    a: Seq<TokenView>,
    b: Seq<TokenView>,
    k: nat,
    p: nat,
)
    requires
        barrier(a, b, k),
        p <= k,
    ensures
        stops(full_expression_groups(a, p), full_expression_groups(b, p), p, k),
{
    lemma_full_expression_barrier(a, b, k, p);
    match parse_full_expression(a, p) {
        Parsed::Done { used, value } => {
            if used > 0 {
                lemma_more_full_expression_groups_barrier(a, b, k, p + used);
            }
        },
        _ => {},
    }
}

/// The groups of a result type after the first stop at a `;`.
proof fn lemma_more_full_expression_groups_barrier(
    a: Seq<TokenView>,
    b: Seq<TokenView>,
    k: nat,
    p: nat,
)
    requires
        barrier(a, b, k),
        p <= k,
    ensures
        stops(more_full_expression_groups(a, p), more_full_expression_groups(b, p), p, k),
    decreases left(a, p),
{
    lemma_token_barrier(a, b, k, p);
    if is_kind(a, p, TLTokenEnum::COMA) {
        lemma_full_expression_barrier(a, b, k, p + 1);
        match parse_full_expression(a, p + 1) {
            Parsed::Done { used, value } => {
                lemma_more_full_expression_groups_barrier(a, b, k, p + 1 + used);
            },
            _ => {},
        }
    }
}

/// A result type stops at a `;`.
proof fn lemma_result_type_barrier(a: Seq<TokenView>, b: Seq<TokenView>, k: nat, p: nat)
    requires
        barrier(a, b, k),
        p <= k,
    ensures
        stops(parse_result_type(a, p), parse_result_type(b, p), p, k),
{
    lemma_names_and_numbers_barrier(a, b, k, p);
    match uc_ident(a, p) {
        Parsed::Done { used, value } => {
            let q = p + used;
            lemma_many0_expression_barrier(a, b, k, q);
            lemma_token_barrier(a, b, k, q);
            if is_kind(a, q, TLTokenEnum::LESSTHAN) {
                lemma_full_expression_groups_barrier(a, b, k, q + 1);
                match full_expression_groups(a, q + 1) {
                    Parsed::Done { used: more, value } => {
                        lemma_token_barrier(a, b, k, q + 1 + more);
                    },
                    _ => {},
                }
            }
            assert(parse_result_type_helper(a, q) == parse_result_type_helper(b, q));
        },
        _ => {},
    }
}

/// The type of an argument stops at a `;`.
proof fn lemma_type_term_with_bang_barrier(a: Seq<TokenView>, b: Seq<TokenView>, k: nat, p: nat)
    requires
        barrier(a, b, k),
        p <= k,
    ensures
        stops(parse_type_term_with_bang(a, p), parse_type_term_with_bang(b, p), p, k),
{
    lemma_token_barrier(a, b, k, p);
    lemma_term_barrier(a, b, k, p);
    if is_kind(a, p, TLTokenEnum::EXCLMARK) {
        lemma_term_barrier(a, b, k, p + 1);
    }
}

/// A row of binders stops at a `;`.
proof fn lemma_binders_barrier(a: Seq<TokenView>, b: Seq<TokenView>, k: nat, p: nat)
    requires
        barrier(a, b, k),
        p <= k,
    ensures
        binders(a, p) == binders(b, p),
        p + binders(a, p).len() <= k,
    decreases left(a, p),
{
    lemma_names_and_numbers_barrier(a, b, k, p);
    if var_name_optional(a, p) is Done {
        lemma_binders_barrier(a, b, k, p + 1);
    }
}

/// A row of names stops at a `;`.
proof fn lemma_names_barrier(a: Seq<TokenView>, b: Seq<TokenView>, k: nat, p: nat)
    requires
        barrier(a, b, k),
        p <= k,
    ensures
        names(a, p) == names(b, p),
        p + names(a, p).len() <= k,
    decreases left(a, p),
{
    lemma_names_and_numbers_barrier(a, b, k, p);
    if var_name(a, p) is Done {
        lemma_names_barrier(a, b, k, p + 1);
    }
}

/// The count of a repeated group stops at a `;`.
proof fn lemma_multiplicity_count_barrier(a: Seq<TokenView>, b: Seq<TokenView>, k: nat, p: nat)
    requires
        barrier(a, b, k),
        p <= k,
    ensures
        stops(multiplicity_count(a, p), multiplicity_count(b, p), p, k),
{
    lemma_term_barrier(a, b, k, p);
    match parse_term(a, p) {
        Parsed::Done { used, value } => {
            lemma_token_barrier(a, b, k, p + used);
        },
        _ => {},
    }
}

/// A repeated group stops at a `;`.
proof fn lemma_multiplicity_args_barrier(a: Seq<TokenView>, b: Seq<TokenView>, k: nat, p: nat)
    requires
        barrier(a, b, k),
        p <= k,
    ensures
        stops(parse_multiplicity_args(a, p), parse_multiplicity_args(b, p), p, k),
    decreases left(a, p), 3nat,
{
    lemma_names_and_numbers_barrier(a, b, k, p);
    match multiplicity_binder(a, p) {
        Parsed::Done { used: n, value } => {
            lemma_multiplicity_count_barrier(a, b, k, p + n);
            match multiplicity_count(a, p + n) {
                Parsed::Done { used: c, value } => {
                    let q = p + n + c;
                    lemma_token_barrier(a, b, k, q);
                    if is_kind(a, q, TLTokenEnum::OPSBR) {
                        lemma_many0_args_barrier(a, b, k, q + 1);
                        match many0_args(a, q + 1) {
                            Parsed::Done { used: m, value } => {
                                lemma_token_barrier(a, b, k, q + 1 + m);
                            },
                            _ => {},
                        }
                    }
                },
                _ => {},
            }
        },
        _ => {},
    }
}

/// A named argument stops at a `;`.
proof fn lemma_simple_arg_barrier(a: Seq<TokenView>, b: Seq<TokenView>, k: nat, p: nat)
    requires
        barrier(a, b, k),
        p <= k,
    ensures
        stops(parse_simple_arg(a, p), parse_simple_arg(b, p), p, k),
{
    lemma_names_and_numbers_barrier(a, b, k, p);
    if var_name_optional(a, p) is Done {
        lemma_token_barrier(a, b, k, p + 1);
        if is_kind(a, p + 1, TLTokenEnum::COLON) {
            lemma_names_and_numbers_barrier(a, b, k, p + 2);
            match conditional(a, p + 2) {
                Parsed::Done { used, value } => {
                    lemma_type_term_with_bang_barrier(a, b, k, p + 2 + used);
                },
                Parsed::Mismatch { at } => {
                    lemma_type_term_with_bang_barrier(a, b, k, p + 2);
                },
                _ => {},
            }
        }
    }
}

/// A list of arguments of one type stops at a `;`.
proof fn lemma_list_args_barrier(a: Seq<TokenView>, b: Seq<TokenView>, k: nat, p: nat)
    requires
        barrier(a, b, k),
        p <= k,
    ensures
        stops(parse_list_args(a, p), parse_list_args(b, p), p, k),
{
    lemma_token_barrier(a, b, k, p);
    if is_kind(a, p, TLTokenEnum::OPBR) {
        lemma_names_and_numbers_barrier(a, b, k, p + 1);
        lemma_binders_barrier(a, b, k, p + 1);
        match many1_var_name_optional(a, p + 1) {
            Parsed::Done { used: n, value } => {
                lemma_token_barrier(a, b, k, p + 1 + n);
                if is_kind(a, p + 1 + n, TLTokenEnum::COLON) {
                    lemma_type_term_with_bang_barrier(a, b, k, p + 2 + n);
                    match parse_type_term_with_bang(a, p + 2 + n) {
                        Parsed::Done { used: t, value } => {
                            lemma_token_barrier(a, b, k, p + 2 + n + t);
                        },
                        _ => {},
                    }
                }
            },
            _ => {},
        }
    }
}

/// A type alone stops at a `;`.
proof fn lemma_short_arg_barrier(a: Seq<TokenView>, b: Seq<TokenView>, k: nat, p: nat)
    requires
        barrier(a, b, k),
        p <= k,
    ensures
        stops(parse_short_arg(a, p), parse_short_arg(b, p), p, k),
{
    lemma_type_term_with_bang_barrier(a, b, k, p);
}

/// A group of arguments stops at a `;`.
proof fn lemma_args_barrier(a: Seq<TokenView>, b: Seq<TokenView>, k: nat, p: nat)
    requires
        barrier(a, b, k),
        p <= k,
    ensures
        stops(parse_args(a, p), parse_args(b, p), p, k),
    decreases left(a, p), 4nat,
{
    lemma_multiplicity_args_barrier(a, b, k, p);
    lemma_simple_arg_barrier(a, b, k, p);
    lemma_list_args_barrier(a, b, k, p);
    lemma_short_arg_barrier(a, b, k, p);
}

/// A run of groups of arguments stops at a `;`.
proof fn lemma_many0_args_barrier(a: Seq<TokenView>, b: Seq<TokenView>, k: nat, p: nat)
    requires
        barrier(a, b, k),
        p <= k,
    ensures
        stops(many0_args(a, p), many0_args(b, p), p, k),
    decreases left(a, p), 5nat,
{
    lemma_args_barrier(a, b, k, p);
    match parse_args(a, p) {
        Parsed::Done { used, value } => {
            if used > 0 {
                lemma_many0_args_barrier(a, b, k, p + used);
            }
        },
        _ => {},
    }
}

/// A group of optional arguments stops at a `;`.
proof fn lemma_optional_args_barrier(a: Seq<TokenView>, b: Seq<TokenView>, k: nat, p: nat)
    requires
        barrier(a, b, k),
        p <= k,
    ensures
        stops(parse_optional_args(a, p), parse_optional_args(b, p), p, k),
{
    lemma_token_barrier(a, b, k, p);
    if is_kind(a, p, TLTokenEnum::OPCBR) {
        lemma_names_and_numbers_barrier(a, b, k, p + 1);
        lemma_names_barrier(a, b, k, p + 1);
        match many1_var_name(a, p + 1) {
            Parsed::Done { used: n, value } => {
                lemma_token_barrier(a, b, k, p + 1 + n);
                if is_kind(a, p + 1 + n, TLTokenEnum::COLON) {
                    lemma_type_term_with_bang_barrier(a, b, k, p + 2 + n);
                    match parse_type_term_with_bang(a, p + 2 + n) {
                        Parsed::Done { used: t, value } => {
                            lemma_token_barrier(a, b, k, p + 2 + n + t);
                        },
                        _ => {},
                    }
                }
            },
            _ => {},
        }
    }
}

/// A run of groups of optional arguments stops at a `;`.
proof fn lemma_many0_optional_args_barrier(a: Seq<TokenView>, b: Seq<TokenView>, k: nat, p: nat)
    requires
        barrier(a, b, k),
        p <= k,
    ensures
        stops(many0_optional_args(a, p), many0_optional_args(b, p), p, k),
    decreases left(a, p),
{
    lemma_optional_args_barrier(a, b, k, p);
    match parse_optional_args(a, p) {
        Parsed::Done { used, value } => {
            if used > 0 {
                lemma_many0_optional_args_barrier(a, b, k, p + used);
            }
        },
        _ => {},
    }
}

/// Does the declaration rule give the same on both sequences, and end with
/// the `;` at `k` or before it where it matches?
pub open spec fn closes<T>(ra: Parsed<T>, rb: Parsed<T>, p: nat, k: nat) -> bool {
    ra == rb && (ra is Done ==> p + ra->used <= k + 1)
}

/// A combinator ends with the next `;` or before it.
proof fn lemma_combinator_barrier(a: Seq<TokenView>, b: Seq<TokenView>, k: nat, p: nat)
    requires
        barrier(a, b, k),
        p <= k,
    ensures
        closes(parse_combinator(a, p), parse_combinator(b, p), p, k),
{
    lemma_names_and_numbers_barrier(a, b, k, p);
    match combinator_name(a, p) {
        Parsed::Done { used: n, value } => {
            lemma_many0_optional_args_barrier(a, b, k, p + n);
            match many0_optional_args(a, p + n) {
                Parsed::Done { used: o, value } => {
                    lemma_many0_args_barrier(a, b, k, p + n + o);
                    match many0_args(a, p + n + o) {
                        Parsed::Done { used: g, value } => {
                            let q = p + n + o + g;
                            lemma_token_barrier(a, b, k, q);
                            if is_kind(a, q, TLTokenEnum::EQ) {
                                lemma_result_type_barrier(a, b, k, q + 1);
                                match parse_result_type(a, q + 1) {
                                    Parsed::Done { used: t, value } => {
                                        lemma_token_barrier(a, b, k, q + 1 + t);
                                    },
                                    _ => {},
                                }
                            }
                        },
                        _ => {},
                    }
                },
                _ => {},
            }
        },
        _ => {},
    }
}

/// A built-in ends with the next `;` or before it.
proof fn lemma_builtin_barrier(a: Seq<TokenView>, b: Seq<TokenView>, k: nat, p: nat)
    requires
        barrier(a, b, k),
        p <= k,
    ensures
        closes(parse_builtin(a, p), parse_builtin(b, p), p, k),
{
    lemma_names_and_numbers_barrier(a, b, k, p);
    match combinator_name(a, p) {
        Parsed::Done { used: n, value } => {
            lemma_token_barrier(a, b, k, p + n);
            if is_kind(a, p + n, TLTokenEnum::QMARK) {
                lemma_token_barrier(a, b, k, p + n + 1);
                if is_kind(a, p + n + 1, TLTokenEnum::EQ) {
                    lemma_result_type_barrier(a, b, k, p + n + 2);
                    match parse_result_type(a, p + n + 2) {
                        Parsed::Done { used: t, value } => {
                            lemma_token_barrier(a, b, k, p + n + 2 + t);
                        },
                        _ => {},
                    }
                }
            }
        },
        _ => {},
    }
}

/// A final declaration ends with the next `;` or before it.
proof fn lemma_final_barrier(a: Seq<TokenView>, b: Seq<TokenView>, k: nat, p: nat)
    requires
        barrier(a, b, k),
        p <= k,
    ensures
        closes(parse_final(a, p), parse_final(b, p), p, k),
{
    lemma_names_and_numbers_barrier(a, b, k, p);
    match final_head(a, p) {
        Parsed::Done { used: h, value } => {
            lemma_names_and_numbers_barrier(a, b, k, p + h);
            match uc_ident(a, p + h) {
                Parsed::Done { used: n, value } => {
                    lemma_token_barrier(a, b, k, p + h + n);
                },
                _ => {},
            }
        },
        _ => {},
    }
}

/// What a declaration is depends on the tokens up to the next `;` alone,
/// and a declaration ends with that `;` or before it.
pub proof fn lemma_declaration_barrier(a: Seq<TokenView>, b: Seq<TokenView>, k: nat, p: nat)
    requires
        barrier(a, b, k),
        p <= k,
    ensures
        closes(parse_declaration(a, p), parse_declaration(b, p), p, k),
{
    lemma_combinator_barrier(a, b, k, p);
    lemma_builtin_barrier(a, b, k, p);
    lemma_final_barrier(a, b, k, p);
}

} // verus!
