use tl_parser::ast::TLExpression;
use tl_parser::lexer::{lex, TLToken, Tokens};
use tl_parser::rules::expressions::{
    empty, many0_expression, parse_expression, parse_full_expression, parse_result_type,
    parse_term, parse_type_term_with_bang,
};
use tl_parser::rules::{TLParseError, TLParser};

fn tokens_of(text: &str) -> Vec<TLToken> {
    let mut store = Vec::new();
    lex(text, &mut store);
    store
}

/// The value and the position after it, or the error, as text.
fn shown(result: TLParser<TLExpression>) -> String {
    match result {
        Ok((rest, value)) => format!("{:?} @{}", value, rest.start),
        Err(e) => format!("{:?}", e),
    }
}

fn lo(name: &str) -> String {
    format!("Ident(Lower(Name(\"{}\")))", name)
}

fn up(name: &str) -> String {
    format!("Ident(Upper(Name(\"{}\")))", name)
}

fn seq(items: &[String]) -> String {
    format!("Expression([{}])", items.join(", "))
}

/// An expression made of a term without a continuation.
fn ex(term: String) -> String {
    seq(&[term, "Empty".to_string()])
}

fn term(text: &str) -> String {
    let store = tokens_of(text);
    shown(parse_term(Tokens::new(&store)))
}

fn expression(text: &str) -> String {
    let store = tokens_of(text);
    shown(parse_expression(Tokens::new(&store)))
}

fn full_expression(text: &str) -> String {
    let store = tokens_of(text);
    shown(parse_full_expression(Tokens::new(&store)))
}

fn result_type(text: &str) -> String {
    let store = tokens_of(text);
    shown(parse_result_type(Tokens::new(&store)))
}

fn bang(text: &str) -> String {
    let store = tokens_of(text);
    shown(parse_type_term_with_bang(Tokens::new(&store)))
}

#[test]
fn term_in_parentheses() {
    assert_eq!(term("(aa bb)"), format!("{} @4", seq(&[ex(lo("aa")), ex(lo("bb"))])));
    assert_eq!(term("()"), "Expression([]) @2");
    assert_eq!(term("((aa))"), format!("{} @5", seq(&[ex(seq(&[ex(lo("aa"))]))])));
}

#[test]
fn term_in_parentheses_left_open() {
    assert_eq!(term("(aa"), "Mismatch { position: 0 }");
    assert_eq!(term("(aa ;"), "Mismatch { position: 0 }");
}

#[test]
fn term_with_percent_is_bang() {
    assert_eq!(term("%foo"), format!("Operator(Bang, {}) @2", lo("foo")));
    assert_eq!(term("%%Foo"), format!("Operator(Bang, Operator(Bang, {})) @3", up("Foo")));
    assert_eq!(term("%"), "Mismatch { position: 0 }");
}

#[test]
fn term_hash_and_number() {
    assert_eq!(term("#"), "Hash @1");
    assert_eq!(term("42"), "Nat(42) @1");
    assert_eq!(term("0"), "Nat(0) @1");
    assert_eq!(term("4294967295"), "Nat(4294967295) @1");
}

#[test]
fn term_number_too_large_is_hard_failure() {
    assert_eq!(term("4294967296"), "Failure { position: 0 }");
    assert_eq!(term("%99999999999"), "Failure { position: 1 }");
    assert_eq!(term("(aa 99999999999)"), "Failure { position: 2 }");
}

#[test]
fn term_generic_application_groups() {
    assert_eq!(
        term("Vector<int>"),
        format!("{} @4", seq(&[up("Vector"), seq(&[seq(&[ex(lo("int"))])])]))
    );
    assert_eq!(
        term("Map<aa bb, cc>"),
        format!(
            "{} @7",
            seq(&[up("Map"), seq(&[seq(&[ex(lo("aa")), ex(lo("bb"))]), seq(&[ex(lo("cc"))])])])
        )
    );
    assert_eq!(
        term("vector<Vector<int>>"),
        format!(
            "{} @7",
            seq(&[
                lo("vector"),
                seq(&[seq(&[ex(seq(&[up("Vector"), seq(&[seq(&[ex(lo("int"))])])]))])])
            ])
        )
    );
}

#[test]
fn term_generic_application_falls_back_to_the_name() {
    assert_eq!(term("Vector<>"), format!("{} @1", up("Vector")));
    assert_eq!(term("Vector<int"), format!("{} @1", up("Vector")));
    assert_eq!(term("Vector<int,>"), format!("{} @1", up("Vector")));
    assert_eq!(term("Vector"), format!("{} @1", up("Vector")));
}

#[test]
fn term_names_with_namespace() {
    assert_eq!(term("foo.bar"), "Ident(Lower(NameNs { ns: \"foo\", name: \"bar\" })) @3");
    assert_eq!(term("foo.Bar"), "Ident(Upper(NameNs { ns: \"foo\", name: \"Bar\" })) @3");
    assert_eq!(term("foo."), "Mismatch { position: 2 }");
    assert_eq!(term("Foo.bar"), format!("{} @1", up("Foo")));
}

#[test]
fn term_mismatches() {
    assert_eq!(term(""), "Mismatch { position: 0 }");
    assert_eq!(term(";"), "Mismatch { position: 0 }");
    assert_eq!(term("Final"), "Mismatch { position: 0 }");
    assert_eq!(term("x"), "Mismatch { position: 0 }");
    assert_eq!(term("7f"), "Mismatch { position: 0 }");
}

#[test]
fn expression_of_a_term() {
    assert_eq!(expression("foo"), format!("{} @1", ex(lo("foo"))));
    assert_eq!(expression("foo bar"), format!("{} @1", ex(lo("foo"))));
    assert_eq!(expression("#"), format!("{} @1", ex("Hash".to_string())));
    assert_eq!(expression(""), "Mismatch { position: 0 }");
    assert_eq!(expression("+ 2"), "Mismatch { position: 0 }");
}

#[test]
fn expression_with_sum() {
    let two = seq(&["Nat(2)".to_string(), "Empty".to_string()]);
    assert_eq!(
        expression("foo + 2"),
        format!("{} @3", seq(&[lo("foo"), format!("Operator(Plus, {})", two)]))
    );
    let two_bar = seq(&["Nat(2)".to_string(), ex(lo("bar"))]);
    assert_eq!(
        expression("foo + 2 bar"),
        format!("{} @4", seq(&[lo("foo"), format!("Operator(Plus, {})", two_bar)]))
    );
    let three = seq(&["Nat(3)".to_string(), "Empty".to_string()]);
    assert_eq!(
        expression("2 + 3"),
        format!("{} @3", seq(&["Nat(2)".to_string(), format!("Operator(Plus, {})", three)]))
    );
}

#[test]
fn expression_sum_needs_a_number_after_plus() {
    assert_eq!(expression("2 + nn"), format!("{} @1", ex("Nat(2)".to_string())));
    assert_eq!(expression("foo +"), format!("{} @1", ex(lo("foo"))));
}

#[test]
fn expression_sum_chain() {
    let inner = seq(&["Nat(2)".to_string(), "Empty".to_string()]);
    let middle = seq(&["Nat(1)".to_string(), format!("Operator(Plus, {})", inner)]);
    let outer = seq(&["Nat(1)".to_string(), middle.clone()]);
    assert_eq!(
        expression("nn + 1 1 + 2"),
        format!("{} @6", seq(&[lo("nn"), format!("Operator(Plus, {})", outer)]))
    );
}

#[test]
fn expression_number_too_large_after_plus() {
    assert_eq!(expression("foo + 99999999999"), "Failure { position: 2 }");
}

#[test]
fn full_expression_takes_what_matches() {
    assert_eq!(full_expression("aa bb ;"), format!("{} @2", seq(&[ex(lo("aa")), ex(lo("bb"))])));
    assert_eq!(full_expression(";"), "Expression([]) @0");
    assert_eq!(full_expression(""), "Expression([]) @0");
    assert_eq!(full_expression("aa 99999999999"), "Failure { position: 1 }");
}

#[test]
fn many0_expression_collects_in_order() {
    let store = tokens_of("aa # 3 =");
    let (rest, items) = many0_expression(Tokens::new(&store)).unwrap();
    assert_eq!(rest.start, 3);
    assert_eq!(
        format!("{:?}", items),
        format!("[{}, {}, {}]", ex(lo("aa")), ex("Hash".to_string()), ex("Nat(3)".to_string()))
    );
}

#[test]
fn result_type_with_bare_arguments() {
    assert_eq!(result_type("Bool"), format!("{} @1", seq(&[up("Bool")])));
    assert_eq!(result_type("Vector tt;"), format!("{} @2", seq(&[up("Vector"), ex(lo("tt"))])));
    assert_eq!(
        result_type("Either aa Bb;"),
        format!("{} @3", seq(&[up("Either"), ex(lo("aa")), ex(up("Bb"))]))
    );
    assert_eq!(
        result_type("ns.Vector tt"),
        "Expression([Ident(Upper(NameNs { ns: \"ns\", name: \"Vector\" })), Expression([Ident(Lower(Name(\"tt\"))), Empty])]) @4"
    );
}

#[test]
fn result_type_with_angle_brackets() {
    assert_eq!(
        result_type("Vector<tt>"),
        format!("{} @4", seq(&[up("Vector"), seq(&[ex(lo("tt"))])]))
    );
    assert_eq!(
        result_type("Map<aa, bb cc>;"),
        format!(
            "{} @7",
            seq(&[up("Map"), seq(&[ex(lo("aa"))]), seq(&[ex(lo("bb")), ex(lo("cc"))])])
        )
    );
}

#[test]
fn result_type_group_after_comma_may_be_empty() {
    assert_eq!(
        result_type("Map<aa,>"),
        format!("{} @5", seq(&[up("Map"), seq(&[ex(lo("aa"))]), "Expression([])".to_string()]))
    );
}

#[test]
fn result_type_first_group_may_not_be_empty() {
    assert_eq!(result_type("Map<>"), format!("{} @1", seq(&[up("Map")])));
    assert_eq!(result_type("Map<,aa>"), format!("{} @1", seq(&[up("Map")])));
}

#[test]
fn result_type_needs_an_upper_case_name() {
    assert_eq!(result_type("vector tt"), "Mismatch { position: 0 }");
    assert_eq!(result_type(""), "Mismatch { position: 0 }");
    assert_eq!(result_type("Vector 99999999999"), "Failure { position: 1 }");
}

#[test]
fn type_term_with_and_without_bang() {
    assert_eq!(bang("!Xs"), format!("Operator(Bang, {}) @2", up("Xs")));
    assert_eq!(bang("Xs"), format!("{} @1", up("Xs")));
    assert_eq!(bang("!#"), "Operator(Bang, Hash) @2");
    assert_eq!(bang("!"), "Mismatch { position: 1 }");
    assert_eq!(bang("!!Xs"), "Mismatch { position: 1 }");
    assert_eq!(bang("!X"), "Mismatch { position: 1 }");
}

#[test]
fn empty_turns_a_mismatch_into_the_empty_node() {
    let store = tokens_of("aa bb");
    let input = Tokens::new(&store).advance();
    let out = empty(input, Err(TLParseError::Mismatch { position: 1 }));
    assert_eq!(shown(out), "Empty @1");
}

#[test]
fn empty_hands_on_a_match_and_a_failure() {
    let store = tokens_of("aa bb");
    let input = Tokens::new(&store);
    let out = empty(input, Ok((input.advance(), TLExpression::Hash)));
    assert_eq!(shown(out), "Hash @1");
    let out = empty(input, Err(TLParseError::Failure { position: 7 }));
    assert_eq!(shown(out), "Failure { position: 7 }");
}
