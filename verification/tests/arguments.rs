use tl_parser::ast::{TLArg, TLExpression, TLVarName};
use tl_parser::lexer::{lex, TLToken, Tokens};
use tl_parser::rules::args::{
    flatten, flatten_args, many0_args, many0_optional_args, parse_args, parse_multiplicity_args,
    parse_optional_args,
};
use tl_parser::rules::TLParser;

fn tokens_of(text: &str) -> Vec<TLToken> {
    let mut store = Vec::new();
    lex(text, &mut store);
    store
}

fn shown(result: TLParser<Vec<TLArg>>) -> String {
    match result {
        Ok((rest, value)) => format!("{:?} @{}", value, rest.start),
        Err(e) => format!("{:?}", e),
    }
}

fn args(text: &str) -> String {
    let store = tokens_of(text);
    shown(parse_args(Tokens::new(&store)))
}

fn optional_args(text: &str) -> String {
    let store = tokens_of(text);
    shown(parse_optional_args(Tokens::new(&store)))
}

fn multiplicity(text: &str) -> String {
    let store = tokens_of(text);
    shown(parse_multiplicity_args(Tokens::new(&store)))
}

const INT: &str = "Ident(Lower(Name(\"int\")))";

#[test]
fn simple_argument() {
    assert_eq!(args("foo:int"), format!("[Arg(Some(Name(\"foo\")), {})] @3", INT));
    assert_eq!(args("Foo:int"), format!("[Arg(Some(Name(\"Foo\")), {})] @3", INT));
    assert_eq!(args("_:int"), format!("[Arg(None, {})] @3", INT));
    assert_eq!(args("foo:!int"), format!("[Arg(Some(Name(\"foo\")), Operator(Bang, {}))] @4", INT));
    assert_eq!(args("nn:#"), "[Arg(Some(Name(\"nn\")), Hash)] @3");
    assert_eq!(args("Types:int"), format!("[Arg(Some(Name(\"Types\")), {})] @3", INT));
    assert_eq!(args("Functions:int"), format!("[Arg(Some(Name(\"Functions\")), {})] @3", INT));
}

#[test]
fn conditional_argument() {
    assert_eq!(
        args("foo:flags.3?int"),
        format!(
            "[ConditionalArg(Some(Name(\"foo\")), Condition(Name(\"flags\"), 3), {})] @7",
            INT
        )
    );
    assert_eq!(
        args("_:flags.0?!Xs"),
        "[ConditionalArg(None, Condition(Name(\"flags\"), 0), Operator(Bang, Ident(Upper(Name(\"Xs\")))))] @8"
    );
}

#[test]
fn conditional_argument_bit_too_large() {
    assert_eq!(args("foo:flags.99999999999?int"), "Failure { position: 4 }");
}

#[test]
fn condition_left_unfinished_leaves_a_short_argument() {
    // `flags.3` without `?`: the condition mismatches, and the type after the
    // binder would be `flags` with a namespace dot that no name follows. What
    // is left is the name alone, as a type without a binder.
    assert_eq!(args("foo:flags.3 int"), "[Arg(None, Ident(Lower(Name(\"foo\"))))] @1");
}

#[test]
fn list_of_arguments_of_one_type() {
    assert_eq!(
        args("(aa bb:int)"),
        format!("[Arg(Some(Name(\"aa\")), {}), Arg(Some(Name(\"bb\")), {})] @6", INT, INT)
    );
    assert_eq!(
        args("(aa _ Bb:!int)"),
        format!(
            "[Arg(Some(Name(\"aa\")), Operator(Bang, {i})), Arg(None, Operator(Bang, {i})), Arg(Some(Name(\"Bb\")), Operator(Bang, {i}))] @8",
            i = INT
        )
    );
    assert_eq!(args("(aa:int)"), format!("[Arg(Some(Name(\"aa\")), {})] @5", INT));
}

#[test]
fn list_of_arguments_needs_a_binder_and_a_close() {
    assert_eq!(args("(:int)"), "Mismatch { position: 0 }");
    assert_eq!(args("(aa bb:int"), "Mismatch { position: 0 }");
    assert_eq!(args("(aa bb:99999999999)"), "Failure { position: 4 }");
}

#[test]
fn short_argument() {
    assert_eq!(args("int"), format!("[Arg(None, {})] @1", INT));
    assert_eq!(args("!int"), format!("[Arg(None, Operator(Bang, {}))] @2", INT));
    assert_eq!(args("#"), "[Arg(None, Hash)] @1");
    assert_eq!(args("(aa bb)"), "[Arg(None, Expression([Expression([Ident(Lower(Name(\"aa\"))), Empty]), Expression([Ident(Lower(Name(\"bb\"))), Empty])]))] @4");
}

#[test]
fn no_argument() {
    assert_eq!(args(""), "Mismatch { position: 0 }");
    assert_eq!(args("="), "Mismatch { position: 0 }");
    assert_eq!(args("{tt:Type}"), "Mismatch { position: 0 }");
    assert_eq!(args("99999999999"), "Failure { position: 0 }");
}

#[test]
fn repeated_group() {
    assert_eq!(args("[ int ]"), format!("[MultiplicityArg(None, None, [Arg(None, {})])] @3", INT));
    assert_eq!(args("[ ]"), "[MultiplicityArg(None, None, [])] @2");
    assert_eq!(multiplicity("[ ]"), "[MultiplicityArg(None, None, [])] @2");
}

#[test]
fn repeated_group_with_binder_and_count() {
    assert_eq!(
        args("nn:tt*[ aa:int bb:string ]"),
        format!(
            "[MultiplicityArg(Some(Name(\"nn\")), Some(Ident(Lower(Name(\"tt\")))), [Arg(Some(Name(\"aa\")), {}), Arg(Some(Name(\"bb\")), Ident(Lower(Name(\"string\"))))])] @12",
            INT
        )
    );
    assert_eq!(
        args("2*[ int ]"),
        format!("[MultiplicityArg(None, Some(Nat(2)), [Arg(None, {})])] @5", INT)
    );
    assert_eq!(
        args("_:[ int ]"),
        format!("[MultiplicityArg(None, None, [Arg(None, {})])] @5", INT)
    );
}

#[test]
fn repeated_group_holds_nested_groups_flat() {
    assert_eq!(
        args("[ (aa bb:int) [ # ] cc:int ]"),
        format!(
            "[MultiplicityArg(None, None, [Arg(Some(Name(\"aa\")), {i}), Arg(Some(Name(\"bb\")), {i}), MultiplicityArg(None, None, [Arg(None, Hash)]), Arg(Some(Name(\"cc\")), {i})])] @14",
            i = INT
        )
    );
}

#[test]
fn repeated_group_left_open() {
    assert_eq!(multiplicity("[ int"), "Mismatch { position: 2 }");
    assert_eq!(args("[ int"), "Mismatch { position: 0 }");
    assert_eq!(multiplicity("nn:int"), "Mismatch { position: 2 }");
    assert_eq!(multiplicity("int"), "Mismatch { position: 0 }");
    assert_eq!(multiplicity("[ 99999999999 ]"), "Failure { position: 1 }");
    assert_eq!(multiplicity("99999999999*[ int ]"), "Failure { position: 0 }");
}

#[test]
fn optional_arguments() {
    assert_eq!(
        optional_args("{tt:Type}"),
        "[OptArg(Name(\"tt\"), Ident(Upper(Name(\"Type\"))))] @5"
    );
    assert_eq!(
        optional_args("{aa Bb:#}"),
        "[OptArg(Name(\"aa\"), Hash), OptArg(Name(\"Bb\"), Hash)] @6"
    );
    assert_eq!(
        optional_args("{Types:Type}"),
        "[OptArg(Name(\"Types\"), Ident(Upper(Name(\"Type\"))))] @5"
    );
}

#[test]
fn optional_arguments_mismatch() {
    assert_eq!(optional_args("tt:Type"), "Mismatch { position: 0 }");
    assert_eq!(optional_args("{_:Type}"), "Mismatch { position: 1 }");
    assert_eq!(optional_args("{:Type}"), "Mismatch { position: 1 }");
    assert_eq!(optional_args("{tt Type}"), "Mismatch { position: 3 }");
    assert_eq!(optional_args("{tt:Type"), "Mismatch { position: 4 }");
    assert_eq!(optional_args("{tt:}"), "Mismatch { position: 3 }");
    assert_eq!(optional_args("{tt:99999999999}"), "Failure { position: 3 }");
}

#[test]
fn groups_of_arguments_in_a_row() {
    let store = tokens_of("aa:int (bb cc:int) # = Dd");
    let (rest, groups) = many0_args(Tokens::new(&store)).unwrap();
    assert_eq!(rest.start, 10);
    assert_eq!(groups.len(), 3);
    assert_eq!(groups[0].len(), 1);
    assert_eq!(groups[1].len(), 2);
    assert_eq!(format!("{:?}", groups[2]), "[Arg(None, Hash)]");
    let store = tokens_of("= Dd");
    let (rest, groups) = many0_args(Tokens::new(&store)).unwrap();
    assert_eq!((rest.start, groups.len()), (0, 0));
    let store = tokens_of("");
    let (rest, groups) = many0_args(Tokens::new(&store)).unwrap();
    assert_eq!((rest.start, groups.len()), (0, 0));
}

#[test]
fn groups_of_optional_arguments_in_a_row() {
    let store = tokens_of("{aa bb:Type} {cc:#} dd:int");
    let (rest, groups) = many0_optional_args(Tokens::new(&store)).unwrap();
    assert_eq!(rest.start, 11);
    assert_eq!(groups.len(), 2);
    assert_eq!(groups[0].len(), 2);
    assert_eq!(format!("{:?}", groups[1]), "[OptArg(Name(\"cc\"), Hash)]");
}

#[test]
fn flatten_unwraps_one_level() {
    let name = TLVarName::Name("nn".to_string());
    assert_eq!(format!("{:?}", flatten(Some(Some(name)))), "Some(Name(\"nn\"))");
    assert_eq!(format!("{:?}", flatten(Some(None))), "None");
    assert_eq!(format!("{:?}", flatten(None)), "None");
}

#[test]
fn flatten_args_keeps_the_order() {
    let arg = |n: u32| TLArg::Arg(None, TLExpression::Nat(n));
    let mut accum = vec![arg(0)];
    flatten_args(&mut accum, vec![vec![arg(1), arg(2)], vec![], vec![arg(3)], vec![arg(4), arg(5)]]);
    assert_eq!(
        format!("{:?}", accum),
        "[Arg(None, Nat(0)), Arg(None, Nat(1)), Arg(None, Nat(2)), Arg(None, Nat(3)), Arg(None, Nat(4)), Arg(None, Nat(5))]"
    );
    flatten_args(&mut accum, vec![]);
    assert_eq!(accum.len(), 6);
}

#[test]
fn list_arguments_own_their_types() {
    let store = tokens_of("(aa bb:Vector<int>)");
    let (_, mut list) = parse_args(Tokens::new(&store)).unwrap();
    let second = list.pop().unwrap();
    let first = list.pop().unwrap();
    drop(first);
    assert_eq!(
        format!("{:?}", second),
        "Arg(Some(Name(\"bb\")), Expression([Ident(Upper(Name(\"Vector\"))), Expression([Expression([Expression([Ident(Lower(Name(\"int\"))), Empty])])])]))"
    );
}
