use tl_parser::ast::{
    TLArg, TLCName, TLCombinator, TLDeclaration, TLDeclarationBlock, TLExpression, TLLowerName,
    TLOperator, TLProgram, TLTypeIdent, TLUpperName, TLVarName,
};
use tl_parser::lexer::{lex, TLToken, TLTokenEnum, Tokens};
use tl_parser::parser::{parse_tl, TLError};
use tl_parser::rules::expressions::{parse_term, parse_type_term_with_bang};
use tl_parser::rules::program::parse_program;
use tl_parser::rules::{combinator_name, TLParseError};

fn token(kind: TLTokenEnum, text: &str) -> TLToken {
    TLToken { token_type: kind, token: text.to_string() }
}

fn upper(name: &str) -> TLExpression {
    TLExpression::Ident(TLTypeIdent::Upper(TLUpperName::Name(name.to_string())))
}

fn lower(name: &str) -> TLExpression {
    TLExpression::Ident(TLTypeIdent::Lower(TLLowerName::Name(name.to_string())))
}

fn plain(term: TLExpression) -> TLExpression {
    TLExpression::Expression(vec![term, TLExpression::Empty])
}

#[test]
fn combinator_name_with_namespace_and_magic() {
    let mut store = Vec::new();
    let tokens = lex("antispam.searchPattern#7f639b9d", &mut store);
    let (rest, name) = combinator_name(tokens).unwrap();
    assert_eq!(rest.start, 5);
    assert_eq!(rest.end, 5);
    let expected = TLCName::FullName(
        TLLowerName::NameNs { ns: "antispam".to_string(), name: "searchPattern".to_string() },
        0x7f639b9d,
    );
    assert_eq!(format!("{:?}", name), format!("{:?}", expected));
}

#[test]
fn type_term_with_bang_wraps_identifier() {
    let store = vec![token(TLTokenEnum::EXCLMARK, "!"), token(TLTokenEnum::UCIDENT, "X")];
    let (rest, term) = parse_type_term_with_bang(Tokens::new(&store)).unwrap();
    assert_eq!(rest.start, 2);
    let expected = TLExpression::Operator(TLOperator::Bang, Box::new(upper("X")));
    assert_eq!(format!("{:?}", term), format!("{:?}", expected));
}

#[test]
fn type_term_with_bang_from_text() {
    let mut store = Vec::new();
    let tokens = lex("!Xs", &mut store);
    let (rest, term) = parse_type_term_with_bang(tokens).unwrap();
    assert_eq!(rest.start, 2);
    let expected = TLExpression::Operator(TLOperator::Bang, Box::new(upper("Xs")));
    assert_eq!(format!("{:?}", term), format!("{:?}", expected));
}

#[test]
fn term_generic_application() {
    let mut store = Vec::new();
    let tokens = lex("Vector<int>", &mut store);
    let (rest, term) = parse_term(tokens).unwrap();
    assert_eq!(rest.start, 4);
    let expected = TLExpression::Expression(vec![
        upper("Vector"),
        TLExpression::Expression(vec![TLExpression::Expression(vec![plain(lower("int"))])]),
    ]);
    assert_eq!(format!("{:?}", term), format!("{:?}", expected));
}

fn bool_combinator(name: &str) -> TLDeclaration {
    TLDeclaration::Combinator(TLCombinator {
        identifier: TLCName::Name(TLLowerName::Name(name.to_string())),
        args: vec![],
        result_type: TLExpression::Expression(vec![upper("Bool")]),
    })
}

#[test]
fn single_declaration_program() {
    let program = parse_tl("boolTrue = Bool;").unwrap();
    let expected =
        TLProgram { blocks: vec![TLDeclarationBlock::Types(vec![bool_combinator("boolTrue")])] };
    assert_eq!(format!("{:?}", program), format!("{:?}", expected));
}

#[test]
fn explicit_blocks_after_empty_leading_block() {
    let program =
        parse_tl("--- Types ---\nboolTrue = Bool;\n--- Functions ---\nping = Bool;").unwrap();
    assert_eq!(program.blocks.len(), 3);
    match &program.blocks[0] {
        TLDeclarationBlock::Types(decls) => assert_eq!(decls.len(), 0),
        _ => panic!("the leading block is a block of types"),
    }
    match &program.blocks[1] {
        TLDeclarationBlock::Types(decls) => {
            assert_eq!(decls.len(), 1);
            assert_eq!(format!("{:?}", decls[0]), format!("{:?}", bool_combinator("boolTrue")));
        },
        _ => panic!("the second block is a block of types"),
    }
    match &program.blocks[2] {
        TLDeclarationBlock::Functions(decls) => {
            assert_eq!(decls.len(), 1);
            assert_eq!(format!("{:?}", decls[0]), format!("{:?}", bool_combinator("ping")));
        },
        _ => panic!("the last block is a block of functions"),
    }
}

#[test]
fn magic_number_is_hard_failure_when_malformed() {
    assert_eq!(parse_tl("foo#zzzz = Bar;").err(), Some(TLError::Grammar { position: 2 }));
    let mut store = Vec::new();
    let tokens = lex("foo#zzzz = Bar;", &mut store);
    assert_eq!(combinator_name(tokens).err(), Some(TLParseError::Failure { position: 2 }));
}

#[test]
fn trailing_token_is_reported() {
    assert_eq!(
        parse_tl("boolTrue = Bool; )").err(),
        Some(TLError::TrailingInput { position: 4 })
    );
}

#[test]
fn program_rule_leaves_trailing_token() {
    let mut store = Vec::new();
    let tokens = lex("boolTrue = Bool; )", &mut store);
    let (rest, program) = parse_program(tokens).unwrap();
    assert_eq!(rest.start, 4);
    assert_eq!(program.blocks.len(), 1);
}

#[test]
fn var_names_clone() {
    let name = TLVarName::Name("flags".to_string());
    assert_eq!(format!("{:?}", name.clone()), format!("{:?}", name));
    let arg = TLArg::Arg(Some(name), upper("Bool"));
    assert_eq!(format!("{:?}", arg), "Arg(Some(Name(\"flags\")), Ident(Upper(Name(\"Bool\"))))");
}
