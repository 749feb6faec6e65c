use tl_parser::ast::{TLDeclaration, TLExpression, TLLowerName, TLTypeIdent, TLUpperName};
use tl_parser::lexer::{lex, TLToken, TLTokenEnum, Tokens};
use tl_parser::parser::{parse_tl, TLError};
use tl_parser::rules::declarations::{many0_declaration, parse_declaration};
use tl_parser::rules::program::parse_program;
use tl_parser::rules::{
    combinator_name, hex_number, lc_ident, nat_const, tag, type_ident, uc_ident, var_name,
    var_name_optional, TLParseError,
};

fn tokens_of(text: &str) -> Vec<TLToken> {
    let mut store = Vec::new();
    lex(text, &mut store);
    store
}

fn token(kind: TLTokenEnum, text: &str) -> TLToken {
    TLToken { token_type: kind, token: text.to_string() }
}

fn declaration(text: &str) -> String {
    let store = tokens_of(text);
    match parse_declaration(Tokens::new(&store)) {
        Ok((rest, value)) => format!("{:?} @{}", value, rest.start),
        Err(e) => format!("{:?}", e),
    }
}

fn name_of(text: &str) -> String {
    let store = tokens_of(text);
    match combinator_name(Tokens::new(&store)) {
        Ok((rest, value)) => format!("{:?} @{}", value, rest.start),
        Err(e) => format!("{:?}", e),
    }
}

#[test]
fn lower_case_names() {
    let store = tokens_of("foo bar.baz qux.Quux");
    let tokens = Tokens::new(&store);
    let (rest, name) = lc_ident(tokens).unwrap();
    assert_eq!((format!("{:?}", name), rest.start), ("Name(\"foo\")".to_string(), 1));
    let (rest, name) = lc_ident(rest).unwrap();
    assert_eq!(format!("{:?}", name), "NameNs { ns: \"bar\", name: \"baz\" }");
    assert_eq!(rest.start, 4);
    assert_eq!(lc_ident(rest).err(), Some(TLParseError::Mismatch { position: 6 }));
    assert_eq!(lc_ident(rest.slice_from(1)).err(), Some(TLParseError::Mismatch { position: 5 }));
}

#[test]
fn upper_case_names() {
    let store = tokens_of("Foo bar.Baz qux.quux xx");
    let tokens = Tokens::new(&store);
    let (rest, name) = uc_ident(tokens).unwrap();
    assert_eq!((format!("{:?}", name), rest.start), ("Name(\"Foo\")".to_string(), 1));
    let (rest, name) = uc_ident(rest).unwrap();
    assert_eq!(format!("{:?}", name), "NameNs { ns: \"bar\", name: \"Baz\" }");
    assert_eq!(rest.start, 4);
    assert_eq!(uc_ident(rest).err(), Some(TLParseError::Mismatch { position: 6 }));
    assert_eq!(uc_ident(rest.slice_from(3)).err(), Some(TLParseError::Mismatch { position: 7 }));
    assert_eq!(uc_ident(rest.slice_from(4)).err(), Some(TLParseError::Mismatch { position: 8 }));
}

#[test]
fn type_names_of_either_case() {
    let store = tokens_of("int Int ns.int ns.Int 5");
    let tokens = Tokens::new(&store);
    let (rest, a) = type_ident(tokens).unwrap();
    let (rest, b) = type_ident(rest).unwrap();
    let (rest, c) = type_ident(rest).unwrap();
    let (rest, d) = type_ident(rest).unwrap();
    assert_eq!(
        format!("{:?}", a),
        format!("{:?}", TLTypeIdent::Lower(TLLowerName::Name("int".to_string())))
    );
    assert_eq!(
        format!("{:?}", b),
        format!("{:?}", TLTypeIdent::Upper(TLUpperName::Name("Int".to_string())))
    );
    assert_eq!(format!("{:?}", c), "Lower(NameNs { ns: \"ns\", name: \"int\" })");
    assert_eq!(format!("{:?}", d), "Upper(NameNs { ns: \"ns\", name: \"Int\" })");
    assert_eq!(rest.start, 8);
    assert_eq!(type_ident(rest).err(), Some(TLParseError::Mismatch { position: 8 }));
}

#[test]
fn variable_names() {
    let store = tokens_of("foo Foo Types Functions _ Final 5");
    let tokens = Tokens::new(&store);
    let mut rest = tokens;
    for expected in ["foo", "Foo", "Types", "Functions"] {
        let (after, name) = var_name(rest).unwrap();
        assert_eq!(format!("{:?}", name), format!("Name({:?})", expected));
        rest = after;
    }
    assert_eq!(var_name(rest).err(), Some(TLParseError::Mismatch { position: 4 }));
    let (after, none) = var_name_optional(rest).unwrap();
    assert!(none.is_none());
    assert_eq!(after.start, 5);
    assert_eq!(var_name_optional(after).err(), Some(TLParseError::Mismatch { position: 5 }));
    assert_eq!(var_name(after.advance()).err(), Some(TLParseError::Mismatch { position: 6 }));
    let (after, some) = var_name_optional(tokens).unwrap();
    assert_eq!(format!("{:?}", some), "Some(Name(\"foo\"))");
    assert_eq!(after.start, 1);
}

#[test]
fn natural_numbers() {
    let store = tokens_of("42 4294967295 4294967296 7f xx");
    let tokens = Tokens::new(&store);
    let (rest, n) = nat_const(tokens).unwrap();
    assert_eq!((n, rest.start), (42, 1));
    let (rest, n) = nat_const(rest).unwrap();
    assert_eq!((n, rest.start), (u32::MAX, 2));
    assert_eq!(nat_const(rest).err(), Some(TLParseError::Failure { position: 2 }));
    assert_eq!(nat_const(rest.advance()).err(), Some(TLParseError::Mismatch { position: 3 }));
    assert_eq!(nat_const(rest.slice_from(3)).err(), Some(TLParseError::Mismatch { position: 5 }));
}

#[test]
fn tag_reads_one_category() {
    let store = tokens_of("aa :");
    let tokens = Tokens::new(&store);
    assert_eq!(tag(tokens, TLTokenEnum::LCIDENT).map(|t| t.token.as_str()), Some("aa"));
    assert!(tag(tokens, TLTokenEnum::COLON).is_none());
    assert!(tag(tokens.advance(), TLTokenEnum::COLON).is_some());
    assert!(tag(tokens.advance().advance(), TLTokenEnum::COLON).is_none());
}

#[test]
fn magic_numbers() {
    let store = tokens_of("#7f639b9d #12345678 #abcdef01 #Bad1 # #zz");
    let tokens = Tokens::new(&store);
    let (rest, n) = hex_number(tokens).unwrap();
    assert_eq!((n, rest.start), (0x7f639b9d, 2));
    let (rest, n) = hex_number(rest).unwrap();
    assert_eq!((n, rest.start), (0x12345678, 4));
    let (rest, n) = hex_number(rest).unwrap();
    assert_eq!((n, rest.start), (0xabcdef01, 6));
    let (rest, n) = hex_number(rest).unwrap();
    assert_eq!((n, rest.start), (0xbad1, 8));
    assert_eq!(hex_number(rest).err(), Some(TLParseError::Failure { position: 9 }));
    assert_eq!(hex_number(rest.advance()).err(), Some(TLParseError::Failure { position: 10 }));
    assert_eq!(hex_number(rest.slice_from(2)).err(), Some(TLParseError::Mismatch { position: 10 }));
    assert_eq!(hex_number(rest.slice_from(3)).err(), Some(TLParseError::Mismatch { position: 11 }));
}

#[test]
fn magic_number_is_read_from_number_and_identifier_tokens_only() {
    let store = vec![
        token(TLTokenEnum::LCIDENT, "foo"),
        token(TLTokenEnum::NUM, "#"),
        token(TLTokenEnum::SEMICOLON, "ff"),
    ];
    assert_eq!(
        combinator_name(Tokens::new(&store)).err(),
        Some(TLParseError::Failure { position: 2 })
    );
    let store = vec![
        token(TLTokenEnum::LCIDENT, "foo"),
        token(TLTokenEnum::NUM, "#"),
        token(TLTokenEnum::UCIDENT, "ff"),
    ];
    let (rest, name) = combinator_name(Tokens::new(&store)).unwrap();
    assert_eq!((format!("{:?}", name), rest.start), ("FullName(Name(\"foo\"), 255)".to_string(), 3));
}

#[test]
fn stray_token_after_a_schema_is_reported_at_its_place() {
    let schema = "aa = Bb;\n---Functions---\ncc dd:int = Ee;\n---Types---";
    assert!(parse_tl(schema).is_ok());
    let count = tokens_of(schema).len();
    for stray in ["xx", "Xx", ";", "---", "#", "7", "99999999999", "Final", "Types", "_", "@", "(", "="] {
        assert_eq!(
            parse_tl(&format!("{} {}", schema, stray)).err(),
            Some(TLError::TrailingInput { position: count }),
            "after {:?}",
            stray
        );
    }
}

#[test]
fn magic_number_at_the_end_of_input_is_hard_failure() {
    let store = tokens_of("foo#");
    assert_eq!(
        combinator_name(Tokens::new(&store)).err(),
        Some(TLParseError::Failure { position: 2 })
    );
    assert_eq!(
        hex_number(Tokens::new(&store).advance()).err(),
        Some(TLParseError::Failure { position: 2 })
    );
}

#[test]
fn magic_number_too_large_is_hard_failure() {
    assert_eq!(name_of("foo#100000000"), "Failure { position: 2 }");
    assert_eq!(name_of("foo#ffffffff"), "FullName(Name(\"foo\"), 4294967295) @3");
}

#[test]
fn combinator_names() {
    assert_eq!(name_of("_"), "EmptyName @1");
    assert_eq!(name_of("foo"), "Name(Name(\"foo\")) @1");
    assert_eq!(name_of("ns.foo = "), "Name(NameNs { ns: \"ns\", name: \"foo\" }) @3");
    assert_eq!(name_of("foo#1cb5c415"), "FullName(Name(\"foo\"), 481674261) @3");
    assert_eq!(name_of("Foo"), "Mismatch { position: 0 }");
    assert_eq!(name_of("ns.Foo"), "Mismatch { position: 2 }");
    assert_eq!(name_of(""), "Mismatch { position: 0 }");
    assert_eq!(name_of("_#12"), "EmptyName @1");
}

#[test]
fn magic_number_has_no_case() {
    assert_eq!(name_of("foo#1a2B3c"), "FullName(Name(\"foo\"), 1715004) @3");
    assert_eq!(name_of("foo#1A2b3C"), "FullName(Name(\"foo\"), 1715004) @3");
    assert_eq!(name_of("foo#1a2b3c"), name_of("foo#1A2B3C"));
    assert_eq!(name_of("foo#abcdef"), name_of("foo#ABCDEF"));
    assert_eq!(name_of("foo#abcdef"), "FullName(Name(\"foo\"), 11259375) @3");
}

#[test]
fn magic_number_is_kept_exactly() {
    for n in [0u32, 1, 0xa, 0xff, 0x1cb5c415, 0x7f639b9d, 0xdeadbeef, u32::MAX] {
        for text in [format!("cons#{:x} = Type;", n), format!("cons#{:08X} = Type;", n)] {
            let program = parse_tl(&text).unwrap();
            assert_eq!(
                format!("{:?}", program),
                format!(
                    "TLProgram {{ blocks: [Types([Combinator(TLCombinator {{ identifier: FullName(Name(\"cons\"), {}), args: [], result_type: Expression([Ident(Upper(Name(\"Type\")))]) }})])] }}",
                    n
                )
            );
        }
    }
}

#[test]
fn combinator_with_all_kinds_of_arguments() {
    assert_eq!(
        declaration("vector#1cb5c415 {tt:Type} nn:# [ tt ] = Vector tt;"),
        "Combinator(TLCombinator { identifier: FullName(Name(\"vector\"), 481674261), args: [OptArg(Name(\"tt\"), Ident(Upper(Name(\"Type\")))), Arg(Some(Name(\"nn\")), Hash), MultiplicityArg(None, None, [Arg(None, Ident(Lower(Name(\"tt\"))))])], result_type: Expression([Ident(Upper(Name(\"Vector\"))), Expression([Ident(Lower(Name(\"tt\"))), Empty])]) }) @18"
    );
}

#[test]
fn combinator_optional_arguments_come_first() {
    assert_eq!(
        declaration("pair {xx:Type} {yy:Type} aa:xx bb:yy = Pair xx yy;"),
        "Combinator(TLCombinator { identifier: Name(Name(\"pair\")), args: [OptArg(Name(\"xx\"), Ident(Upper(Name(\"Type\")))), OptArg(Name(\"yy\"), Ident(Upper(Name(\"Type\")))), Arg(Some(Name(\"aa\")), Ident(Lower(Name(\"xx\")))), Arg(Some(Name(\"bb\")), Ident(Lower(Name(\"yy\"))))], result_type: Expression([Ident(Upper(Name(\"Pair\"))), Expression([Ident(Lower(Name(\"xx\"))), Empty]), Expression([Ident(Lower(Name(\"yy\"))), Empty])]) }) @22"
    );
    assert_eq!(declaration("pair aa:xx {yy:Type} = Pair;"), "Mismatch { position: 0 }");
}

#[test]
fn combinator_without_name() {
    assert_eq!(
        declaration("_ = Foo;"),
        "Combinator(TLCombinator { identifier: EmptyName, args: [], result_type: Expression([Ident(Upper(Name(\"Foo\")))]) }) @4"
    );
}

#[test]
fn combinator_mismatches() {
    assert_eq!(declaration("foo = Bar"), "Mismatch { position: 0 }");
    assert_eq!(declaration("foo = bar;"), "Mismatch { position: 0 }");
    assert_eq!(declaration("foo Bar;"), "Mismatch { position: 0 }");
    assert_eq!(declaration("= Bar;"), "Mismatch { position: 0 }");
    assert_eq!(declaration(""), "Mismatch { position: 0 }");
    assert_eq!(declaration("---"), "Mismatch { position: 0 }");
}

#[test]
fn combinator_hard_failures() {
    assert_eq!(declaration("foo#zzzz = Bar;"), "Failure { position: 2 }");
    assert_eq!(declaration("foo # = Bar;"), "Failure { position: 2 }");
    assert_eq!(declaration("foo nn:99999999999 = Bar;"), "Failure { position: 3 }");
    assert_eq!(declaration("foo = Bar 99999999999;"), "Failure { position: 3 }");
}

#[test]
fn builtin_declaration() {
    assert_eq!(
        declaration("int ? = Int;"),
        "BuiltIn(TLCombinator { identifier: Name(Name(\"int\")), args: [], result_type: Expression([Ident(Upper(Name(\"Int\")))]) }) @5"
    );
    assert_eq!(
        declaration("int#a8509bda ? = Int;"),
        "BuiltIn(TLCombinator { identifier: FullName(Name(\"int\"), 2823855066), args: [], result_type: Expression([Ident(Upper(Name(\"Int\")))]) }) @7"
    );
    assert_eq!(declaration("int ? Int;"), "Mismatch { position: 0 }");
    assert_eq!(declaration("int ? = Int"), "Mismatch { position: 0 }");
}

#[test]
fn final_declarations() {
    assert_eq!(declaration("Final Foo;"), "Final(Final(Name(\"Foo\"))) @3");
    assert_eq!(declaration("New Foo;"), "Final(New(Name(\"Foo\"))) @3");
    assert_eq!(declaration("Empty Foo;"), "Final(Empty(Name(\"Foo\"))) @3");
}

#[test]
fn final_declaration_from_identifier_tokens() {
    let store = vec![
        token(TLTokenEnum::UCIDENT, "New"),
        token(TLTokenEnum::UCIDENT, "Foo"),
        token(TLTokenEnum::SEMICOLON, ";"),
    ];
    let (rest, decl) = parse_declaration(Tokens::new(&store)).unwrap();
    assert_eq!(rest.start, 3);
    assert_eq!(format!("{:?}", decl), "Final(New(Name(\"Foo\")))");
}

#[test]
fn final_declaration_commits_after_two_words() {
    assert_eq!(declaration("Other Foo;"), "Failure { position: 0 }");
    assert_eq!(declaration("Final Foo"), "Failure { position: 0 }");
    assert_eq!(declaration("Final Foo Bar;"), "Failure { position: 0 }");
    assert_eq!(declaration("Final ns.Foo;"), "Failure { position: 0 }");
    assert_eq!(declaration("ns.Final Foo;"), "Mismatch { position: 2 }");
    assert_eq!(declaration("ns.Other Foo;"), "Failure { position: 0 }");
}

#[test]
fn final_declaration_mismatches_before_it_commits() {
    assert_eq!(declaration("Final"), "Mismatch { position: 1 }");
    assert_eq!(declaration("Final foo;"), "Mismatch { position: 1 }");
    assert_eq!(declaration("Final ;"), "Mismatch { position: 1 }");
    assert_eq!(declaration("Foo = Bar;"), "Mismatch { position: 1 }");
    assert_eq!(declaration("Final Final;"), "Mismatch { position: 1 }");
}

#[test]
fn declarations_in_a_row() {
    let store = tokens_of("aa = Bb; Final Bb; cc ? = Dd; )");
    let (rest, decls) = many0_declaration(Tokens::new(&store)).unwrap();
    assert_eq!(rest.start, 12);
    assert_eq!(decls.len(), 3);
    assert!(matches!(decls[0], TLDeclaration::Combinator(_)));
    assert!(matches!(decls[1], TLDeclaration::Final(_)));
    assert!(matches!(decls[2], TLDeclaration::BuiltIn(_)));
    let store = tokens_of("aa = Bb; cc#xy = Dd;");
    assert_eq!(
        many0_declaration(Tokens::new(&store)).err(),
        Some(TLParseError::Failure { position: 6 })
    );
}

#[test]
fn empty_schema_has_one_empty_block() {
    let program = parse_tl("").unwrap();
    assert_eq!(format!("{:?}", program), "TLProgram { blocks: [Types([])] }");
    let program = parse_tl("  // only a comment\n").unwrap();
    assert_eq!(format!("{:?}", program), "TLProgram { blocks: [Types([])] }");
}

#[test]
fn blocks_keep_their_order_and_sort() {
    let program = parse_tl(
        "aa = Aa;\n---Functions---\nbb = Bb;\ncc = Cc;\n---Types---\n---Functions---\n---Types---\ndd = Dd;",
    )
    .unwrap();
    let shape: Vec<String> = program
        .blocks
        .iter()
        .map(|b| match b {
            tl_parser::ast::TLDeclarationBlock::Types(d) => format!("T{}", d.len()),
            tl_parser::ast::TLDeclarationBlock::Functions(d) => format!("F{}", d.len()),
        })
        .collect();
    assert_eq!(shape, vec!["T1", "F2", "T0", "F0", "T1"]);
}

#[test]
fn blocks_from_tokens_of_any_spelling() {
    let store = vec![
        token(TLTokenEnum::SEPARATOR, "---"),
        token(TLTokenEnum::TYPES, "types"),
        token(TLTokenEnum::SEPARATOR, "---"),
        token(TLTokenEnum::LCIDENT, "Bool"),
        token(TLTokenEnum::EQ, "="),
        token(TLTokenEnum::UCIDENT, "Bool"),
        token(TLTokenEnum::SEMICOLON, ";"),
        token(TLTokenEnum::SEPARATOR, "---"),
        token(TLTokenEnum::FUNCTIONS, "functions"),
        token(TLTokenEnum::SEPARATOR, "---"),
        token(TLTokenEnum::LCIDENT, "ping"),
        token(TLTokenEnum::EQ, "="),
        token(TLTokenEnum::UCIDENT, "Bool"),
        token(TLTokenEnum::SEMICOLON, ";"),
    ];
    let (rest, program) = parse_program(Tokens::new(&store)).unwrap();
    assert_eq!(rest.start, 14);
    assert_eq!(
        format!("{:?}", program),
        "TLProgram { blocks: [Types([]), Types([Combinator(TLCombinator { identifier: Name(Name(\"Bool\")), args: [], result_type: Expression([Ident(Upper(Name(\"Bool\")))]) })]), Functions([Combinator(TLCombinator { identifier: Name(Name(\"ping\")), args: [], result_type: Expression([Ident(Upper(Name(\"Bool\")))]) })])] }"
    );
}

#[test]
fn block_words_are_spelled_with_a_capital() {
    assert_eq!(
        parse_tl("--- types ---\nboolTrue = Bool;").err(),
        Some(TLError::TrailingInput { position: 0 })
    );
    assert_eq!(
        parse_tl("aa = Bb; --- functions ---").err(),
        Some(TLError::TrailingInput { position: 4 })
    );
}

#[test]
fn upper_case_word_cannot_name_a_combinator() {
    assert_eq!(
        parse_tl("--- Types ---\nBool = Bool;").err(),
        Some(TLError::TrailingInput { position: 3 })
    );
}

#[test]
fn block_header_left_unfinished() {
    assert_eq!(parse_tl("aa = Bb; ---").err(), Some(TLError::TrailingInput { position: 4 }));
    assert_eq!(parse_tl("--- Types").err(), Some(TLError::TrailingInput { position: 0 }));
    assert_eq!(parse_tl("--- Types --- ---").err(), Some(TLError::TrailingInput { position: 3 }));
}

#[test]
fn errors_of_the_driver() {
    assert_eq!(parse_tl("aa = Bb; @").err(), Some(TLError::TrailingInput { position: 4 }));
    assert_eq!(parse_tl("@").err(), Some(TLError::TrailingInput { position: 0 }));
    assert_eq!(parse_tl("aa = 5;").err(), Some(TLError::TrailingInput { position: 0 }));
    assert_eq!(parse_tl("aa = Bb; cc = Dd").err(), Some(TLError::TrailingInput { position: 4 }));
    assert_eq!(parse_tl("aa#zz = Bb;").err(), Some(TLError::Grammar { position: 2 }));
    assert_eq!(
        parse_tl("aa = Bb;\n---Functions---\ncc nn:99999999999 = Dd;").err(),
        Some(TLError::Grammar { position: 10 })
    );
    assert_eq!(parse_tl("Other Foo;").err(), Some(TLError::Grammar { position: 0 }));
    assert_eq!(parse_tl("aa = Bb; Final Foo").err(), Some(TLError::Grammar { position: 4 }));
}

#[test]
fn single_letter_names_are_no_identifiers() {
    assert_eq!(parse_tl("vector {t:Type} = Vector t;").err(), Some(TLError::TrailingInput {
        position: 0
    }));
}

#[test]
fn whole_schema() {
    let source = "\
// built-in types\n\
int ? = Int;\n\
string ? = String;\n\
vector#1cb5c415 {tt:Type} # [ tt ] = Vector tt;\n\
Final Int;\n\
---Functions---\n\
messages.search#7f639b9d query:string flags:# limit:flags.0?int = Vector<messages.Found>;\n";
    let program = parse_tl(source).unwrap();
    assert_eq!(program.blocks.len(), 2);
    assert_eq!(
        format!("{:?}", program.blocks[1]),
        "Functions([Combinator(TLCombinator { identifier: FullName(NameNs { ns: \"messages\", name: \"search\" }, 2137234333), args: [Arg(Some(Name(\"query\")), Ident(Lower(Name(\"string\")))), Arg(Some(Name(\"flags\")), Hash), ConditionalArg(Some(Name(\"limit\")), Condition(Name(\"flags\"), 0), Ident(Lower(Name(\"int\"))))], result_type: Expression([Ident(Upper(Name(\"Vector\"))), Expression([Expression([Ident(Upper(NameNs { ns: \"messages\", name: \"Found\" })), Empty])])]) })])"
    );
    match &program.blocks[0] {
        tl_parser::ast::TLDeclarationBlock::Types(decls) => assert_eq!(decls.len(), 4),
        _ => panic!("the leading block is a block of types"),
    }
}

#[test]
fn expression_clone_is_deep() {
    let original = TLExpression::Expression(vec![
        TLExpression::Nat(1),
        TLExpression::Operator(
            tl_parser::ast::TLOperator::Bare,
            Box::new(TLExpression::Ident(TLTypeIdent::Lower(TLLowerName::NameNs {
                ns: "aa".to_string(),
                name: "bb".to_string(),
            }))),
        ),
        TLExpression::Expression(vec![TLExpression::Hash, TLExpression::Empty]),
    ]);
    let copy = original.clone();
    let shown = format!("{:?}", original);
    drop(original);
    assert_eq!(format!("{:?}", copy), shown);
}
