use minicompiler::parser::compile;
use minicompiler::parser::compiler::Compiler;
use minicompiler::parser::lexing::process_token;
use minicompiler::parser::merging::{merge_is_defined, merge_tokens_round_one};
use minicompiler::parser::splitting::{split_functions, split_is_defined};
use minicompiler::parser::token::{DataType, DataTypeStruct, Token};

fn lexed_from(src: &str) -> Compiler {
    let mut compiler = Compiler::new();
    for c in src.chars() {
        assert!(compiler.can_process(c), "cannot read {:?}", c);
        process_token(c, &mut compiler);
    }
    compiler
}

fn merged_from(src: &str) -> Compiler {
    let mut compiler = lexed_from(src);
    assert!(merge_is_defined(&compiler));
    merge_tokens_round_one(&mut compiler);
    compiler
}

fn split_from(src: &str) -> Compiler {
    let mut compiler = merged_from(src);
    assert!(split_is_defined(&compiler));
    split_functions(&mut compiler);
    compiler
}

fn listed(tokens: &Vec<Token>) -> String {
    format!("{:?}", tokens)
}

fn with_tokens(tokens: Vec<Token>) -> Compiler {
    let mut c = Compiler::new();
    c.tokens = tokens;
    c
}

#[test]
fn merges_function_header_and_arrow() {
    let c = merged_from("fn main() -> i64 {\n}\n");
    assert_eq!(
        listed(&c.tokens),
        "[FunctionDefinition { name: \"main\", public: false }, OpenParen, CloseParen, ArrowRight, DataType { data_type: DataTypeStruct { data_type: I64 { size: 8 }, is_ref: false } }, OpenCurly, CloseCurly]"
    );
}

#[test]
fn merges_public_function_with_typed_parameters() {
    let c = merged_from("pub fn add(a: i64, b: &i64) -> bool {\n  a\n}\n");
    assert_eq!(
        listed(&c.tokens),
        "[FunctionDefinition { name: \"add\", public: true }, OpenParen, \
TypedVariable { name: \"a\", data_type: DataTypeStruct { data_type: I64 { size: 8 }, is_ref: false } }, Comma, \
TypedVariable { name: \"b\", data_type: DataTypeStruct { data_type: I64 { size: 8 }, is_ref: true } }, \
DataType { data_type: DataTypeStruct { data_type: I64 { size: 8 }, is_ref: false } }, CloseParen, ArrowRight, \
DataType { data_type: DataTypeStruct { data_type: Bool { size: 1 }, is_ref: false } }, OpenCurly, CloseCurly]"
    );
}

#[test]
fn line_comments_are_removed() {
    let c = merged_from("// note\nfn f() {}\n");
    assert_eq!(
        listed(&c.tokens),
        "[FunctionDefinition { name: \"f\", public: false }, OpenParen, CloseParen, OpenCurly, CloseCurly]"
    );
}

#[test]
fn block_comments_are_removed() {
    let c = merged_from("/* c */ x;");
    assert_eq!(listed(&c.tokens), "[Identifier { name: \"x\" }, SemiColon]");
}

#[test]
fn merge_undefined_on_unterminated_line_comment() {
    assert!(!merge_is_defined(&lexed_from("// a b;")));
}

#[test]
fn block_comment_without_slash_after_star_keeps_rest() {
    let c = merged_from("/* a *; ");
    assert_eq!(listed(&c.tokens), "[Asterisk, Identifier { name: \"a\" }, Asterisk, SemiColon]");
}

#[test]
fn logical_operators_are_merged() {
    let c = merged_from("a && b || c;");
    assert_eq!(
        listed(&c.tokens),
        "[Identifier { name: \"a\" }, LogicalAnd, Identifier { name: \"b\" }, LogicalOr, Identifier { name: \"c\" }, SemiColon]"
    );
}

#[test]
fn reference_to_type_is_marked() {
    let c = with_tokens(vec![
        Token::Ampersand,
        Token::DataType { data_type: DataTypeStruct { data_type: DataType::U64 { size: 8 }, is_ref: false } },
        Token::Ampersand,
        Token::Plus,
    ]);
    let mut c = c;
    assert!(merge_is_defined(&c));
    merge_tokens_round_one(&mut c);
    assert_eq!(
        listed(&c.tokens),
        "[DataType { data_type: DataTypeStruct { data_type: U64 { size: 8 }, is_ref: true } }, Plus]"
    );
}

#[test]
fn name_before_line_break_is_dropped() {
    let c = merged_from("x\ny;");
    assert_eq!(listed(&c.tokens), "[Identifier { name: \"y\" }, SemiColon]");
}

#[test]
fn other_keywords_stay() {
    let c = merged_from("let mut z = 1;");
    assert_eq!(
        listed(&c.tokens),
        "[Keyword { name: \"let\" }, Keyword { name: \"mut\" }, Identifier { name: \"z\" }, Equals, NumericLiteral { value: \"1\" }, SemiColon]"
    );
}

#[test]
fn bogus_tokens_are_dropped() {
    let mut c = with_tokens(vec![Token::Plus, Token::Bogus, Token::Comma]);
    assert!(merge_is_defined(&c));
    merge_tokens_round_one(&mut c);
    assert_eq!(listed(&c.tokens), "[Plus, Comma]");
}

#[test]
fn merge_undefined_on_lone_slash() {
    assert!(!merge_is_defined(&lexed_from("a / b;")));
    assert!(!merge_is_defined(&lexed_from("a /")));
}

#[test]
fn merge_undefined_on_lone_minus_and_pipe() {
    assert!(!merge_is_defined(&lexed_from("x - 1;")));
    assert!(!merge_is_defined(&lexed_from("a | b;")));
    assert!(!merge_is_defined(&lexed_from("a -")));
}

#[test]
fn merge_undefined_on_trailing_ampersand_and_star() {
    assert!(!merge_is_defined(&lexed_from("a &")));
    assert!(!merge_is_defined(&lexed_from("/* a *")));
}

#[test]
fn merge_never_grows_and_resolves_everything() {
    let src = "pub fn g(a: &bool) -> u64 { // c\n let b = a && a || a; /* x */ return 3; }\n";
    let before = lexed_from(src);
    let n = before.tokens.len();
    let c = merged_from(src);
    assert!(c.tokens.len() <= n);
    for t in &c.tokens {
        match t {
            Token::Bogus
            | Token::NewLine
            | Token::Slash
            | Token::Minus
            | Token::Pipe
            | Token::Ampersand
            | Token::Colon
            | Token::PubModifier => panic!("unresolved token {:?}", t),
            Token::Keyword { name } => assert!(name != "fn"),
            _ => {}
        }
    }
}

#[test]
fn merge_keeps_rest_of_state() {
    let mut c = lexed_from("a + b");
    let buffer = c.current_buffer.clone();
    merge_tokens_round_one(&mut c);
    assert_eq!(c.current_buffer, buffer);
    assert!(matches!(c.current_token, Token::Identifier { .. }));
    assert_eq!(listed(&c.tokens), "[Identifier { name: \"a\" }, Plus]");
}

#[test]
fn splits_one_function() {
    let c = split_from("fn main() -> i64 {\n}\n");
    assert_eq!(c.functions.len(), 1);
    let f = &c.functions[0];
    assert_eq!(f.name, "main");
    assert!(!f.public);
    assert_eq!(f.return_type.data_type, DataType::I64 { size: 8 });
    assert!(f.body.is_empty());
    assert!(f.parameters.is_empty());
}

#[test]
fn splits_public_function_with_return_type() {
    let c = split_from("pub fn add(a: i64, b: &i64) -> bool {\n  a\n}\n");
    assert_eq!(c.functions.len(), 1);
    let f = &c.functions[0];
    assert_eq!(f.name, "add");
    assert!(f.public);
    assert_eq!(f.return_type.data_type, DataType::Bool { size: 1 });
    assert!(!f.return_type.is_ref);
}

#[test]
fn nested_braces_stay_in_body() {
    let c = split_from("fn f() { if x { y; } }\n");
    assert_eq!(c.functions.len(), 1);
    assert_eq!(
        listed(&c.functions[0].body),
        "[Keyword { name: \"if\" }, Identifier { name: \"x\" }, OpenCurly, Identifier { name: \"y\" }, SemiColon, CloseCurly]"
    );
    assert_eq!(c.functions[0].return_type.data_type, DataType::NoType);
}

#[test]
fn splits_two_functions() {
    let c = split_from("fn a() { 1; } pub fn b() -> u64 { 2; }\n");
    assert_eq!(c.functions.len(), 2);
    assert_eq!(c.functions[0].name, "a");
    assert_eq!(listed(&c.functions[0].body), "[NumericLiteral { value: \"1\" }, SemiColon]");
    assert_eq!(c.functions[1].name, "b");
    assert!(c.functions[1].public);
    assert_eq!(c.functions[1].return_type.data_type, DataType::U64 { size: 8 });
    assert_eq!(listed(&c.functions[1].body), "[NumericLiteral { value: \"2\" }, SemiColon]");
}

#[test]
fn return_type_inside_braces_is_ignored() {
    let c = split_from("fn h() { -> bool; }\n");
    assert_eq!(c.functions.len(), 1);
    assert_eq!(c.functions[0].return_type.data_type, DataType::NoType);
}

#[test]
fn splitting_appends_to_functions() {
    let mut c = split_from("fn a() { }\n");
    assert_eq!(c.functions.len(), 1);
    split_functions(&mut c);
    assert_eq!(c.functions.len(), 2);
    assert_eq!(c.functions[1].name, "a");
}

#[test]
fn split_undefined_cases() {
    assert!(!split_is_defined(&merged_from("} ")));
    assert!(!split_is_defined(&merged_from("{ } ")));
    assert!(!split_is_defined(&merged_from("fn a() { } } ")));
    assert!(!split_is_defined(&merged_from("fn a() -> ")));
    assert!(split_is_defined(&merged_from("fn a() { ")));
}

#[test]
fn bodies_are_slices_between_braces() {
    let c = split_from("fn a() { x; { y; } } fn b() { z; }\n");
    for f in &c.functions {
        let body = listed(&f.body);
        let all = &c.tokens;
        let mut found = false;
        for s in 1..=all.len() {
            for e in s..all.len() {
                if matches!(all[s - 1], Token::OpenCurly)
                    && matches!(all[e], Token::CloseCurly)
                    && listed(&all[s..e].iter().map(|t| t.duplicate()).collect()) == body
                {
                    found = true;
                }
            }
        }
        assert!(found);
        assert!(f.parameters.is_empty());
    }
}

#[test]
fn compile_runs_all_passes() {
    let src: Vec<char> = "pub fn main() -> bool {\n  // hi\n  let x: u64 = 5;\n  x && x\n}\n".chars().collect();
    let c = compile(&src);
    assert_eq!(c.functions.len(), 1);
    assert_eq!(c.functions[0].name, "main");
    assert!(c.functions[0].public);
    assert_eq!(c.functions[0].return_type.data_type, DataType::Bool { size: 1 });
    assert_eq!(
        listed(&c.functions[0].body),
        "[Keyword { name: \"let\" }, TypedVariable { name: \"x\", data_type: DataTypeStruct { data_type: U64 { size: 8 }, is_ref: false } }, Equals, NumericLiteral { value: \"5\" }, SemiColon, Identifier { name: \"x\" }, LogicalAnd]"
    );
    let expected = split_from("pub fn main() -> bool {\n  // hi\n  let x: u64 = 5;\n  x && x\n}\n");
    assert_eq!(format!("{:?}", c), format!("{:?}", expected));
}

#[test]
fn compile_of_empty_source() {
    let c = compile(&Vec::new());
    assert!(c.tokens.is_empty());
    assert!(c.functions.is_empty());
}

#[test]
fn merging_twice_is_merging_once() {
    let mut c = lexed_from("pub fn k(a: &bool) -> u64 { // c\n let b = a && a || a; /* x */ return b; }\nx y z;");
    merge_tokens_round_one(&mut c);
    let once = listed(&c.tokens);
    assert!(merge_is_defined(&c));
    merge_tokens_round_one(&mut c);
    assert_eq!(listed(&c.tokens), once);
}

#[test]
fn function_clone_keeps_everything() {
    let c = split_from("pub fn m() -> bool { 1; }\n");
    let f = c.functions[0].clone();
    assert_eq!(format!("{:?}", f), format!("{:?}", c.functions[0]));
}
