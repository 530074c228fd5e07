use minicompiler::lexer::parse_tokens;
use minicompiler::parser::classify::{get_type_from_name, is_datatype, is_keyword};
use minicompiler::parser::compiler::Compiler;
use minicompiler::parser::lexing::{process_chars, process_token};
use minicompiler::parser::token::{DataType, Token};

fn lex_text(src: &str) -> Compiler {
    let mut compiler = Compiler::new();
    feed(&mut compiler, src);
    compiler
}

fn feed(compiler: &mut Compiler, src: &str) {
    for c in src.chars() {
        assert!(compiler.can_process(c), "cannot read {:?}", c);
        process_token(c, compiler);
    }
}

fn shown(tokens: &Vec<Token>) -> String {
    format!("{:?}", tokens)
}

#[test]
fn parse_tokens_gives_no_tokens() {
    assert_eq!(parse_tokens(&vec![]).len(), 0);
    let words = vec!["fn".to_string(), "(".to_string(), "main".to_string()];
    assert_eq!(parse_tokens(&words).len(), 0);
}

#[test]
fn keywords_are_recognized() {
    for w in ["fn", "pub", "mut", "return", "let", "if", "else"] {
        assert!(is_keyword(&w.to_string()), "{}", w);
    }
    for w in ["fun", "", "Fn", "lets", "i64", "else_"] {
        assert!(!is_keyword(&w.to_string()), "{}", w);
    }
}

#[test]
fn datatypes_are_recognized() {
    for w in ["i64", "u64", "f64", "bool"] {
        assert!(is_datatype(&w.to_string()), "{}", w);
    }
    for w in ["i32", "", "Bool", "u6", "fn"] {
        assert!(!is_datatype(&w.to_string()), "{}", w);
    }
}

#[test]
fn type_names_give_sizes() {
    let t = get_type_from_name(&"i64".to_string());
    assert_eq!(t.data_type, DataType::I64 { size: 8 });
    assert!(!t.is_ref);
    assert_eq!(get_type_from_name(&"u64".to_string()).data_type, DataType::U64 { size: 8 });
    assert_eq!(get_type_from_name(&"f64".to_string()).data_type, DataType::F64 { size: 8 });
    assert_eq!(get_type_from_name(&"bool".to_string()).data_type, DataType::Bool { size: 1 });
    let other = get_type_from_name(&"str".to_string());
    assert_eq!(other.data_type, DataType::NoType);
    assert!(!other.is_ref);
}

#[test]
fn lexes_a_function_header() {
    let c = lex_text("fn main() {}\n");
    assert_eq!(
        shown(&c.tokens),
        "[Keyword { name: \"fn\" }, Identifier { name: \"main\" }, OpenParen, CloseParen, OpenCurly, CloseCurly, NewLine]"
    );
    assert!(matches!(c.current_token, Token::Bogus));
    assert!(c.current_buffer.is_empty());
}

#[test]
fn pub_becomes_a_modifier() {
    let c = lex_text("pub fn x;");
    assert_eq!(
        shown(&c.tokens),
        "[PubModifier, Keyword { name: \"fn\" }, Identifier { name: \"x\" }, SemiColon]"
    );
}

#[test]
fn type_names_become_data_types() {
    let c = lex_text("x: i64;");
    assert_eq!(
        shown(&c.tokens),
        "[Identifier { name: \"x\" }, Colon, DataType { data_type: DataTypeStruct { data_type: I64 { size: 8 }, is_ref: false } }, SemiColon]"
    );
}

#[test]
fn punctuation_becomes_tokens() {
    let c = lex_text("()[]{}<>!?=:;.,+-*/%&|\n");
    assert_eq!(
        shown(&c.tokens),
        "[OpenParen, CloseParen, OpenBracket, CloseBracket, OpenCurly, CloseCurly, OpenAngle, CloseAngle, ExclamationMark, QuestionMark, Equals, Colon, SemiColon, Period, Comma, Plus, Minus, Asterisk, Slash, Percent, Ampersand, Pipe, NewLine]"
    );
}

#[test]
fn unknown_characters_are_dropped() {
    let c = lex_text(" \t#@$~^`\r");
    assert_eq!(c.tokens.len(), 0);
    assert!(matches!(c.current_token, Token::Bogus));
}

#[test]
fn numbers_keep_first_digit_and_period() {
    let c = lex_text("123 ");
    assert_eq!(shown(&c.tokens), "[NumericLiteral { value: \"1\" }]");
    let c = lex_text("12.5;");
    assert_eq!(shown(&c.tokens), "[NumericLiteral { value: \"1.\" }, SemiColon]");
    assert_eq!(c.period_count, 1);
    let c = lex_text("4_000,5)");
    assert_eq!(shown(&c.tokens), "[NumericLiteral { value: \"4\" }, CloseParen]");
}

#[test]
fn second_period_cannot_be_read() {
    let mut c = lex_text("1.5 2");
    assert!(!c.can_process('.'));
    assert!(c.can_process('3'));
    process_token(';', &mut c);
    assert_eq!(
        shown(&c.tokens),
        "[NumericLiteral { value: \"1.\" }, NumericLiteral { value: \"2\" }, SemiColon]"
    );
    let mut d = lex_text("1");
    assert!(d.can_process('.'));
    process_token('.', &mut d);
    assert!(!d.can_process('.'));
}

#[test]
fn words_are_letters_digits_and_underscores() {
    let c = lex_text("_a1b2 c_");
    assert_eq!(shown(&c.tokens), "[Identifier { name: \"_a1b2\" }]");
    assert_eq!(c.current_buffer, vec!['c', '_']);
    assert!(matches!(c.current_token, Token::Identifier { .. }));
}

#[test]
fn string_literals_with_escapes() {
    let c = lex_text("\"a\\\"b\" ");
    assert_eq!(shown(&c.tokens), "[StringLiteral { value: \"a\\\"b\" }]");
    let c = lex_text("\"x y\\\\\"");
    assert_eq!(shown(&c.tokens), "[StringLiteral { value: \"x y\\\\\" }]");
    let c = lex_text("\"\"");
    assert_eq!(shown(&c.tokens), "[StringLiteral { value: \"\" }]");
}

#[test]
fn empty_char_literal_becomes_string_literal() {
    let c = lex_text("'' ");
    assert_eq!(shown(&c.tokens), "[StringLiteral { value: \"\" }]");
}

#[test]
fn nonempty_char_literal_cannot_be_closed() {
    let c = lex_text("'a");
    assert!(!c.can_process('\''));
    let d = lex_text("'\\'");
    assert!(!d.can_process('\''));
    assert!(d.can_process('b'));
}

#[test]
fn escape_flag_only_in_literals() {
    let c = lex_text("\"\\");
    assert!(c.next_char_escaped);
    let c = lex_text("\"\\n");
    assert!(!c.next_char_escaped);
    assert_eq!(c.current_buffer, vec!['n']);
}

#[test]
fn unfinished_word_stays_buffered() {
    let c = lex_text("abc");
    assert_eq!(c.tokens.len(), 0);
    assert_eq!(c.current_buffer, vec!['a', 'b', 'c']);
}

#[test]
fn lexing_in_pieces_is_lexing_the_whole() {
    let whole = lex_text("let ab = 1.2; \"s\\\"\" 'x");
    let mut pieces = Compiler::new();
    feed(&mut pieces, "let a");
    feed(&mut pieces, "b = 1");
    feed(&mut pieces, ".2; \"s\\");
    feed(&mut pieces, "\"\" 'x");
    assert_eq!(format!("{:?}", whole), format!("{:?}", pieces));
}

#[test]
fn each_character_appends_at_most_two_tokens() {
    let mut c = lex_text("abc");
    let before = c.tokens.len();
    process_token('(', &mut c);
    assert_eq!(c.tokens.len(), before + 2);
    assert_eq!(shown(&c.tokens), "[Identifier { name: \"abc\" }, OpenParen]");
}

#[test]
fn lexed_tokens_are_well_formed() {
    let c = lex_text("fn f(x: bool) { let y = 7.5; return x; }\n");
    for t in &c.tokens {
        match t {
            Token::Bogus => panic!("bogus token"),
            Token::Identifier { name } => {
                assert!(!is_keyword(name) && !is_datatype(name));
                assert!(!name.is_empty());
            }
            Token::Keyword { name } => assert!(is_keyword(name) && name != "pub"),
            Token::DataType { data_type } => assert!(!data_type.is_ref),
            _ => {}
        }
    }
    assert!(c.period_count <= 1);
}

#[test]
fn duplicate_copies_nested_tokens() {
    let inner = vec![Token::Identifier { name: "a".to_string() }, Token::Plus];
    let f = Token::Function {
        name: "f".to_string(),
        public: true,
        return_type: DataType::Bool { size: 1 },
        params: vec![Token::Comma],
        body: inner,
    };
    let g = f.duplicate();
    assert_eq!(format!("{:?}", f), format!("{:?}", g));
}

#[test]
fn clone_copies_nested_tokens() {
    let f = Token::Function {
        name: "g".to_string(),
        public: false,
        return_type: DataType::NoType,
        params: vec![Token::Identifier { name: "p".to_string() }],
        body: vec![Token::Keyword { name: "let".to_string() }, Token::SemiColon],
    };
    let g = f.clone();
    assert_eq!(format!("{:?}", f), format!("{:?}", g));
}

#[test]
fn process_chars_is_reading_one_by_one() {
    let text = "fn f(x: u64) { \"s\" 4.2 }\n";
    let chars: Vec<char> = text.chars().collect();
    let mut c = Compiler::new();
    assert!(c.can_process_all(&chars));
    process_chars(&chars, &mut c);
    assert_eq!(format!("{:?}", c), format!("{:?}", lex_text(text)));
}

#[test]
fn can_process_all_finds_undefined_reads() {
    let c = Compiler::new();
    let bad: Vec<char> = "1.5 2.5".chars().collect();
    assert!(!c.can_process_all(&bad));
    let bad_char: Vec<char> = "'ab'".chars().collect();
    assert!(!c.can_process_all(&bad_char));
    let started = lex_text("3.1 ");
    let later: Vec<char> = "7.".chars().collect();
    assert!(!started.can_process_all(&later));
    let fine: Vec<char> = "7 x".chars().collect();
    assert!(started.can_process_all(&fine));
    assert!(c.can_process_all(&Vec::new()));
}
