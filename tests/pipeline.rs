use wasm_compiler::ast::{Expression, Ident, Infix, Literal, Program, Statement};
use wasm_compiler::compile;
use wasm_compiler::emitter::Emitter;
use wasm_compiler::error::CompileError;
use wasm_compiler::lexer::Lexer;
use wasm_compiler::parser::Parser;
use wasm_compiler::token::{Precedence, Token};

const HEADER: [u8; 8] = [0x00, 0x61, 0x73, 0x6d, 0x01, 0x00, 0x00, 0x00];

fn parse(src: &str) -> Result<Program, CompileError> {
    let parser = Parser::new(Lexer::new(src))?;
    parser.parse_program()
}

fn ident(name: &str) -> Ident {
    Ident(name.to_string())
}

fn lit(v: i64) -> Box<Expression> {
    Box::new(Expression::Literal(Literal::Int(v)))
}

fn var(name: &str) -> Box<Expression> {
    Box::new(Expression::Ident(ident(name)))
}

/// Splits the bytes after the header into (id, content) frames.
fn sections(module: &[u8]) -> Vec<(u8, Vec<u8>)> {
    assert_eq!(&module[..8], &HEADER);
    let mut out = Vec::new();
    let mut i = 8;
    while i < module.len() {
        let id = module[i];
        let len = module[i + 1] as usize;
        out.push((id, module[i + 2..i + 2 + len].to_vec()));
        i += 2 + len;
    }
    assert_eq!(i, module.len());
    out
}

fn code_of(src: &str) -> Vec<u8> {
    let module = compile(src).unwrap();
    sections(&module)[3].1.clone()
}

#[test]
fn scan_sum_tokens() {
    let mut lex = Lexer::new("1 + 2");
    assert_eq!(lex.next_token(), Ok(Token::Int(1)));
    assert_eq!(lex.next_token(), Ok(Token::Plus));
    assert_eq!(lex.next_token(), Ok(Token::Int(2)));
    assert_eq!(lex.next_token(), Ok(Token::Eof));
}

#[test]
fn scan_every_token_kind() {
    let mut lex = Lexer::new(" fn\tfoo_bar(x, y) {\r\n 42 - 7 * 3 / z; }");
    let expected = vec![
        Token::Fn,
        Token::Ident("foo_bar".to_string()),
        Token::Lparen,
        Token::Ident("x".to_string()),
        Token::Comma,
        Token::Ident("y".to_string()),
        Token::Rparen,
        Token::Lbracket,
        Token::Int(42),
        Token::Minus,
        Token::Int(7),
        Token::Asterisk,
        Token::Int(3),
        Token::Slash,
        Token::Ident("z".to_string()),
        Token::Semicolon,
        Token::Rbracket,
        Token::Eof,
    ];
    for t in expected {
        assert_eq!(lex.next_token(), Ok(t));
    }
}

#[test]
fn scan_end_of_input_repeats() {
    let mut lex = Lexer::new("a  ");
    assert_eq!(lex.next_token(), Ok(Token::Ident("a".to_string())));
    assert_eq!(lex.next_token(), Ok(Token::Eof));
    assert_eq!(lex.next_token(), Ok(Token::Eof));
    assert_eq!(lex.next_token(), Ok(Token::Eof));
}

#[test]
fn scan_keyword_needs_exact_text() {
    let mut lex = Lexer::new("fn fnx f");
    assert_eq!(lex.next_token(), Ok(Token::Fn));
    assert_eq!(lex.next_token(), Ok(Token::Ident("fnx".to_string())));
    assert_eq!(lex.next_token(), Ok(Token::Ident("f".to_string())));
}

#[test]
fn scan_letters_and_digits_split() {
    let mut lex = Lexer::new("12ab3");
    assert_eq!(lex.next_token(), Ok(Token::Int(12)));
    assert_eq!(lex.next_token(), Ok(Token::Ident("ab".to_string())));
    assert_eq!(lex.next_token(), Ok(Token::Int(3)));
}

#[test]
fn scan_largest_literal() {
    let mut lex = Lexer::new("9223372036854775807");
    assert_eq!(lex.next_token(), Ok(Token::Int(i64::MAX)));
}

#[test]
fn scan_literal_overflow_fails() {
    let mut lex = Lexer::new("9223372036854775808");
    assert_eq!(lex.next_token(), Err(CompileError::LexFailure));
}

#[test]
fn scan_unknown_character_fails() {
    let mut lex = Lexer::new("1 $ 2");
    assert_eq!(lex.next_token(), Ok(Token::Int(1)));
    assert_eq!(lex.next_token(), Err(CompileError::LexFailure));
}

#[test]
fn precedence_levels() {
    assert_eq!(Token::Plus.precedence(), Precedence::Sum);
    assert_eq!(Token::Minus.precedence(), Precedence::Sum);
    assert_eq!(Token::Asterisk.precedence(), Precedence::Product);
    assert_eq!(Token::Slash.precedence(), Precedence::Product);
    assert_eq!(Token::Semicolon.precedence(), Precedence::Lowest);
    assert_eq!(Token::Int(1).precedence(), Precedence::Lowest);
    assert!(Precedence::Lowest.is_below(Precedence::Sum));
    assert!(Precedence::Sum.is_below(Precedence::Product));
    assert!(!Precedence::Product.is_below(Precedence::Sum));
    assert!(!Precedence::Sum.is_below(Precedence::Sum));
}

#[test]
fn parse_product_binds_tighter() {
    let p = parse("1 + 2 * 3").unwrap();
    let expected = Statement::Expression(Expression::Infix(
        Infix::Plus,
        lit(1),
        Box::new(Expression::Infix(Infix::Asterisk, lit(2), lit(3))),
    ));
    assert_eq!(p.statements, vec![expected]);
}

#[test]
fn parse_product_first() {
    let p = parse("1 * 2 + 3").unwrap();
    let expected = Statement::Expression(Expression::Infix(
        Infix::Plus,
        Box::new(Expression::Infix(Infix::Asterisk, lit(1), lit(2))),
        lit(3),
    ));
    assert_eq!(p.statements, vec![expected]);
}

#[test]
fn parse_groups_to_the_left() {
    let p = parse("8 - 2 - 1").unwrap();
    let expected = Statement::Expression(Expression::Infix(
        Infix::Minus,
        Box::new(Expression::Infix(Infix::Minus, lit(8), lit(2))),
        lit(1),
    ));
    assert_eq!(p.statements, vec![expected]);
    let p = parse("8 / 2 / 1").unwrap();
    let expected = Statement::Expression(Expression::Infix(
        Infix::Slash,
        Box::new(Expression::Infix(Infix::Slash, lit(8), lit(2))),
        lit(1),
    ));
    assert_eq!(p.statements, vec![expected]);
}

#[test]
fn parse_function_declaration() {
    let p = parse("fn add(a, b) { a + b }").unwrap();
    let expected = Statement::Fn {
        ident: ident("add"),
        args: vec![ident("a"), ident("b")],
        blocks: vec![Statement::Expression(Expression::Infix(Infix::Plus, var("a"), var("b")))],
    };
    assert_eq!(p.statements, vec![expected]);
}

#[test]
fn parse_statements_with_optional_semicolons() {
    let p = parse("1; 2 3;").unwrap();
    assert_eq!(
        p.statements,
        vec![
            Statement::Expression(Expression::Literal(Literal::Int(1))),
            Statement::Expression(Expression::Literal(Literal::Int(2))),
            Statement::Expression(Expression::Literal(Literal::Int(3))),
        ]
    );
}

#[test]
fn parse_empty_program() {
    assert_eq!(parse("  ").unwrap().statements, vec![]);
}

#[test]
fn parse_function_without_parameters_or_body() {
    let p = parse("fn f() {}").unwrap();
    assert_eq!(
        p.statements,
        vec![Statement::Fn { ident: ident("f"), args: vec![], blocks: vec![] }]
    );
}

#[test]
fn parse_nested_function() {
    let p = parse("fn f(a) { fn g() { 1 } a }").unwrap();
    let inner = Statement::Fn {
        ident: ident("g"),
        args: vec![],
        blocks: vec![Statement::Expression(Expression::Literal(Literal::Int(1)))],
    };
    let expected = Statement::Fn {
        ident: ident("f"),
        args: vec![ident("a")],
        blocks: vec![inner, Statement::Expression(Expression::Ident(ident("a")))],
    };
    assert_eq!(p.statements, vec![expected]);
}

#[test]
fn parse_failures() {
    assert_eq!(parse("fn (a) { a }"), Err(CompileError::ParseFailure));
    assert_eq!(parse("fn f a) { a }"), Err(CompileError::ParseFailure));
    assert_eq!(parse("fn f(a) a"), Err(CompileError::ParseFailure));
    assert_eq!(parse("fn f(a) { a"), Err(CompileError::ParseFailure));
    assert_eq!(parse("fn f(1) { 1 }"), Err(CompileError::ParseFailure));
    assert_eq!(parse("+ 1"), Err(CompileError::ParseFailure));
    assert_eq!(parse("1 +"), Err(CompileError::ParseFailure));
    assert_eq!(parse(")"), Err(CompileError::ParseFailure));
}

#[test]
fn scan_failure_comes_first() {
    assert_eq!(parse("+ #"), Err(CompileError::LexFailure));
    assert_eq!(compile("fn f() { 1 } @"), Err(CompileError::LexFailure));
}

#[test]
fn module_layout_has_four_sections() {
    for src in ["fn f() { 1 }", "fn add(a, b) { a + b } fn g(x) { x * 2 }", "3; fn h(p, q, r) { p - q / r }"] {
        let module = compile(src).unwrap();
        let ids: Vec<u8> = sections(&module).iter().map(|s| s.0).collect();
        assert_eq!(ids, vec![1, 3, 7, 10]);
    }
}

#[test]
fn equal_arity_shares_a_type() {
    let module = compile("fn f(a) { a } fn g(b) { b + 1 } fn h(c) { 2 }").unwrap();
    let s = sections(&module);
    assert_eq!(s[0].1, vec![1, 0x60, 1, 0x7f, 1, 0x7f]);
    assert_eq!(s[1].1, vec![3, 0, 0, 0]);
}

#[test]
fn types_in_order_of_first_arity() {
    let module = compile("fn f(a, b) { a } fn g() { 1 } fn h(x, y) { y }").unwrap();
    let s = sections(&module);
    assert_eq!(
        s[0].1,
        vec![2, 0x60, 2, 0x7f, 0x7f, 1, 0x7f, 0x60, 0, 1, 0x7f]
    );
    assert_eq!(s[1].1, vec![3, 0, 1, 0]);
}

#[test]
fn no_function_fails() {
    assert_eq!(compile("1 + 2"), Err(CompileError::EmitFailure));
    assert_eq!(compile(""), Err(CompileError::EmitFailure));
    let mut emitter = Emitter::new(Program { statements: vec![] });
    assert_eq!(emitter.emit(), Err(CompileError::EmitFailure));
}

#[test]
fn compile_add_end_to_end() {
    let module = compile("fn add(a,b){a+b}").unwrap();
    let expected: Vec<u8> = vec![
        0x00, 0x61, 0x73, 0x6d, 0x01, 0x00, 0x00, 0x00,
        0x01, 0x07, 0x01, 0x60, 0x02, 0x7f, 0x7f, 0x01, 0x7f,
        0x03, 0x02, 0x01, 0x00,
        0x07, 0x07, 0x01, 0x03, b'a', b'd', b'd', 0x00, 0x00,
        0x0a, 0x09, 0x01, 0x07, 0x00, 0x20, 0x00, 0x20, 0x01, 0x6a, 0x0b,
    ];
    assert_eq!(module, expected);
}

#[test]
fn literal_encoding() {
    assert_eq!(code_of("fn f() { 300 }"), vec![1, 5, 0, 0x41, 0x01, 0x2c, 0x0b]);
    assert_eq!(code_of("fn f() { 0 }"), vec![1, 4, 0, 0x41, 0x00, 0x0b]);
    assert_eq!(code_of("fn f() { 255 }"), vec![1, 4, 0, 0x41, 0xff, 0x0b]);
    assert_eq!(code_of("fn f() { 65536 }"), vec![1, 6, 0, 0x41, 0x01, 0x00, 0x00, 0x0b]);
}

#[test]
fn negative_literal_uses_all_eight_bytes() {
    let program = Program {
        statements: vec![Statement::Fn {
            ident: ident("f"),
            args: vec![],
            blocks: vec![Statement::Expression(Expression::Literal(Literal::Int(-1)))],
        }],
    };
    let module = Emitter::new(program).emit().unwrap();
    assert_eq!(
        sections(&module)[3].1,
        vec![1, 11, 0, 0x41, 0xff, 0xff, 0xff, 0xff, 0xff, 0xff, 0xff, 0xff, 0x0b]
    );
}

#[test]
fn all_operators_lower_to_opcodes() {
    assert_eq!(
        code_of("fn f(a, b) { a - b * a / b }"),
        vec![1, 13, 0, 0x20, 0, 0x20, 1, 0x20, 0, 0x6c, 0x20, 1, 0x6d, 0x6b, 0x0b]
    );
}

#[test]
fn every_body_statement_is_lowered() {
    assert_eq!(
        code_of("fn f(a) { a; 7; a + 1 }"),
        vec![1, 11, 0, 0x20, 0, 0x41, 7, 0x20, 0, 0x41, 1, 0x6a, 0x0b]
    );
}

#[test]
fn unknown_identifier_emits_nothing() {
    assert_eq!(code_of("fn f(a) { a + z }"), vec![1, 5, 0, 0x20, 0, 0x6a, 0x0b]);
}

#[test]
fn repeated_parameter_name_uses_last() {
    assert_eq!(code_of("fn f(a, a) { a }"), vec![1, 4, 0, 0x20, 1, 0x0b]);
}

#[test]
fn nested_declaration_emits_no_code() {
    let module = compile("fn f(a) { fn g() { 1 } a }").unwrap();
    let s = sections(&module);
    assert_eq!(s[1].1, vec![1, 0]);
    assert_eq!(s[3].1, vec![1, 4, 0, 0x20, 0, 0x0b]);
}

#[test]
fn export_index_counts_functions_only() {
    let module = compile("1; fn f() { 1 } 2; fn gg() { 2 }").unwrap();
    let s = sections(&module);
    assert_eq!(s[2].1, vec![2, 1, b'f', 0, 0, 2, b'g', b'g', 0, 1]);
    assert_eq!(s[3].1, vec![2, 4, 0, 0x41, 1, 0x0b, 4, 0, 0x41, 2, 0x0b]);
}

#[test]
fn nul_inside_input_fails() {
    let mut lex = Lexer::new("\0");
    assert_eq!(lex.next_token(), Err(CompileError::LexFailure));
    let mut lex = Lexer::new("a \0 b");
    assert_eq!(lex.next_token(), Ok(Token::Ident("a".to_string())));
    assert_eq!(lex.next_token(), Err(CompileError::LexFailure));
    assert_eq!(compile("fn f() { 1 }\0 $$$"), Err(CompileError::LexFailure));
}

fn many_ones(count: usize, tail: &str) -> String {
    let mut src = String::from("fn f() {");
    for _ in 0..count {
        src.push_str(" 1");
    }
    src.push_str(tail);
    src.push_str(" }");
    src
}

#[test]
fn largest_section_still_fits() {
    let module = compile(&many_ones(124, " 300")).unwrap();
    let s = sections(&module);
    assert_eq!(s[3].1.len(), 255);
    assert_eq!(s[3].1[1], 253);
}

#[test]
fn oversized_section_fails() {
    assert_eq!(compile(&many_ones(126, "")), Err(CompileError::EmitFailure));
    let long_name = "x".repeat(300);
    assert_eq!(
        compile(&format!("fn {}() {{ 1 }}", long_name)),
        Err(CompileError::EmitFailure)
    );
}

#[test]
fn many_functions_of_one_arity_share_one_type() {
    let module = compile("fn a(x, y) { x } fn b(p, q) { q } fn c(m, n) { m * n } fn d(u, v) { 1 }").unwrap();
    let s = sections(&module);
    assert_eq!(s[0].1, vec![1, 0x60, 2, 0x7f, 0x7f, 1, 0x7f]);
    assert_eq!(s[1].1, vec![4, 0, 0, 0, 0]);
}

#[test]
fn type_section_of_equal_arities() {
    let program = parse("fn f(a) { a } fn g(b) { b * 2 } fn h(c) { 7 }").unwrap();
    let mut emitter = Emitter::new(program);
    assert_eq!(emitter.build_type_section(), vec![1, 6, 1, 0x60, 1, 0x7f, 1, 0x7f]);
}
