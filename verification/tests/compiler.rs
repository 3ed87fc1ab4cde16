use crust::generator::{generate, generate_declaration, GenError, StackInfo};
use crust::lexer::{in_interval_set, lex, lex_matches, Token, TokenType};
use crust::numbers::{append_decimal, parse_i32};
use crust::parser::{parse, BlockItem, Declaration, Expression, Factor, Program, Statement};
use crust::pattern::RawMatch;

fn tokens_of(src: &str) -> Vec<Token> {
    lex(src).expect("the patterns compile")
}

fn types_of(tokens: &[Token]) -> Vec<TokenType> {
    tokens.iter().map(|t| t.token_type).collect()
}

fn compile(src: &str) -> Result<String, GenError> {
    let tokens = tokens_of(src);
    let program = parse(&tokens).expect("the program parses");
    generate(program)
}

fn first_statement(program: &Program) -> &Statement {
    match &program.functions[0].blocks[0] {
        BlockItem::Statement(s) => s,
        BlockItem::Declaration(_) => panic!("expected a statement"),
    }
}

#[test]
fn lex_return_program() {
    let tokens = tokens_of("int main() { return 2; }");
    assert_eq!(
        types_of(&tokens),
        vec![
            TokenType::Integer,
            TokenType::Identifier,
            TokenType::LParen,
            TokenType::RParen,
            TokenType::LBrace,
            TokenType::Return,
            TokenType::Literal,
            TokenType::Semicolon,
            TokenType::RBrace,
        ]
    );
    let texts: Vec<&str> = tokens.iter().map(|t| t.text.as_str()).collect();
    assert_eq!(texts, vec!["int", "main", "(", ")", "{", "return", "2", ";", "}"]);
    let starts: Vec<u64> = tokens.iter().map(|t| t.start).collect();
    assert_eq!(starts, vec![0, 4, 8, 9, 11, 13, 20, 21, 23]);
    assert_eq!(tokens[5].end, 19);
}

#[test]
fn lex_operators() {
    let tokens = tokens_of("a == b != c <= d >= e && f || g");
    assert_eq!(
        types_of(&tokens),
        vec![
            TokenType::Identifier,
            TokenType::Equal,
            TokenType::Identifier,
            TokenType::NotEqual,
            TokenType::Identifier,
            TokenType::LessThanEqual,
            TokenType::Identifier,
            TokenType::GreaterThanEqual,
            TokenType::Identifier,
            TokenType::And,
            TokenType::Identifier,
            TokenType::Or,
            TokenType::Identifier,
        ]
    );
}

#[test]
fn lex_keywords_are_whole_words() {
    // `returnx` is one identifier; `int` before `(` is the keyword.
    let tokens = tokens_of("returnx int(");
    assert_eq!(types_of(&tokens), vec![TokenType::Identifier, TokenType::Integer, TokenType::LParen]);
    assert_eq!(tokens[0].text, "returnx");
}

#[test]
fn lex_keyword_inside_identifier() {
    let tokens = tokens_of("point = 1;");
    assert_eq!(tokens.len(), 4);
    let seen: Vec<(&str, TokenType, u64, u64)> =
        tokens.iter().map(|t| (t.text.as_str(), t.token_type, t.start, t.end)).collect();
    assert_eq!(
        seen,
        vec![
            ("point", TokenType::Identifier, 0, 5),
            ("=", TokenType::Assign, 6, 7),
            ("1", TokenType::Literal, 8, 9),
            (";", TokenType::Semicolon, 9, 10),
        ]
    );
    let tokens = tokens_of("iffy elsewhere returned integer");
    assert_eq!(types_of(&tokens), vec![TokenType::Identifier; 4]);
}

#[test]
fn lex_keywords_at_end() {
    let tokens = tokens_of("if else return int");
    assert_eq!(
        types_of(&tokens),
        vec![TokenType::If, TokenType::Else, TokenType::Return, TokenType::Integer]
    );
}

#[test]
fn lex_shift_assign_splits() {
    // `<=` is tried before `<<=`, so `<<=` comes out as `<` and `<=`.
    let tokens = tokens_of("a <<= b");
    assert_eq!(
        types_of(&tokens),
        vec![TokenType::Identifier, TokenType::LessThan, TokenType::LessThanEqual, TokenType::Identifier]
    );
}

#[test]
fn lex_matches_skips_claimed_bytes_and_sorts() {
    let results = vec![
        vec![RawMatch { start: 4, end: 5, text: String::from(";") }],
        vec![
            RawMatch { start: 0, end: 3, text: String::from("abc") },
            RawMatch { start: 3, end: 5, text: String::from("x;") },
        ],
        vec![RawMatch { start: 3, end: 4, text: String::from("7") }],
    ];
    let tokens = lex_matches(&results);
    assert_eq!(tokens.len(), 3);
    assert_eq!(tokens[0].text, "abc");
    assert_eq!(tokens[0].token_type, TokenType::Identifier);
    assert_eq!(tokens[1].text, "7");
    assert_eq!(tokens[1].token_type, TokenType::Literal);
    assert_eq!(tokens[1].start, 3);
    assert_eq!(tokens[2].token_type, TokenType::Semicolon);
    assert_eq!(tokens[2].start, 4);
}

#[test]
fn interval_overlap() {
    let intervals = vec![(0u64, 3u64), (10, 12)];
    assert!(in_interval_set((3, 5), &intervals));
    assert!(in_interval_set((8, 10), &intervals));
    assert!(!in_interval_set((4, 9), &intervals));
    assert!(!in_interval_set((1, 2), &Vec::new()));
}

#[test]
fn parse_i32_like_std() {
    for s in ["0", "7", "-12", "+5", "2147483647", "-2147483648", "007"] {
        assert_eq!(parse_i32(s), s.parse::<i32>().ok(), "{}", s);
    }
    for s in ["", "-", "+", "2147483648", "-2147483649", "1a", " 1", "99999999999"] {
        assert_eq!(parse_i32(s), None, "{}", s);
    }
}

#[test]
fn decimal_text() {
    for n in [0, 5, -8, 10, 2147483647, -2147483648] {
        let mut s = String::from("x");
        append_decimal(&mut s, n);
        assert_eq!(s, format!("x{}", n));
    }
}

#[test]
fn parse_return_program() {
    let tokens = tokens_of("int main() { return 2; }");
    let program = parse(&tokens).unwrap();
    assert_eq!(program.functions.len(), 1);
    assert_eq!(program.functions[0].name, "main");
    assert_eq!(program.functions[0].blocks.len(), 1);
    match first_statement(&program) {
        Statement::Return(Expression::Conditional(c)) => {
            assert!(c.additional.is_none());
            let term = &c.log_or_expr.log_and_expr.bit_or_expr.bit_xor_expr.bit_and_expr.eq_expr
                .rel_expr.shift_expr.add_expr.term;
            assert!(matches!(term.factor, Factor::Number(2)));
        },
        _ => panic!("expected a return"),
    }
}

#[test]
fn parse_precedence() {
    let tokens = tokens_of("int main() { return 1 + 2 * 3; }");
    let program = parse(&tokens).unwrap();
    match first_statement(&program) {
        Statement::Return(Expression::Conditional(c)) => {
            let add = &c.log_or_expr.log_and_expr.bit_or_expr.bit_xor_expr.bit_and_expr.eq_expr
                .rel_expr.shift_expr.add_expr;
            assert!(matches!(add.term.factor, Factor::Number(1)));
            assert!(add.term.additional.is_empty());
            assert_eq!(add.additional.len(), 1);
            assert_eq!(add.additional[0].0, TokenType::Addition);
            let term = &add.additional[0].1;
            assert!(matches!(term.factor, Factor::Number(2)));
            assert_eq!(term.additional.len(), 1);
            assert_eq!(term.additional[0].0, TokenType::Multiplication);
            assert!(matches!(term.additional[0].1, Factor::Number(3)));
        },
        _ => panic!("expected a return"),
    }
}

fn program_of(src: &str) -> Program {
    parse(&tokens_of(src)).expect("the program parses")
}

fn return_expression(program: &Program) -> &Expression {
    match first_statement(program) {
        Statement::Return(e) => e,
        _ => panic!("expected a return"),
    }
}

fn conditional(e: &Expression) -> &crust::parser::ConditionalExpr {
    match e {
        Expression::Conditional(c) => c,
        _ => panic!("expected a conditional expression"),
    }
}

#[test]
fn parse_bitwise_and() {
    let p = program_of("int main() { return 6 & 3 == 3; }");
    let e = return_expression(&p);
    let and = &conditional(e).log_or_expr.log_and_expr.bit_or_expr.bit_xor_expr.bit_and_expr;
    assert!(matches!(and.eq_expr.rel_expr.shift_expr.add_expr.term.factor, Factor::Number(6)));
    assert_eq!(and.additional.len(), 1);
    let eq = &and.additional[0];
    assert!(matches!(eq.rel_expr.shift_expr.add_expr.term.factor, Factor::Number(3)));
    assert_eq!(eq.additional.len(), 1);
    assert_eq!(eq.additional[0].0, TokenType::Equal);
}

#[test]
fn parse_bitwise_xor_and_or() {
    let p = program_of("int main() { return 6 ^ 3 & 1; }");
    let e = return_expression(&p);
    let xor = &conditional(e).log_or_expr.log_and_expr.bit_or_expr.bit_xor_expr;
    assert!(xor.bit_and_expr.additional.is_empty());
    assert_eq!(xor.additional.len(), 1);
    assert_eq!(xor.additional[0].additional.len(), 1);

    let p = program_of("int main() { return 6 | 3 ^ 1; }");
    let e = return_expression(&p);
    let or = &conditional(e).log_or_expr.log_and_expr.bit_or_expr;
    assert!(or.bit_xor_expr.additional.is_empty());
    assert_eq!(or.additional.len(), 1);
    assert_eq!(or.additional[0].additional.len(), 1);
}

#[test]
fn parse_logical_operators() {
    let p = program_of("int main() { return 1 && 2 | 4; }");
    let e = return_expression(&p);
    let and = &conditional(e).log_or_expr.log_and_expr;
    assert!(and.bit_or_expr.additional.is_empty());
    assert_eq!(and.additional.len(), 1);
    assert_eq!(and.additional[0].additional.len(), 1);

    let p = program_of("int main() { return 0 || 1 && 2; }");
    let e = return_expression(&p);
    let or = &conditional(e).log_or_expr;
    assert!(or.log_and_expr.additional.is_empty());
    assert_eq!(or.additional.len(), 1);
    assert_eq!(or.additional[0].additional.len(), 1);
}

#[test]
fn parse_declaration_without_value() {
    let tokens = tokens_of("int main() { int x; return x; }");
    let program = parse(&tokens).unwrap();
    let blocks = &program.functions[0].blocks;
    assert_eq!(blocks.len(), 2);
    match &blocks[0] {
        BlockItem::Declaration(d) => {
            assert_eq!(d.identifier, "x");
            assert!(d.expr.is_none());
        },
        _ => panic!("expected a declaration"),
    }
    assert!(matches!(blocks[1], BlockItem::Statement(Statement::Return(_))));
}

#[test]
fn parse_rejects_bad_declarations() {
    for src in ["int main() { int x + 1; }", "int main() { int 3 = 1; }", "int main() { int x = 1 }"] {
        assert!(parse(&tokens_of(src)).is_none(), "{}", src);
    }
}

#[test]
fn parse_rejects_missing_semicolon() {
    let tokens = tokens_of("int main() { return 2 }");
    assert!(parse(&tokens).is_none());
}

#[test]
fn parse_rejects_literal_out_of_range() {
    let tokens = tokens_of("int main() { return 2147483648; }");
    assert!(parse(&tokens).is_none());
}

#[test]
fn parse_without_closing_brace() {
    let tokens = tokens_of("int main() { return 2;");
    let program = parse(&tokens).unwrap();
    assert_eq!(program.functions[0].blocks.len(), 1);
}

#[test]
fn generate_return_constant() {
    let code = compile("int main() { return 2; }").unwrap();
    assert_eq!(code, ".globl main\n\nmain:\npush %rbp\nmovl %esp, %ebp\nmovl $2, %eax\nmovl %ebp, %esp\npop %rbp\nret\n");
}

#[test]
fn generate_unary_and_binary() {
    let code = compile("int main() { return -2 * 3; }").unwrap();
    assert_eq!(code, ".globl main\n\nmain:\npush %rbp\nmovl %esp, %ebp\nmovl $2, %eax\nneg %eax\npush %rax\nmovl $3, %eax\npop %rcx\nimul %ecx, %eax\nmovl %ebp, %esp\npop %rbp\nret\n");
}

#[test]
fn generate_variables() {
    let code = compile("int main() { int a = 1; int b = 2; a = b; }").unwrap();
    assert_eq!(code, ".globl main\n\nmain:\npush %rbp\nmovl %esp, %ebp\nmovl $1, %eax\npush %rax\nmovl $2, %eax\npush %rax\nmovl -16(%ebp), %eax\nmovl %eax, -8(%ebp)\nmovl $0, %eax\nmovl %ebp, %esp\npop %rbp\nret\n");
}

#[test]
fn generate_declaration_without_value() {
    let code = compile("int main() { int a; a = 3; return a; }").unwrap();
    assert_eq!(code, ".globl main\n\nmain:\npush %rbp\nmovl %esp, %ebp\nmovl $0, %eax\npush %rax\nmovl $3, %eax\nmovl %eax, -8(%ebp)\nmovl -8(%ebp), %eax\nmovl %ebp, %esp\npop %rbp\nret\n");
}

#[test]
fn generate_main_without_items() {
    let code = compile("int main() { }").unwrap();
    assert_eq!(code, ".globl main\n\nmain:\npush %rbp\nmovl %esp, %ebp\nmovl $0, %eax\nmovl %ebp, %esp\npop %rbp\nret\n");
}

#[test]
fn generate_conditional_labels() {
    let code = compile("int main() { return 1 ? 2 : 3; }").unwrap();
    assert_eq!(code, ".globl main\n\nmain:\npush %rbp\nmovl %esp, %ebp\nmovl $1, %eax\ncmpl $0, %eax\nje _e0\nmovl $2, %eax\njmp _post_cond0\n_e0:\nmovl $3, %eax\n_post_cond0:\nmovl %ebp, %esp\npop %rbp\nret\n");
}

#[test]
fn generate_if_without_else() {
    let code = compile("int main() { if (1) return 2; }").unwrap();
    assert_eq!(
        code,
        ".globl main\n\nmain:\npush %rbp\nmovl %esp, %ebp\nmovl $1, %eax\ncmpl $0, %eax\nje _e0\nmovl $2, %eax\nmovl %ebp, %esp\npop %rbp\nret\n_e0:\nmovl $0, %eax\nmovl %ebp, %esp\npop %rbp\nret\n"
    );
}

#[test]
fn generate_relational() {
    let code = compile("int main() { return 1 < 2; }").unwrap();
    assert_eq!(code, ".globl main\n\nmain:\npush %rbp\nmovl %esp, %ebp\nmovl $1, %eax\npush %rax\nmovl $2, %eax\npop %rcx\ncmpl %eax, %ecx\nmovl $0, %eax\nsetl %al\nmovl %ebp, %esp\npop %rbp\nret\n");
}

#[test]
fn generate_shift() {
    let code = compile("int main() { return 1 << 2; }").unwrap();
    assert_eq!(code, ".globl main\n\nmain:\npush %rbp\nmovl %esp, %ebp\nmovl $1, %eax\npush %rax\nmovl $2, %eax\nmovl %eax, %ecx\npop %rax\nsal %cl, %eax\nmovl %ebp, %esp\npop %rbp\nret\n");
}

#[test]
fn generate_bitwise() {
    let code = compile("int main() { return 6 & 3; }").unwrap();
    assert_eq!(code, ".globl main\n\nmain:\npush %rbp\nmovl %esp, %ebp\nmovl $6, %eax\npush %rax\nmovl $3, %eax\npop %rcx\nand %ecx, %eax\nmovl %ebp, %esp\npop %rbp\nret\n");
}

#[test]
fn generate_nested_logical() {
    let code = compile("int main() { return 1 || 2 && 3; }").unwrap();
    assert_eq!(code, ".globl main\n\nmain:\npush %rbp\nmovl %esp, %ebp\nmovl $1, %eax\ncmpl $0, %eax\nje _clause0\nmovl $1, %eax\njmp _end0\n_clause0:\nmovl $2, %eax\ncmpl $0, %eax\njne _clause1\njmp _end1\n_clause1:\nmovl $3, %eax\ncmpl $0, %eax\nmovl $0, %eax\nsetne %al\n_end1:\ncmpl $0, %eax\nmovl $0, %eax\nsetne %al\n_end0:\nmovl %ebp, %esp\npop %rbp\nret\n");
}

fn label_definitions(code: &str) -> Vec<&str> {
    code.lines().filter(|l| l.ends_with(':') && l.starts_with('_')).collect()
}

#[test]
fn generate_labels_are_unique() {
    let code = compile(
        "int main() { int a = 1; if (a && (a || 0)) a = a ? (a ? 1 : 2) : 3; else a = 0 || 1; return a; }",
    )
    .unwrap();
    let labels = label_definitions(&code);
    assert!(labels.len() >= 8);
    for (i, l) in labels.iter().enumerate() {
        assert!(!labels[i + 1..].contains(l), "{} defined twice", l);
    }
    for line in code.lines() {
        for jump in ["je ", "jne ", "jmp "] {
            if let Some(target) = line.strip_prefix(jump) {
                let def = format!("{}:", target);
                assert!(labels.contains(&def.as_str()), "no label {}", target);
            }
        }
    }
}

#[test]
fn generate_statements_do_not_return() {
    let code = compile("int main() { int a = 2; a = 3; return a; }").unwrap();
    assert_eq!(code.matches("ret\n").count(), 1);
    assert!(code.contains("movl -8(%ebp), %eax\n"));
    assert!(!code.contains(" 0(%ebp)"));
}

#[test]
fn generate_undeclared_variable() {
    match compile("int main() { return a; }") {
        Err(GenError::UndeclaredVariable(name)) => assert_eq!(name, "a"),
        _ => panic!("expected an undeclared variable"),
    }
}

#[test]
fn generate_redeclared_variable() {
    match compile("int main() { int a = 1; int a = 2; return a; }") {
        Err(GenError::Redeclared(name)) => assert_eq!(name, "a"),
        _ => panic!("expected a redeclaration"),
    }
}

#[test]
fn declarations_take_successive_slots() {
    let mut text = String::new();
    let mut info = StackInfo::new();
    assert_eq!(info.counter(), 0);
    assert_eq!(info.stack_index(), -8);
    let a = Declaration { identifier: "a".to_string(), expr: None };
    assert!(generate_declaration(&mut text, &a, &mut info).is_ok());
    assert_eq!(text, "movl $0, %eax\npush %rax\n");
    assert_eq!(info.offset_of("a"), Some(-8));
    assert_eq!(info.stack_index(), -16);
    let b = Declaration { identifier: "b".to_string(), expr: None };
    assert!(generate_declaration(&mut text, &b, &mut info).is_ok());
    assert_eq!(info.offset_of("b"), Some(-16));
    assert_eq!(info.offset_of("c"), None);
    assert_eq!(info.stack_index(), -24);
    match generate_declaration(&mut text, &a, &mut info) {
        Err(GenError::Redeclared(name)) => assert_eq!(name, "a"),
        other => panic!("unexpected result {:?}", other),
    }
}

#[test]
fn lex_texts_are_source_slices() {
    let src = "int main() { int ab = 10 << 2; return ab >= 7 ? ab : 0; }";
    let tokens = tokens_of(src);
    for t in &tokens {
        assert!(t.start < t.end);
        assert_eq!(&src[t.start as usize..t.end as usize], t.text);
        let digits = t.text.chars().all(|c| c.is_ascii_digit());
        assert_eq!(t.token_type == TokenType::Literal, digits, "{}", t.text);
    }
    for pair in tokens.windows(2) {
        assert!(pair[0].end <= pair[1].start);
    }
}

#[test]
fn generated_expression_code_balances_the_stack() {
    let code = compile("int main() { return (1 + 2) * 3 - 4 / 2 << 1 == 10 & 7 | 1 ^ 2; }").unwrap();
    assert_eq!(code.matches("push ").count(), code.matches("pop ").count());
}
