use kria::ast::{BinaryOperator, Expression, Literal, Statement};
use kria::bytecode::{same_value, Bytecode, OP_CONSTANT, OP_JUMP, OP_JUMP_IF_FALSE, OP_NULL, OP_POP, OP_PRINT};
use kria::compile_opt::{assigned_in_body, fold_binary_literal, hoist_global_names, hoistable_member_pairs};
use kria::heap::Heap;
use kria::input::{decide_input, expected_input, parse_integer, trim_text};
use kria::lexer::{Lexer, Token};
use kria::modules::{collect_imports, resolve_import_path};
use kria::optimizer::optimize;
use kria::render::{equal_values, push_hex, write_debug, write_value};
use kria::show::{int_to_string, token_to_string};
use kria::text::{chars_of, string_of};
use kria::value::Value;

fn num(n: i64) -> Expression {
    Expression::Literal(Literal::Number(n))
}

fn text(s: &str) -> Expression {
    Expression::Literal(Literal::String(s.to_string()))
}

fn is_number(v: &Option<Value>, n: i64) -> bool {
    matches!(v, Some(Value::Number(m)) if *m == n)
}

fn is_text(v: &Option<Value>, s: &str) -> bool {
    matches!(v, Some(Value::String(t)) if t == s)
}

#[test]
fn bytecode_emits_and_reads_little_endian() {
    let mut bc = Bytecode::new();
    assert_eq!(bc.emit_byte(7), 0);
    assert_eq!(bc.emit_u32(0x0403_0201), 1);
    assert_eq!(bc.emit_i64(-2), 5);
    assert_eq!(bc.code, vec![7, 1, 2, 3, 4, 0xfe, 0xff, 0xff, 0xff, 0xff, 0xff, 0xff, 0xff]);
    assert_eq!(Bytecode::read_u32(&bc.code, 1), 0x0403_0201);
    assert_eq!(Bytecode::read_i64(&bc.code, 5), -2);
}

#[test]
fn patch_then_read_gives_the_patched_value() {
    let mut bc = Bytecode::new();
    bc.emit_byte(1);
    let at = bc.emit_u32(0);
    bc.emit_byte(2);
    bc.patch_u32(at, 123_456);
    assert_eq!(Bytecode::read_u32(&bc.code, at), 123_456);
    assert_eq!(bc.code[0], 1);
    assert_eq!(bc.code[5], 2);
    assert_eq!(bc.code.len(), 6);
}

#[test]
fn constants_are_stored_once() {
    let mut bc = Bytecode::new();
    let a = bc.add_constant(Value::Number(5));
    let b = bc.add_constant(Value::String("x".to_string()));
    let c = bc.add_constant(Value::Number(5));
    let d = bc.add_constant(Value::Boolean(true));
    assert_eq!((a, b, c, d), (0, 1, 0, 2));
    assert_eq!(bc.constants.len(), 3);
    assert!(same_value(&Value::Null, &Value::Null));
    assert!(!same_value(&Value::Number(1), &Value::Boolean(true)));
}

#[test]
fn optimizer_removes_dead_constant_pops() {
    let mut bc = Bytecode::new();
    let k = bc.add_constant(Value::Number(1));
    bc.emit_byte(kria::bytecode::OP_CONSTANT);
    bc.emit_u32(k);
    bc.emit_byte(kria::bytecode::OP_POP);
    bc.emit_byte(kria::bytecode::OP_NULL);
    bc.emit_byte(kria::bytecode::OP_PRINT);
    let out = optimize(bc);
    assert_eq!(out.code, vec![kria::bytecode::OP_NULL, kria::bytecode::OP_PRINT]);
}

#[test]
fn optimizer_keeps_code_without_patterns() {
    let mut bc = Bytecode::new();
    bc.emit_byte(kria::bytecode::OP_NULL);
    bc.emit_byte(kria::bytecode::OP_PRINT);
    let before = bc.code.clone();
    let out = optimize(bc);
    assert_eq!(out.code, before);
}

#[test]
fn optimizer_moves_jump_targets_past_removed_code() {
    let mut bc = Bytecode::new();
    let k = bc.add_constant(Value::Number(1));
    bc.emit_byte(OP_NULL);
    bc.emit_byte(OP_JUMP_IF_FALSE);
    bc.emit_u32(12);
    bc.emit_byte(OP_CONSTANT);
    bc.emit_u32(k);
    bc.emit_byte(OP_POP);
    bc.emit_byte(OP_NULL);
    bc.emit_byte(OP_PRINT);
    let out = optimize(bc);
    assert_eq!(out.code, vec![OP_NULL, OP_JUMP_IF_FALSE, 6, 0, 0, 0, OP_NULL, OP_PRINT]);
}

#[test]
fn optimizer_drops_jump_to_next_instruction() {
    let mut bc = Bytecode::new();
    bc.emit_byte(OP_JUMP);
    bc.emit_u32(5);
    bc.emit_byte(OP_NULL);
    bc.emit_byte(OP_PRINT);
    let out = optimize(bc);
    assert_eq!(out.code, vec![OP_NULL, OP_PRINT]);
}

#[test]
fn optimizer_keeps_a_pop_that_a_jump_lands_on() {
    let mut bc = Bytecode::new();
    let k = bc.add_constant(Value::Number(1));
    bc.emit_byte(OP_JUMP);
    bc.emit_u32(10);
    bc.emit_byte(OP_CONSTANT);
    bc.emit_u32(k);
    bc.emit_byte(OP_POP);
    bc.emit_byte(OP_NULL);
    bc.emit_byte(OP_PRINT);
    let before = bc.code.clone();
    let out = optimize(bc);
    assert_eq!(out.code, before);
}

#[test]
fn operand_bytes_are_not_read_as_instructions() {
    let mut bc = Bytecode::new();
    for i in 0..257 {
        assert_eq!(bc.add_constant(Value::Number(i)), i as u32);
    }
    // Read byte by byte, the operand of the first load would look like a constant load with
    // a pop after it; read instruction by instruction, there is no dead load here.
    bc.emit_byte(OP_CONSTANT);
    bc.emit_u32(256);
    bc.emit_byte(OP_CONSTANT);
    bc.emit_u32(17);
    bc.emit_byte(OP_PRINT);
    bc.emit_byte(OP_PRINT);
    assert_eq!(bc.code[6], kria::bytecode::OP_POP);
    let before = bc.code.clone();
    let out = optimize(bc);
    assert_eq!(out.code, before);
}

#[test]
fn integers_parse_like_i64() {
    assert_eq!(parse_integer("42"), Some(42));
    assert_eq!(parse_integer("-7"), Some(-7));
    assert_eq!(parse_integer("+7"), Some(7));
    assert_eq!(parse_integer("9223372036854775807"), Some(i64::MAX));
    assert_eq!(parse_integer("-9223372036854775808"), Some(i64::MIN));
    assert_eq!(parse_integer("9223372036854775808"), None);
    assert_eq!(parse_integer(""), None);
    assert_eq!(parse_integer("-"), None);
    assert_eq!(parse_integer("1.5"), None);
    assert_eq!(parse_integer(" 1"), None);
}

#[test]
fn trimming_removes_outer_whitespace() {
    assert_eq!(trim_text("  ab c \n"), "ab c");
    assert_eq!(trim_text("   "), "");
    assert_eq!(trim_text("x"), "x");
}

#[test]
fn input_decisions_follow_the_mask() {
    assert!(is_number(&decide_input(2, "12", None), 12));
    assert!(is_number(&decide_input(6, "2.7", Some(2)), 2));
    assert!(decide_input(2, "2.7", Some(2)).is_none());
    assert!(is_text(&decide_input(1, "hello", None), "hello"));
    assert!(decide_input(1, "12", Some(12)).is_none());
    assert!(is_text(&decide_input(3, "hi", None), "hi"));
    assert!(is_number(&decide_input(3, "5", Some(5)), 5));
    assert_eq!(expected_input(1), "string");
    assert_eq!(expected_input(7), "string or integer or float");
    assert_eq!(expected_input(6), "integer or float");
}

#[test]
fn numbers_and_strings_are_shown() {
    assert_eq!(int_to_string(0), "0");
    assert_eq!(int_to_string(-120), "-120");
    assert_eq!(int_to_string(i64::MIN), "-9223372036854775808");
    assert_eq!(
        token_to_string(&Token::String("a\"b\\c\n".to_string())),
        "String(\"a\\\"b\\\\c\\n\")"
    );
    let mut s = String::new();
    push_hex(&mut s, 255);
    assert_eq!(s, "ff");
}

#[test]
fn tokens_are_shown_as_debug() {
    assert_eq!(token_to_string(&Token::SetKw), "Set");
    assert_eq!(token_to_string(&Token::Identifier("x".to_string())), "Identifier(\"x\")");
    assert_eq!(token_to_string(&Token::Number(3)), "Number(3)");
}

#[test]
fn lexer_splits_source_into_tokens() {
    let mut lexer = Lexer::new("set x = 1 + 2\nprint \"hi\" >= != ==");
    let tokens = lexer.tokenize();
    assert_eq!(
        tokens,
        vec![
            Token::SetKw,
            Token::Identifier("x".to_string()),
            Token::Equal,
            Token::Number(1),
            Token::Plus,
            Token::Number(2),
            Token::Newline,
            Token::Print,
            Token::String("hi".to_string()),
            Token::GreaterEqual,
            Token::NotEqual,
            Token::EqualEqual,
            Token::Eof,
        ]
    );
    let mut brackets = Lexer::new("[1, x.y] @");
    assert_eq!(
        brackets.tokenize(),
        vec![
            Token::LBracket,
            Token::Number(1),
            Token::Comma,
            Token::Identifier("x".to_string()),
            Token::Dot,
            Token::Identifier("y".to_string()),
            Token::RBracket,
            Token::Eof,
        ]
    );
    let mut words = Lexer::new("fn return import from export break continue");
    assert_eq!(
        words.tokenize(),
        vec![
            Token::Fn,
            Token::Return,
            Token::Import,
            Token::From,
            Token::Export,
            Token::Break,
            Token::Continue,
            Token::Eof,
        ]
    );
    let mut empty = Lexer::new("");
    assert_eq!(empty.tokenize(), vec![Token::Eof]);
}

#[test]
fn character_classes_and_conversions() {
    let mut lexer = Lexer::new("set héllo_2 =\t7\u{3000}print");
    assert_eq!(
        lexer.tokenize(),
        vec![
            Token::SetKw,
            Token::Identifier("héllo_2".to_string()),
            Token::Equal,
            Token::Number(7),
            Token::Print,
            Token::Eof,
        ]
    );
    let cs = chars_of("héllo");
    assert_eq!(cs.len(), 5);
    assert_eq!(string_of(&cs), "héllo");
}

#[test]
fn heap_values_are_shown_and_compared() {
    let mut heap = Heap::new();
    let a = heap.alloc_array(true, vec![Value::Number(1), Value::String("s".to_string())]);
    let b = heap.alloc_array(false, vec![Value::Number(1), Value::String("s".to_string())]);
    let o = heap.alloc_object();
    heap.object_insert(o, "k".to_string(), Value::Array(a));
    let mut out = String::new();
    assert!(write_value(&heap, &Value::Object(o), 10, &mut out));
    assert_eq!(out, "{k: [1, s]}");
    let mut out = String::new();
    assert!(write_value(&heap, &Value::Array(b), 10, &mut out));
    assert_eq!(out, "#[1, s]");
    assert_eq!(equal_values(&heap, &Value::Array(a), &Value::Array(b), 10), Some(true));
    let mut dbg = String::new();
    assert!(write_debug(&heap, &Value::String("q".to_string()), 10, &mut dbg));
    assert_eq!(dbg, "String(\"q\")");
}

#[test]
fn cyclic_values_have_no_rendering() {
    let mut heap = Heap::new();
    let a = heap.alloc_array(true, vec![]);
    heap.array_push(a, Value::Array(a));
    let mut out = String::new();
    assert!(!write_value(&heap, &Value::Array(a), 100, &mut out));
    assert_eq!(equal_values(&heap, &Value::Array(a), &Value::Array(a), 100), None);
}

#[test]
fn heap_arrays_and_objects_behave_like_lists_and_maps() {
    let mut heap = Heap::new();
    let a = heap.alloc_array(true, vec![Value::Number(1)]);
    heap.array_push(a, Value::Number(2));
    assert_eq!(heap.array_len(a), 2);
    assert!(matches!(heap.array_pop(a), Value::Number(2)));
    assert_eq!(heap.array_len(a), 1);
    let o = heap.alloc_object();
    heap.object_insert(o, "x".to_string(), Value::Number(1));
    heap.object_insert(o, "y".to_string(), Value::Number(2));
    heap.object_insert(o, "x".to_string(), Value::Number(3));
    assert_eq!(heap.object_len(o), 2);
    assert!(is_number(&heap.object_get(o, "x"), 3));
    let (k, _) = heap.object_entry(o, 0);
    assert_eq!(k, "x");
    heap.object_remove(o, "x");
    assert!(heap.object_get(o, "x").is_none());
    let (k, _) = heap.object_entry(o, 0);
    assert_eq!(k, "y");
}

#[test]
fn constant_folding() {
    assert!(matches!(fold_binary_literal(&num(2), BinaryOperator::Multiply, &num(21)), Some(Value::Number(42))));
    assert!(fold_binary_literal(&num(1), BinaryOperator::Divide, &num(0)).is_none());
    assert!(matches!(fold_binary_literal(&num(3), BinaryOperator::LessThan, &num(4)), Some(Value::Boolean(true))));
    assert!(is_text(&fold_binary_literal(&text("a"), BinaryOperator::Add, &text("b")), "ab"));
    assert!(fold_binary_literal(&num(1), BinaryOperator::Add, &text("b")).is_none());
    assert!(fold_binary_literal(&num(i64::MAX), BinaryOperator::Add, &num(1)).is_none());
    assert!(fold_binary_literal(&num(i64::MIN), BinaryOperator::Divide, &num(-1)).is_none());
}

#[test]
fn assigned_names_and_hoisting() {
    let body = vec![
        Statement::Assignment { name: "a".to_string(), value: num(1) },
        Statement::Print(Expression::MemberAccess {
            object: Box::new(Expression::Identifier("cfg".to_string())),
            member: "size".to_string(),
        }),
        Statement::Print(Expression::MemberAccess {
            object: Box::new(Expression::Identifier("a".to_string())),
            member: "size".to_string(),
        }),
        Statement::Assignment { name: "a".to_string(), value: num(2) },
    ];
    assert_eq!(assigned_in_body(&body), vec!["a".to_string()]);
    let pairs = hoistable_member_pairs(&body);
    assert_eq!(pairs, vec![("cfg".to_string(), "size".to_string())]);
    let names = hoist_global_names(&pairs);
    assert_eq!(names, vec![(("cfg".to_string(), "size".to_string()), "__hoist_0_size".to_string())]);
}

#[test]
fn member_reads_in_assigned_values_are_hoistable() {
    let member = |o: &str, m: &str| Expression::MemberAccess {
        object: Box::new(Expression::Identifier(o.to_string())),
        member: m.to_string(),
    };
    let body = vec![Statement::PropertyAssign {
        target: Box::new(member("o", "f")),
        value: Box::new(member("a", "x")),
    }];
    let pairs = hoistable_member_pairs(&body);
    assert_eq!(pairs, vec![("a".to_string(), "x".to_string())]);
}

#[test]
fn import_paths_are_checked_and_joined() {
    assert_eq!(resolve_import_path("lib/main.krx", "util.krx"), Ok("lib/util.krx".to_string()));
    assert_eq!(resolve_import_path("main.krx", "util.krx"), Ok("util.krx".to_string()));
    assert_eq!(
        resolve_import_path("/proj/main.krx", "/lib/m.krx"),
        Err("Import path must be relative: '/lib/m.krx'".to_string())
    );
    assert_eq!(
        resolve_import_path("main.krx", "util.txt"),
        Err("Import path must be a .krx file: 'util.txt'".to_string())
    );
    let ss = vec![
        Statement::Import { alias: "u".to_string(), path: "u.krx".to_string() },
        Statement::Print(num(1)),
        Statement::Import { alias: "v".to_string(), path: "v.krx".to_string() },
    ];
    assert_eq!(
        collect_imports(&ss),
        vec![("u".to_string(), "u.krx".to_string()), ("v".to_string(), "v.krx".to_string())]
    );
}
