use kria::ast::{BinaryOperator, Expression, InputType, Literal, Statement, UnaryOperator};
use kria::bytecode::Bytecode;
use kria::compiler::Compiler;
use kria::input::decide_input;
use kria::lexer::Lexer;
use kria::parser::Parser;
use kria::vm::{Event, VM};

fn num(n: i64) -> Expression {
    Expression::Literal(Literal::Number(n))
}

fn text(s: &str) -> Expression {
    Expression::Literal(Literal::String(s.to_string()))
}

fn truth(b: bool) -> Expression {
    Expression::Literal(Literal::Boolean(b))
}

fn ident(s: &str) -> Expression {
    Expression::Identifier(s.to_string())
}

fn bin(l: Expression, op: BinaryOperator, r: Expression) -> Expression {
    Expression::BinaryOp { left: Box::new(l), op, right: Box::new(r) }
}

fn set(name: &str, e: Expression) -> Statement {
    Statement::Assignment { name: name.to_string(), value: e }
}

fn print(e: Expression) -> Statement {
    Statement::Print(e)
}

fn call(name: &str, args: Vec<Expression>) -> Expression {
    Expression::FunctionCall { name: name.to_string(), args }
}

fn member(o: Expression, m: &str) -> Expression {
    Expression::MemberAccess { object: Box::new(o), member: m.to_string() }
}

fn index(o: Expression, i: Expression) -> Expression {
    Expression::Index { object: Box::new(o), index: Box::new(i) }
}

fn array(elements: Vec<Expression>, mutable: bool) -> Expression {
    Expression::Literal(Literal::Array { elements, mutable })
}

fn object(fields: Vec<(&str, Expression)>) -> Expression {
    Expression::Literal(Literal::Object {
        fields: fields.into_iter().map(|(k, v)| (k.to_string(), v)).collect(),
    })
}

fn function(name: &str, params: Vec<&str>, body: Vec<Statement>) -> Statement {
    Statement::FunctionDef {
        name: name.to_string(),
        params: params.into_iter().map(|p| p.to_string()).collect(),
        body,
        exported: false,
    }
}

fn ret(e: Expression) -> Statement {
    Statement::Return(Some(e))
}

fn drive(vm: &mut VM, bc: &Bytecode) -> (Vec<String>, String) {
    let mut out = Vec::new();
    for _ in 0..1000 {
        match vm.run(bc, 100_000) {
            Event::Continue => {}
            Event::Print(s) => out.push(s),
            Event::Halt => return (out, "halt".to_string()),
            Event::Error(m) => return (out, format!("error: {}", m)),
            Event::Fault(m) => return (out, format!("fault: {}", m)),
            Event::Input { mask, prompt } => return (out, format!("input {} {}", mask, prompt)),
        }
    }
    panic!("the program did not finish");
}

fn run(stmts: Vec<Statement>) -> (Vec<String>, String) {
    let bc = Compiler::new().compile(&stmts).expect("compiles");
    let mut vm = VM::new();
    vm.start(&bc, 0);
    drive(&mut vm, &bc)
}

fn parse(src: &str) -> Result<Vec<Statement>, String> {
    let mut lexer = Lexer::new(src);
    let tokens = lexer.tokenize();
    let mut parser = Parser::new(tokens);
    parser.parse()
}

fn run_source(src: &str) -> (Vec<String>, String) {
    run(parse(src).expect("parses"))
}

fn lines(xs: &[&str]) -> Vec<String> {
    xs.iter().map(|s| s.to_string()).collect()
}

fn halted(xs: &[&str]) -> (Vec<String>, String) {
    (lines(xs), "halt".to_string())
}

#[test]
fn arithmetic_follows_precedence() {
    assert_eq!(run_source("print(2 + 3 * 4)\nprint((2 + 3) * 4)\nprint(7 / 2)\n"), halted(&["14", "20", "3"]));
}

#[test]
fn strings_concatenate() {
    assert_eq!(run_source("set a = \"Hello, \"\nprint(a + \"world\")"), halted(&["Hello, world"]));
}

#[test]
fn comparisons_and_logic() {
    assert_eq!(
        run_source("print(3 > 2)\nprint(2 >= 3)\nprint(1 == 1)\nprint(1 != 1)\nprint(true and false)\nprint(false or true)\nprint(not false)"),
        halted(&["true", "false", "true", "false", "false", "true", "true"])
    );
}

#[test]
fn if_elseif_else_picks_one_branch() {
    let src = "set x = 5\nif x > 10 {\n print(\"big\")\n} elseif x > 3 {\n print(\"medium\")\n} else {\n print(\"small\")\n}\nprint(\"done\")";
    assert_eq!(run_source(src), halted(&["medium", "done"]));
}

#[test]
fn undefined_variable_is_null() {
    assert_eq!(run_source("print(nothing)"), halted(&["null"]));
}

#[test]
fn division_by_zero_is_an_error() {
    assert_eq!(
        run_source("set a = 1\nset b = 0\nprint(a / b)"),
        (vec![], "error: Division by zero".to_string())
    );
}

#[test]
fn add_type_error_shows_the_operands() {
    assert_eq!(
        run_source("set a = 1\nprint(a + \"x\")"),
        (vec![], "error: Add requires two numbers or two strings, found Number(1) and String(\"x\")".to_string())
    );
}

#[test]
fn overflow_is_a_fault() {
    let r = run(vec![set("a", num(i64::MAX)), print(bin(ident("a"), BinaryOperator::Add, num(1)))]);
    assert_eq!(r, (vec![], "fault: integer overflow".to_string()));
}

#[test]
fn not_requires_a_boolean() {
    let r = run(vec![
        set("a", num(1)),
        print(Expression::UnaryOp { op: UnaryOperator::Not, expr: Box::new(ident("a")) }),
    ]);
    assert_eq!(r, (vec![], "error: Not requires boolean, found Number(1)".to_string()));
}

#[test]
fn parse_errors_are_reported() {
    assert_eq!(parse(")").err(), Some("Unexpected token in expression: RParen".to_string()));
    assert_eq!(parse("set a = 1 @ 2").err(), Some("Expected newline or end of file, found Number(2)".to_string()));
    assert_eq!(run_source("print(1) $"), halted(&["1"]));
    assert!(parse("set = 1").is_err());
    assert!(parse("print(1 + 2").is_err());
    assert!(parse("print 1").is_err());
}

#[test]
fn counted_while_loop() {
    let r = run(vec![
        set("i", num(0)),
        Statement::While {
            condition: bin(ident("i"), BinaryOperator::LessThan, num(3)),
            body: vec![print(ident("i")), set("i", bin(ident("i"), BinaryOperator::Add, num(1)))],
        },
        print(ident("i")),
    ]);
    assert_eq!(r, halted(&["0", "1", "2", "3"]));
}

#[test]
fn while_with_break_and_continue() {
    let r = run(vec![
        set("i", num(0)),
        Statement::While {
            condition: truth(true),
            body: vec![
                set("i", bin(ident("i"), BinaryOperator::Add, num(1))),
                Statement::If {
                    branches: vec![(bin(ident("i"), BinaryOperator::Equals, num(2)), vec![Statement::Continue])],
                    else_branch: None,
                },
                Statement::If {
                    branches: vec![(bin(ident("i"), BinaryOperator::GreaterThan, num(4)), vec![Statement::Break])],
                    else_branch: None,
                },
                print(ident("i")),
            ],
        },
        print(text("after")),
    ]);
    assert_eq!(r, halted(&["1", "3", "4", "after"]));
}

#[test]
fn break_outside_a_loop_is_refused() {
    let r = Compiler::new().compile(&vec![Statement::Break]);
    assert!(r.is_err());
}

#[test]
fn functions_take_parameters_and_return() {
    let r = run(vec![
        function("add", vec!["a", "b"], vec![ret(bin(ident("a"), BinaryOperator::Add, ident("b")))]),
        print(call("add", vec![num(2), num(3)])),
    ]);
    assert_eq!(r, halted(&["5"]));
}

#[test]
fn closures_capture_parameters() {
    let r = run(vec![
        function(
            "make_adder",
            vec!["n"],
            vec![ret(Expression::FunctionExpr {
                params: vec!["x".to_string()],
                body: vec![ret(bin(ident("x"), BinaryOperator::Add, ident("n")))],
            })],
        ),
        set("add5", call("make_adder", vec![num(5)])),
        print(Expression::Call { callee: Box::new(ident("add5")), args: vec![num(10)] }),
    ]);
    assert_eq!(r, halted(&["15"]));
}

#[test]
fn calling_a_number_is_an_error() {
    let r = run(vec![set("f", num(3)), print(call("f", vec![]))]);
    assert_eq!(r, (vec![], "error: Attempted to call non-function value".to_string()));
}

#[test]
fn arrays_push_pop_length_index() {
    let r = run(vec![
        set("a", array(vec![num(1), num(2)], true)),
        Statement::Expression(call("push", vec![ident("a"), num(3)])),
        print(ident("a")),
        print(member(ident("a"), "length")),
        print(call("pop", vec![ident("a")])),
        print(index(ident("a"), num(0))),
        Statement::IndexAssign {
            object: Box::new(ident("a")),
            index: Box::new(num(1)),
            value: Box::new(num(9)),
        },
        print(ident("a")),
        print(index(ident("a"), num(5))),
    ]);
    assert_eq!(
        r,
        (lines(&["[1, 2, 3]", "3", "3", "1", "[1, 9]"]), "error: Array index 5 out of bounds".to_string())
    );
}

#[test]
fn immutable_arrays_refuse_push() {
    let r = run(vec![
        set("b", array(vec![num(1)], false)),
        print(ident("b")),
        Statement::Expression(call("push", vec![ident("b"), num(2)])),
    ]);
    assert_eq!(r, (lines(&["#[1]"]), "error: Cannot push to immutable array".to_string()));
}

#[test]
fn pop_from_empty_array_is_an_error() {
    let r = run(vec![set("a", array(vec![], true)), print(call("pop", vec![ident("a")]))]);
    assert_eq!(r, (vec![], "error: Cannot pop from empty array".to_string()));
}

#[test]
fn objects_print_fields_in_order() {
    let r = run(vec![
        set("o", object(vec![("a", num(1)), ("b", text("x"))])),
        print(ident("o")),
        print(member(ident("o"), "a")),
        Statement::PropertyAssign { target: Box::new(member(ident("o"), "c")), value: Box::new(num(5)) },
        print(ident("o")),
        print(member(ident("o"), "missing")),
    ]);
    assert_eq!(r, halted(&["{a: 1, b: x}", "1", "{a: 1, b: x, c: 5}", "null"]));
}

#[test]
fn nested_property_assignment_creates_objects() {
    let r = run(vec![
        set("o", object(vec![])),
        Statement::PropertyAssign {
            target: Box::new(member(member(ident("o"), "d"), "e")),
            value: Box::new(num(1)),
        },
        print(ident("o")),
        print(member(member(ident("o"), "d"), "e")),
    ]);
    assert_eq!(r, halted(&["{d: {e: 1}}", "1"]));
}

#[test]
fn rmv_deletes_a_property() {
    let r = run(vec![
        set("o", object(vec![("a", num(1)), ("b", num(2))])),
        Statement::Expression(call("rmv", vec![member(ident("o"), "a")])),
        print(ident("o")),
    ]);
    assert_eq!(r, halted(&["{b: 2}"]));
}

#[test]
fn equality_is_deep_and_ignores_field_order() {
    let r = run(vec![
        set("x", array(vec![num(1), num(2)], true)),
        set("y", array(vec![num(1), num(2)], true)),
        print(bin(ident("x"), BinaryOperator::Equals, ident("y"))),
        set("p", object(vec![("a", num(1)), ("b", num(2))])),
        set("q", object(vec![("b", num(2)), ("a", num(1))])),
        print(bin(ident("p"), BinaryOperator::Equals, ident("q"))),
        set("z", array(vec![num(2), num(1)], true)),
        print(bin(ident("x"), BinaryOperator::Equals, ident("z"))),
    ]);
    assert_eq!(r, halted(&["true", "true", "false"]));
}

#[test]
fn for_in_over_array_and_object() {
    let r = run(vec![
        set("a", array(vec![text("p"), text("q")], true)),
        Statement::ForIn {
            key_name: "v".to_string(),
            value_name: None,
            iterable: Box::new(ident("a")),
            body: vec![print(ident("v"))],
        },
        set("o", object(vec![("k", num(7)), ("m", num(8))])),
        Statement::ForIn {
            key_name: "key".to_string(),
            value_name: Some("val".to_string()),
            iterable: Box::new(ident("o")),
            body: vec![print(ident("key")), print(ident("val"))],
        },
    ]);
    assert_eq!(r, halted(&["p", "q", "k", "7", "m", "8"]));
}

#[test]
fn for_in_with_the_wrong_iterable_prints_a_message() {
    let r = run(vec![
        set("a", array(vec![num(1)], true)),
        Statement::ForIn {
            key_name: "k".to_string(),
            value_name: Some("v".to_string()),
            iterable: Box::new(ident("a")),
            body: vec![print(ident("k"))],
        },
        Statement::ForIn {
            key_name: "x".to_string(),
            value_name: None,
            iterable: Box::new(num(3)),
            body: vec![print(ident("x"))],
        },
        print(text("end")),
    ]);
    assert_eq!(
        r,
        halted(&[
            "for key, value in ... requires an object iterable",
            "for item in ... requires an array iterable",
            "end",
        ])
    );
}

#[test]
fn input_event_and_decision() {
    let stmts = vec![
        set(
            "n",
            Expression::Input { types: vec![InputType::Int], prompt: Box::new(text("Number? ")) },
        ),
        print(bin(ident("n"), BinaryOperator::Add, num(1))),
    ];
    let bc = Compiler::new().compile(&stmts).unwrap();
    let mut vm = VM::new();
    vm.start(&bc, 0);
    let first = drive(&mut vm, &bc);
    assert_eq!(first, (vec![], "input 2 Number? ".to_string()));
    assert!(decide_input(2, "abc", None).is_none());
    let v = decide_input(2, "41", None).expect("an integer");
    vm.provide_input(v);
    assert_eq!(drive(&mut vm, &bc), halted(&["42"]));
}

#[test]
fn function_values_print_their_offset() {
    let r = run(vec![function("f", vec!["x"], vec![ret(ident("x"))]), print(ident("f"))]);
    assert_eq!(r.1, "halt");
    assert_eq!(r.0.len(), 1);
    assert!(r.0[0].starts_with("<function at "));
    assert!(r.0[0].ends_with("(1 params, 0 upvalues)>"));
}

#[test]
fn a_value_equals_itself() {
    let r = run(vec![
        set("a", array(vec![num(1), object(vec![("k", array(vec![], false))])], true)),
        print(bin(ident("a"), BinaryOperator::Equals, ident("a"))),
        set("f", Expression::FunctionExpr { params: vec![], body: vec![] }),
        print(bin(ident("f"), BinaryOperator::Equals, ident("f"))),
        print(bin(ident("a"), BinaryOperator::NotEquals, ident("a"))),
    ]);
    assert_eq!(r, halted(&["true", "true", "false"]));
}

#[test]
fn a_global_reads_back_what_was_stored() {
    let r = run(vec![
        set("g", text("first")),
        set("g", text("second")),
        print(ident("g")),
        set("h", ident("g")),
        print(ident("h")),
    ]);
    assert_eq!(r, halted(&["second", "second"]));
}

#[test]
fn closures_copy_captured_values_when_created() {
    let r = run(vec![
        function(
            "make",
            vec!["n"],
            vec![
                set("f", Expression::FunctionExpr { params: vec![], body: vec![ret(ident("n"))] }),
                set("n", num(99)),
                ret(ident("f")),
            ],
        ),
        set("g", call("make", vec![num(1)])),
        print(Expression::Call { callee: Box::new(ident("g")), args: vec![] }),
    ]);
    assert_eq!(r, halted(&["1"]));
}

#[test]
fn equality_is_symmetric_and_transitive() {
    let r = run(vec![
        set("p", object(vec![("a", num(1)), ("b", array(vec![num(2)], true))])),
        set("q", object(vec![("b", array(vec![num(2)], false)), ("a", num(1))])),
        set("s", object(vec![("a", num(1)), ("b", array(vec![num(2)], true))])),
        print(bin(ident("p"), BinaryOperator::Equals, ident("q"))),
        print(bin(ident("q"), BinaryOperator::Equals, ident("p"))),
        print(bin(ident("q"), BinaryOperator::Equals, ident("s"))),
        print(bin(ident("p"), BinaryOperator::Equals, ident("s"))),
    ]);
    assert_eq!(r, halted(&["true", "true", "true", "true"]));
}

#[test]
fn a_removed_property_reads_as_null() {
    let r = run(vec![
        set("o", object(vec![("a", num(1))])),
        Statement::Expression(call("rmv", vec![member(ident("o"), "a")])),
        print(member(ident("o"), "a")),
        Statement::PropertyAssign { target: Box::new(member(ident("o"), "a")), value: Box::new(num(4)) },
        print(member(ident("o"), "a")),
    ]);
    assert_eq!(r, halted(&["null", "4"]));
}

#[test]
fn while_loops_parse_and_run() {
    assert_eq!(
        run_source("set i = 0\nwhile i < 3 {\nprint(i)\nset i = i + 1\n}\nprint(\"done\")"),
        halted(&["0", "1", "2", "done"])
    );
    let stmts = parse("while i < 3 {\nset i = i + 1\n}").unwrap();
    assert_eq!(stmts.len(), 1);
    assert!(matches!(stmts[0], Statement::While { .. }));
}

#[test]
fn functions_parse_and_run() {
    let src = "fn add(a, b) {\n  return a + b\n}\nprint(add(2, 3))\nfn nothing() {\n  return\n}\nprint(nothing())";
    assert_eq!(run_source(src), halted(&["5", "null"]));
}

#[test]
fn loops_with_break_and_continue_parse() {
    let src = "set i = 0\nwhile true {\n  set i = i + 1\n  if i == 2 {\n    continue\n  }\n  if i > 3 {\n    break\n  }\n  print(i)\n}";
    assert_eq!(run_source(src), halted(&["1", "3"]));
}

#[test]
fn array_literals_parse_and_run() {
    let src = "set a = [1, 2]\npush(a, 3)\nprint(a)\nprint(a[2])\nprint(a.length)";
    assert_eq!(run_source(src), halted(&["[1, 2, 3]", "3", "3"]));
}

#[test]
fn imports_parse() {
    let stmts = parse("import m from \"./m.krx\"\nprint(m.f(1))").unwrap();
    assert!(matches!(&stmts[0], Statement::Import { alias, path } if alias == "m" && path == "./m.krx"));
    assert!(parse("import m \"./m.krx\"").is_err());
}

#[test]
fn self_updates_in_functions_change_the_local() {
    let src = "fn bump(x) {\n  set x = x + 1\n  return x\n}\nprint(bump(1))\nprint(x)";
    assert_eq!(run_source(src), halted(&["2", "null"]));
}

#[test]
fn counted_loops_in_functions_use_the_local() {
    let src = "fn count(i) {\n  while i < 3 {\n    set i = i + 1\n  }\n  return i\n}\nprint(count(0))\nprint(i)";
    assert_eq!(run_source(src), halted(&["3", "null"]));
}

#[test]
fn folded_overflow_is_left_to_run_time() {
    assert_eq!(
        run_source("print(9223372036854775807 + 1)"),
        (vec![], "fault: integer overflow".to_string())
    );
}

#[test]
fn objects_and_property_assignment_parse_and_run() {
    let src = "set o = {a: 1, b: \"x\"}\nset o.c = 5\nprint(o)\nprint(o.a)\nset p = {\n  k: 1,\n  \"m\": 2\n}\nprint(p)\nset q = {}\nset q.d.e = 1\nprint(q)";
    assert_eq!(run_source(src), halted(&["{a: 1, b: x, c: 5}", "1", "{k: 1, m: 2}", "{d: {e: 1}}"]));
}

#[test]
fn immutable_arrays_and_element_assignment_parse_and_run() {
    assert_eq!(
        run_source("set a = [1, 2]\nset a[0] = 9\nprint(a)\nset b = #[1, 2]\nprint(b)\npush(b, 3)"),
        (lines(&["[9, 2]", "#[1, 2]"]), "error: Cannot push to immutable array".to_string())
    );
}

#[test]
fn for_in_loops_parse_and_run() {
    let src = "for x in [1, 2] {\n  print(x)\n}\nfor k, v in {p: 3} {\n  print(k)\n  print(v)\n}";
    assert_eq!(run_source(src), halted(&["1", "2", "p", "3"]));
}

#[test]
fn invalid_assignment_targets_are_refused() {
    assert_eq!(parse("set f(1) = 2").err(), Some("Invalid assignment target".to_string()));
    assert_eq!(parse("for in x {\n}").err(), Some("Expected loop variable after 'for', found In".to_string()));
}

#[test]
fn function_expressions_parse_and_capture() {
    let src = "set add = fn(a, b) {\n  return a + b\n}\nprint(add(1, 2))\nfn make(n) {\n  return fn(x) {\n    return x + n\n  }\n}\nset f = make(5)\nprint(f(10))";
    assert_eq!(run_source(src), halted(&["3", "15"]));
}

#[test]
fn an_object_keeps_each_key_once() {
    let src = "set o = {a: 1, b: 2}\nset o.a = 3\nset n = 0\nfor k, v in o {\n  set n = n + 1\n}\nprint(n)\nprint(o.a)";
    assert_eq!(run_source(src), halted(&["2", "3"]));
}
