use kria::ast::{BinaryOperator, Expression, Literal, Statement};
use kria::loader::{LoadRequest, ModuleLoader, Phase};
use kria::modules::{ModuleGraph, ResolvedModule};
use kria::project::compile_graph;
use kria::vm::{Event, VM};

fn num(n: i64) -> Expression {
    Expression::Literal(Literal::Number(n))
}

fn ident(s: &str) -> Expression {
    Expression::Identifier(s.to_string())
}

/// Drives a loader against an in-memory file system: canonical paths are the names given
/// (prefixed with `/p/` when relative), and files are looked up in `files`.
fn load(entry: &str, files: &[(&str, &str)]) -> Result<ModuleGraph, String> {
    let (mut loader, mut req) = ModuleLoader::start(entry);
    for _ in 0..100 {
        req = match req {
            LoadRequest::Resolve(p) => {
                let full = if p.starts_with('/') { p.clone() } else { format!("/p/{}", p) };
                let canon = full.replace("/./", "/");
                if files.iter().any(|(name, _)| *name == canon) {
                    loader.resolved(Ok(canon))
                } else {
                    loader.resolved(Err("No such file or directory (os error 2)".to_string()))
                }
            }
            LoadRequest::Read(p) => match files.iter().find(|(name, _)| *name == p) {
                Some((_, text)) => loader.read(Ok(text.to_string())),
                None => loader.read(Err("missing".to_string())),
            },
            LoadRequest::Done(g) => return Ok(g),
            LoadRequest::Fail(m) => return Err(m),
        };
    }
    panic!("loading did not finish");
}

fn run_graph(g: &ModuleGraph) -> (Vec<String>, String) {
    let bc = compile_graph(g).expect("compiles");
    let mut vm = VM::new();
    vm.start(&bc, 0);
    let mut out = Vec::new();
    for _ in 0..1000 {
        match vm.run(&bc, 100_000) {
            Event::Continue => {}
            Event::Print(s) => out.push(s),
            Event::Halt => return (out, "halt".to_string()),
            Event::Error(m) => return (out, format!("error: {}", m)),
            Event::Fault(m) => return (out, format!("fault: {}", m)),
            Event::Input { .. } => return (out, "input".to_string()),
        }
    }
    panic!("the program did not finish");
}

#[test]
fn loader_loads_a_single_module() {
    let g = load("main.krx", &[("/p/main.krx", "set x = 2\nprint(x * 21)")]).expect("loads");
    assert_eq!(g.modules.len(), 1);
    assert_eq!(g.entry_index, 0);
    assert_eq!(g.modules[0].path, "/p/main.krx");
    assert!(g.modules[0].deps.is_empty());
    assert_eq!(run_graph(&g), (vec!["42".to_string()], "halt".to_string()));
}

#[test]
fn loader_refuses_other_extensions() {
    let r = load("main.txt", &[("/p/main.txt", "print(1)")]);
    assert_eq!(r.unwrap_err(), "Entry file must be a .krx file: /p/main.txt");
}

#[test]
fn loader_reports_a_missing_entry() {
    let r = load("none.krx", &[]);
    assert_eq!(
        r.unwrap_err(),
        "Cannot resolve entry file 'none.krx': No such file or directory (os error 2)"
    );
}

#[test]
fn loader_reports_parse_errors() {
    let r = load("main.krx", &[("/p/main.krx", "print")]);
    assert!(r.is_err());
}

#[test]
fn loader_phases_follow_the_requests() {
    let (mut loader, req) = ModuleLoader::start("main.krx");
    assert!(matches!(req, LoadRequest::Resolve(ref p) if p == "main.krx"));
    assert!(loader.phase() == Phase::Entry);
    let req = loader.resolved(Ok("/p/main.krx".to_string()));
    assert!(matches!(req, LoadRequest::Resolve(ref p) if p == "/p/main.krx"));
    assert!(loader.phase() == Phase::Visit);
    let req = loader.resolved(Ok("/p/main.krx".to_string()));
    assert!(matches!(req, LoadRequest::Read(ref p) if p == "/p/main.krx"));
    assert!(loader.phase() == Phase::Reading);
    let req = loader.read(Err("denied".to_string()));
    assert!(matches!(req, LoadRequest::Fail(ref m) if m == "Error reading '/p/main.krx': denied"));
    assert!(loader.phase() == Phase::Finished);
}

#[test]
fn modules_call_exported_functions() {
    let lib = ResolvedModule {
        path: "/p/lib.krx".to_string(),
        statements: vec![Statement::FunctionDef {
            name: "double".to_string(),
            params: vec!["n".to_string()],
            body: vec![Statement::Return(Some(Expression::BinaryOp {
                left: Box::new(ident("n")),
                op: BinaryOperator::Multiply,
                right: Box::new(num(2)),
            }))],
            exported: true,
        }],
        deps: vec![],
    };
    let main = ResolvedModule {
        path: "/p/main.krx".to_string(),
        statements: vec![
            Statement::Import { alias: "lib".to_string(), path: "lib.krx".to_string() },
            Statement::Print(Expression::Call {
                callee: Box::new(Expression::MemberAccess {
                    object: Box::new(ident("lib")),
                    member: "double".to_string(),
                }),
                args: vec![num(21)],
            }),
        ],
        deps: vec!["/p/lib.krx".to_string()],
    };
    let g = ModuleGraph { modules: vec![lib, main], entry_index: 1 };
    assert_eq!(run_graph(&g), (vec!["42".to_string()], "halt".to_string()));
}

#[test]
fn unknown_exports_are_refused() {
    let lib = ResolvedModule { path: "/p/lib.krx".to_string(), statements: vec![], deps: vec![] };
    let main = ResolvedModule {
        path: "/p/main.krx".to_string(),
        statements: vec![
            Statement::Import { alias: "lib".to_string(), path: "lib.krx".to_string() },
            Statement::Print(Expression::MemberAccess {
                object: Box::new(ident("lib")),
                member: "nope".to_string(),
            }),
        ],
        deps: vec!["/p/lib.krx".to_string()],
    };
    let g = ModuleGraph { modules: vec![lib, main], entry_index: 1 };
    assert_eq!(
        compile_graph(&g).err(),
        Some("Module 'lib' has no exported function 'nope'".to_string())
    );
}

#[test]
fn imports_of_modules_not_compiled_first_are_refused() {
    let main = ResolvedModule {
        path: "/p/main.krx".to_string(),
        statements: vec![Statement::Import { alias: "lib".to_string(), path: "lib.krx".to_string() }],
        deps: vec!["/p/lib.krx".to_string()],
    };
    let g = ModuleGraph { modules: vec![main], entry_index: 0 };
    assert_eq!(
        compile_graph(&g).err(),
        Some("Internal error: module '/p/lib.krx' not compiled before '/p/main.krx'".to_string())
    );
}

#[test]
fn loader_loads_imported_modules_first() {
    let g = load(
        "main.krx",
        &[
            ("/p/main.krx", "import lib from \"./lib.krx\"\nprint(lib.double(21))"),
            ("/p/lib.krx", "export fn double(n) {\n  return n * 2\n}"),
        ],
    )
    .expect("loads");
    assert_eq!(g.modules.len(), 2);
    assert_eq!(g.modules[0].path, "/p/lib.krx");
    assert_eq!(g.modules[1].path, "/p/main.krx");
    assert_eq!(g.entry_index, 1);
    assert_eq!(g.modules[1].deps, vec!["/p/lib.krx".to_string()]);
    assert_eq!(run_graph(&g), (vec!["42".to_string()], "halt".to_string()));
}

#[test]
fn loader_rejects_circular_imports() {
    let r = load(
        "a.krx",
        &[
            ("/p/a.krx", "import b from \"./b.krx\""),
            ("/p/b.krx", "import a from \"./a.krx\""),
        ],
    );
    assert_eq!(r.unwrap_err(), "Circular import detected involving /p/a.krx");
}

#[test]
fn loader_rejects_absolute_imports() {
    let r = load("a.krx", &[("/p/a.krx", "import b from \"/p/b.krx\""), ("/p/b.krx", "")]);
    assert_eq!(r.unwrap_err(), "Import path must be relative: '/p/b.krx'");
}

#[test]
fn a_shared_module_is_loaded_once_and_the_entry_comes_last() {
    let g = load(
        "main.krx",
        &[
            ("/p/main.krx", "import a from \"./a.krx\"\nimport b from \"./b.krx\"\nprint(a.one() + b.two())"),
            ("/p/a.krx", "import lib from \"./lib.krx\"\nexport fn one() {\n  return lib.base()\n}"),
            ("/p/b.krx", "import lib from \"./lib.krx\"\nexport fn two() {\n  return lib.base() * 2\n}"),
            ("/p/lib.krx", "export fn base() {\n  return 7\n}"),
        ],
    )
    .expect("loads");
    let paths: Vec<&str> = g.modules.iter().map(|m| m.path.as_str()).collect();
    assert_eq!(paths, vec!["/p/lib.krx", "/p/a.krx", "/p/b.krx", "/p/main.krx"]);
    assert_eq!(g.entry_index, 3);
    assert_eq!(run_graph(&g), (vec!["21".to_string()], "halt".to_string()));
}
