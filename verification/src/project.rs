//! Compiling a whole program of modules.
use vstd::prelude::*;
use crate::ast::{StmtV, stmts_view, names_view, lemma_names_view_index};
use crate::bytecode::Bytecode;
use crate::optimizer::{optimize, optimized};
use crate::compiler::{Compiler, CompilerV, ExportsV, import_get, exports_view};
use crate::compile_api::{cmodule, first_key};
use crate::modules::{ModuleGraph, ResolvedModule, collect_imports, resolve_import_path,
    import_target, ends_with, imports_of, import_error};
use crate::value::values_view;

verus! {

/// A module as values.
pub struct ModuleV {
    pub path: Seq<char>,
    pub statements: Seq<StmtV>,
    pub deps: Seq<Seq<char>>,
}

pub open spec fn module_view(m: ResolvedModule) -> ModuleV {
    ModuleV { path: m.path@, statements: stmts_view(m.statements@), deps: names_view(m.deps@) }
}

/// The exports of the modules compiled so far, by path.
pub type ExportTableV = Seq<(Seq<char>, ExportsV)>;

/// The table after the module at `path` exports `ex`.
pub open spec fn table_put(t: ExportTableV, path: Seq<char>, ex: ExportsV) -> ExportTableV {
    match first_path(t, path, 0) {
        Some(i) => t.update(i, (path, ex)),
        None => t.push((path, ex)),
    }
}

pub open spec fn first_path(t: ExportTableV, k: Seq<char>, i: int) -> Option<int>
    decreases t.len() - i,
{
    if i < 0 || i >= t.len() {
        None
    } else if t[i].0 == k {
        Some(i)
    } else {
        first_path(t, k, i + 1)
    }
}

/// The module a module's `j`-th import names: the canonical path the loader found, or the
/// path the import gives relative to the module when the loader gave none.
pub open spec fn dep_of(m: ModuleV, imps: Seq<(Seq<char>, Seq<char>)>, j: int) -> Seq<char> {
    if j < m.deps.len() {
        m.deps[j]
    } else {
        import_target(m.path, imps[j].1)
    }
}

/// Binds the imports of module `m` from the `j`-th on to the exports of modules compiled
/// before it.
pub open spec fn cbind(c: CompilerV, m: ModuleV, imps: Seq<(Seq<char>, Seq<char>)>, j: int, table: ExportTableV) -> (
    CompilerV,
    Option<Seq<char>>,
)
    decreases imps.len() - j,
{
    if j < 0 || j >= imps.len() {
        (c, None)
    } else if import_error(imps[j].1) is Some {
        (c, import_error(imps[j].1))
    } else {
        let dep = dep_of(m, imps, j);
        match import_get(table, dep, 0) {
            None => (
                c,
                Some("Internal error: module '"@ + dep + "' not compiled before '"@ + m.path + "'"@),
            ),
            Some(ex) => if import_get(c.imports, imps[j].0, 0) is Some {
                (c, Some("Duplicate import alias '"@ + imps[j].0 + "'"@))
            } else {
                cbind(
                    CompilerV { imports: c.imports.push((imps[j].0, ex)), ..c },
                    m,
                    imps,
                    j + 1,
                    table,
                )
            },
        }
    }
}

/// Compiles the modules from the `i`-th on, in order, each with its imports bound.
pub open spec fn cgraph(c: CompilerV, ms: Seq<ModuleV>, i: int, table: ExportTableV) -> (
    CompilerV,
    Option<Seq<char>>,
)
    decreases ms.len() - i,
{
    if i < 0 || i >= ms.len() {
        (c, None)
    } else {
        let m = ms[i];
        let c0 = CompilerV { imports: Seq::empty(), ..c };
        match cbind(c0, m, imports_of(m.statements), 0, table) {
            (c1, Some(err)) => (c1, Some(err)),
            (c1, None) => match cmodule(c1, m.statements, 0, Seq::empty()) {
                (c2, Err(err)) => (c2, Some(err)),
                (c2, Ok(ex)) => cgraph(c2, ms, i + 1, table_put(table, m.path, ex)),
            },
        }
    }
}

/// The compiler state at the start.
pub open spec fn fresh() -> CompilerV {
    CompilerV {
        code: Seq::empty(),
        consts: Seq::empty(),
        num_globals: 0,
        globals: Seq::empty(),
        scopes: Seq::empty(),
        for_counter: 0,
        path_counter: 0,
        loops: Seq::empty(),
        imports: Seq::empty(),
    }
}

fn lookup_exports(t: &Vec<(String, Vec<(String, usize)>)>, k: &String) -> (r: Option<usize>)
    ensures
        match r {
            Some(i) => i < t@.len() && import_get(
                t@.map_values(|e: (String, Vec<(String, usize)>)| (e.0@, exports_view(e.1@))),
                k@,
                0,
            ) == Some(exports_view(t@[i as int].1@)),
            None => import_get(
                t@.map_values(|e: (String, Vec<(String, usize)>)| (e.0@, exports_view(e.1@))),
                k@,
                0,
            ) is None,
        },
{
    let ghost v = t@.map_values(|e: (String, Vec<(String, usize)>)| (e.0@, exports_view(e.1@)));
    let mut i: usize = 0;
    while i < t.len()
        invariant
            i <= t@.len(),
            v == t@.map_values(|e: (String, Vec<(String, usize)>)| (e.0@, exports_view(e.1@))),
            import_get(v, k@, 0) == import_get(v, k@, i as int),
        decreases t.len() - i,
    {
        if t[i].0 == *k {
            return Some(i);
        }
        i = i + 1;
    }
    None
}

fn put_exports(t: &mut Vec<(String, Vec<(String, usize)>)>, k: &String, ex: Vec<(String, usize)>)
    ensures
        final(t)@.map_values(|e: (String, Vec<(String, usize)>)| (e.0@, exports_view(e.1@))) == table_put(
            old(t)@.map_values(|e: (String, Vec<(String, usize)>)| (e.0@, exports_view(e.1@))),
            k@,
            exports_view(ex@),
        ),
{
    let ghost v = t@.map_values(|e: (String, Vec<(String, usize)>)| (e.0@, exports_view(e.1@)));
    let ghost exv = exports_view(ex@);
    let mut i: usize = 0;
    while i < t.len()
        invariant
            i <= t@.len(),
            t@ == old(t)@,
            exv == exports_view(ex@),
            v == t@.map_values(|e: (String, Vec<(String, usize)>)| (e.0@, exports_view(e.1@))),
            first_path(v, k@, 0) == first_path(v, k@, i as int),
        decreases t.len() - i,
    {
        if t[i].0 == *k {
            let kc = k.clone();
            let pair = (kc, ex);
            assert(pair.0@ == k@ && exports_view(pair.1@) == exv);
            t.set(i, pair);
            assert(t@[i as int] == pair);
            assert(t@.map_values(|e: (String, Vec<(String, usize)>)| (e.0@, exports_view(e.1@)))
                =~= v.update(i as int, (k@, exv)));
            return;
        }
        i = i + 1;
    }
    t.push((k.clone(), ex));
    assert(t@.map_values(|e: (String, Vec<(String, usize)>)| (e.0@, exports_view(e.1@))) =~= v.push(
        (k@, exv),
    ));
}

impl Compiler {
    fn bind_module_imports(
        &mut self,
        m: &ResolvedModule,
        imps: &Vec<(String, String)>,
        table: &Vec<(String, Vec<(String, usize)>)>,
    ) -> (r: Result<(), String>)
        requires
            old(self)@.jumps_ok(),
        ensures
            (final(self)@, crate::compile_expr::rv(r)) == cbind(
                old(self)@,
                module_view(*m),
                imps@.map_values(|p: (String, String)| (p.0@, p.1@)),
                0,
                table@.map_values(|e: (String, Vec<(String, usize)>)| (e.0@, exports_view(e.1@))),
            ),
            final(self)@.jumps_ok(),
    {
        let ghost iv = imps@.map_values(|p: (String, String)| (p.0@, p.1@));
        let ghost tv = table@.map_values(|e: (String, Vec<(String, usize)>)| (e.0@, exports_view(e.1@)));
        let ghost mv = module_view(*m);
        proof {
            lemma_names_view_index(m.deps@);
        }
        let mut j: usize = 0;
        while j < imps.len()
            invariant
                j <= imps@.len(),
                iv == imps@.map_values(|p: (String, String)| (p.0@, p.1@)),
                tv == table@.map_values(|e: (String, Vec<(String, usize)>)| (e.0@, exports_view(e.1@))),
                mv == module_view(*m),
                mv.deps.len() == m.deps@.len(),
                forall|t: int| 0 <= t < m.deps@.len() ==> #[trigger] mv.deps[t] == m.deps@[t]@,
                self@.jumps_ok(),
                cbind(old(self)@, mv, iv, 0, tv) == cbind(self@, mv, iv, j as int, tv),
            decreases imps.len() - j,
        {
            let dep = match resolve_import_path(m.path.as_str(), imps[j].1.as_str()) {
                Err(err) => {
                    return Err(err);
                },
                Ok(joined) => if j < m.deps.len() {
                    m.deps[j].clone()
                } else {
                    joined
                },
            };
            let ti = match lookup_exports(table, &dep) {
                None => {
                    let mut msg = "Internal error: module '".to_owned();
                    msg.append(dep.as_str());
                    msg.append("' not compiled before '");
                    msg.append(m.path.as_str());
                    msg.append("'");
                    return Err(msg);
                },
                Some(ti) => ti,
            };
            match self.bind_import(&imps[j].0, &table[ti].1) {
                Err(err) => {
                    return Err(err);
                },
                Ok(()) => {},
            }
            j = j + 1;
        }
        Ok(())
    }
}

/// Compiles the modules of a program in order, binding each module's imports to the exports
/// of the modules before it (see `cgraph`), then runs the peephole pass over the result
/// (see `optimized`).
pub fn compile_graph(graph: &ModuleGraph) -> (r: Result<Bytecode, String>)
    ensures
        ({
            let ms = graph.modules@.map_values(|m: ResolvedModule| module_view(m));
            match (r, cgraph(fresh(), ms, 0, Seq::empty())) {
                (Ok(b), (c, None)) => b.code@ == optimized(c.code, c.consts) && values_view(
                    b.constants@,
                ) == c.consts && b.num_globals == c.globals.len(),
                (Err(m), (_, Some(sm))) => m@ == sm,
                _ => false,
            }
        }),
{
    let ghost ms = graph.modules@.map_values(|m: ResolvedModule| module_view(m));
    let mut compiler = Compiler::new();
    let mut table: Vec<(String, Vec<(String, usize)>)> = Vec::new();
    assert(table@.map_values(|e: (String, Vec<(String, usize)>)| (e.0@, exports_view(e.1@))) =~= Seq::<
        (Seq<char>, ExportsV),
    >::empty());
    let n = graph.modules.len();
    let mut i: usize = 0;
    while i < n
        invariant
            i <= n,
            n == graph.modules@.len(),
            ms == graph.modules@.map_values(|m: ResolvedModule| module_view(m)),
            compiler@.jumps_ok(),
            cgraph(fresh(), ms, 0, Seq::empty()) == cgraph(
                compiler@,
                ms,
                i as int,
                table@.map_values(|e: (String, Vec<(String, usize)>)| (e.0@, exports_view(e.1@))),
            ),
        decreases n - i,
    {
        let m = &graph.modules[i];
        compiler.begin_module();
        let imps = collect_imports(&m.statements);
        match compiler.bind_module_imports(m, &imps, &table) {
            Err(err) => {
                return Err(err);
            },
            Ok(()) => {},
        }
        match compiler.compile_module(&m.statements) {
            Err(err) => {
                return Err(err);
            },
            Ok(ex) => {
                put_exports(&mut table, &m.path, ex);
            },
        }
        i = i + 1;
    }
    Ok(optimize(compiler.finish_bytecode()))
}

} // verus!
