//! Compiling whole programs, modules and REPL input.
use vstd::prelude::*;
use crate::ast::{Statement, StmtV, stmt_view, stmts_view, names_view, lemma_stmts_view_index};
use crate::bytecode::{Bytecode, OP_STORE_GLOBAL};
use crate::compiler::{Compiler, CompilerV, ImportBinding, ExportsV, import_get, exports_view,
    import_view};
use crate::compile_spec::{cstmt, cfunction};
use crate::compile_expr::{rv, kept, export_slot};

verus! {

/// An export table after `name` maps to `g`: an existing entry keeps its place.
pub open spec fn table_insert(t: ExportsV, name: Seq<char>, g: usize) -> ExportsV {
    match first_key(t, name, 0) {
        Some(i) => t.update(i, (name, g)),
        None => t.push((name, g)),
    }
}

/// The first position of key `k` in a table.
pub open spec fn first_key(t: ExportsV, k: Seq<char>, i: int) -> Option<int>
    decreases t.len() - i,
{
    if i < 0 || i >= t.len() {
        None
    } else if t[i].0 == k {
        Some(i)
    } else {
        first_key(t, k, i + 1)
    }
}

/// The compiler with its global count brought up to date.
pub open spec fn with_count(c: CompilerV) -> CompilerV {
    CompilerV { num_globals: c.globals.len() as usize, ..c }
}

/// The statements of a program from `i` on; with `repl`, a last expression statement
/// prints its value. The global count is updated at the end.
pub open spec fn cprogram(c: CompilerV, ss: Seq<StmtV>, i: int, repl: bool) -> (CompilerV, Option<Seq<char>>)
    decreases ss.len() - i,
{
    if i < 0 || i >= ss.len() {
        (with_count(c), None)
    } else {
        let print = repl && i + 1 == ss.len() && ss[i] is Expression;
        match cstmt(c, ss[i], print) {
            (c1, Some(err)) => (c1, Some(err)),
            (c1, None) => cprogram(c1, ss, i + 1, repl),
        }
    }
}

/// A module's statements from `i` on: imports are skipped, functions become globals and the
/// exported ones are listed in `ex` under their names.
pub open spec fn cmodule(c: CompilerV, ss: Seq<StmtV>, i: int, ex: ExportsV) -> (CompilerV, Result<ExportsV, Seq<char>>)
    decreases ss.len() - i,
{
    if i < 0 || i >= ss.len() {
        (with_count(c), Ok(ex))
    } else {
        match ss[i] {
            StmtV::Import { .. } => cmodule(c, ss, i + 1, ex),
            StmtV::FunctionDef { name, params, body, exported } => match cfunction(c, params, body) {
                (c1, Err(err)) => (c1, Err(err)),
                (c1, Ok((offset, nparams, caps))) => {
                    let (c2, g) = c1.global(name);
                    let c3 = c2.make_closure(offset, nparams, caps).op4(OP_STORE_GLOBAL, g as u32);
                    cmodule(c3, ss, i + 1, if exported { table_insert(ex, name, g) } else { ex })
                },
            },
            _ => match cstmt(c, ss[i], false) {
                (c1, Some(err)) => (c1, Err(err)),
                (c1, None) => cmodule(c1, ss, i + 1, ex),
            },
        }
    }
}

fn insert_export(t: &mut Vec<(String, usize)>, name: &String, g: usize)
    ensures
        exports_view(final(t)@) == table_insert(exports_view(old(t)@), name@, g),
{
    let ghost v = exports_view(t@);
    let mut i: usize = 0;
    while i < t.len()
        invariant
            i <= t@.len(),
            t@ == old(t)@,
            v == exports_view(t@),
            first_key(v, name@, 0) == first_key(v, name@, i as int),
        decreases t.len() - i,
    {
        if t[i].0 == *name {
            t.set(i, (name.clone(), g));
            assert(exports_view(t@) =~= v.update(i as int, (name@, g)));
            return;
        }
        i = i + 1;
    }
    t.push((name.clone(), g));
    assert(exports_view(t@) =~= v.push((name@, g)));
}

fn clone_exports(t: &Vec<(String, usize)>) -> (r: Vec<(String, usize)>)
    ensures
        exports_view(r@) == exports_view(t@),
{
    let mut out: Vec<(String, usize)> = Vec::new();
    let mut i: usize = 0;
    while i < t.len()
        invariant
            i <= t@.len(),
            exports_view(out@) == exports_view(t@.take(i as int)),
        decreases t.len() - i,
    {
        let ghost before = out@;
        out.push((t[i].0.clone(), t[i].1));
        proof {
            assert(exports_view(out@) =~= exports_view(before).push((t@[i as int].0@, t@[i as int].1)));
            assert(t@.take(i + 1) =~= t@.take(i as int).push(t@[i as int]));
            assert(exports_view(t@.take(i + 1)) =~= exports_view(t@.take(i as int)).push(
                (t@[i as int].0@, t@[i as int].1),
            ));
        }
        i = i + 1;
    }
    assert(t@.take(t@.len() as int) =~= t@);
    out
}

impl Compiler {
    /// Starts a new module: no imports are bound.
    pub fn begin_module(&mut self)
        ensures
            final(self)@ == (CompilerV { imports: Seq::empty(), ..old(self)@ }),
            old(self)@.jumps_ok() ==> final(self)@.jumps_ok(),
    {
        self.import_bindings.clear();
        assert(self@.imports =~= Seq::<(Seq<char>, ExportsV)>::empty());
    }

    /// Binds `alias` to a compiled module's exports; an alias can be bound once per module.
    pub fn bind_import(&mut self, alias: &String, exports: &Vec<(String, usize)>) -> (r: Result<(), String>)
        ensures
            import_get(old(self)@.imports, alias@, 0) is Some ==> final(self)@ == old(self)@ && r
                == Err::<(), String>(r->Err_0) && r->Err_0@ == "Duplicate import alias '"@ + alias@
                + "'"@,
            import_get(old(self)@.imports, alias@, 0) is None ==> r is Ok && final(self)@ == (
            CompilerV {
                imports: old(self)@.imports.push((alias@, exports_view(exports@))),
                ..old(self)@
            }),
            old(self)@.jumps_ok() ==> final(self)@.jumps_ok(),
    {
        let ghost v = self@.imports;
        let mut i: usize = 0;
        while i < self.import_bindings.len()
            invariant
                i <= self.import_bindings@.len(),
                self@ == old(self)@,
                v == self@.imports,
                import_get(v, alias@, 0) == import_get(v, alias@, i as int),
            decreases self.import_bindings.len() - i,
        {
            if self.import_bindings[i].alias == *alias {
                let mut msg = "Duplicate import alias '".to_owned();
                msg.append(alias.as_str());
                msg.append("'");
                return Err(msg);
            }
            i = i + 1;
        }
        let ex = clone_exports(exports);
        self.import_bindings.push(ImportBinding { alias: alias.clone(), exports: ex });
        assert(self@.imports =~= old(self)@.imports.push((alias@, exports_view(exports@))));
        proof {
            if old(self)@.jumps_ok() {
                crate::compiler::lemma_jumps_grow(old(self)@, self@);
            }
        }
        Ok(())
    }

    fn update_count(&mut self)
        ensures
            final(self)@ == with_count(old(self)@),
            old(self)@.jumps_ok() ==> final(self)@.jumps_ok(),
    {
        proof {
            crate::ast::lemma_names_view_index(self.globals@);
        }
        self.bytecode.num_globals = self.globals.len();
        proof {
            if old(self)@.jumps_ok() {
                crate::compiler::lemma_jumps_grow(old(self)@, self@);
            }
        }
    }

    fn compile_statements(&mut self, ss: &Vec<Statement>, repl: bool) -> (r: Result<(), String>)
        requires
            old(self)@.jumps_ok(),
        ensures
            (final(self)@, rv(r)) == cprogram(old(self)@, stmts_view(ss@), 0, repl),
            final(self)@.jumps_ok(),
    {
        proof {
            lemma_stmts_view_index(ss@);
        }
        let ghost sv = stmts_view(ss@);
        let n = ss.len();
        let mut i: usize = 0;
        while i < n
            invariant
                i <= n,
                n == ss@.len(),
                sv == stmts_view(ss@),
                sv.len() == n,
                forall|j: int| 0 <= j < n ==> #[trigger] sv[j] == stmt_view(ss@[j]),
                self@.jumps_ok(),
                cprogram(old(self)@, sv, 0, repl) == cprogram(self@, sv, i as int, repl),
            decreases n - i,
        {
            proof {
                crate::ast::lemma_stmts_view_index(ss@);
                reveal_with_fuel(stmt_view, 1);
            }
            let print = repl && i + 1 == n && match &ss[i] {
                Statement::Expression(_) => true,
                _ => false,
            };
            assert(print == (repl && i + 1 == sv.len() && sv[i as int] is Expression));
            match self.compile_statement(&ss[i], print) {
                Err(err) => {
                    return Err(err);
                },
                Ok(()) => {},
            }
            i = i + 1;
        }
        self.update_count();
        Ok(())
    }

    /// Compiles a whole program (see `cprogram`).
    pub fn compile(self, statements: &Vec<Statement>) -> (r: Result<Bytecode, String>)
        requires
            self@.jumps_ok(),
        ensures
            match (r, cprogram(self@, stmts_view(statements@), 0, false)) {
                (Ok(b), (c, None)) => b.code@ == c.code && crate::value::values_view(b.constants@)
                    == c.consts && b.num_globals == c.num_globals,
                (Err(m), (_, Some(sm))) => m@ == sm,
                _ => false,
            },
    {
        let mut c = self;
        match c.compile_statements(statements, false) {
            Err(err) => Err(err),
            Ok(()) => Ok(c.bytecode),
        }
    }

    /// Adds REPL input to the program compiled so far; a last bare expression is printed.
    pub fn compile_repl(&mut self, statements: &Vec<Statement>) -> (r: Result<(), String>)
        requires
            old(self)@.jumps_ok(),
        ensures
            (final(self)@, rv(r)) == cprogram(old(self)@, stmts_view(statements@), 0, true),
            final(self)@.jumps_ok(),
    {
        self.compile_statements(statements, true)
    }

    /// Compiles a module (see `cmodule`) and gives its exported functions' global slots.
    pub fn compile_module(&mut self, statements: &Vec<Statement>) -> (r: Result<Vec<(String, usize)>, String>)
        requires
            old(self)@.jumps_ok(),
        ensures
            match (r, cmodule(old(self)@, stmts_view(statements@), 0, Seq::empty())) {
                (Ok(ex), (c, Ok(sex))) => final(self)@ == c && exports_view(ex@) == sex,
                (Err(m), (c, Err(sm))) => final(self)@ == c && m@ == sm,
                _ => false,
            },
            final(self)@.jumps_ok(),
    {
        proof {
            lemma_stmts_view_index(statements@);
        }
        let ghost sv = stmts_view(statements@);
        let mut exports: Vec<(String, usize)> = Vec::new();
        assert(exports_view(exports@) =~= Seq::<(Seq<char>, usize)>::empty());
        let n = statements.len();
        let mut i: usize = 0;
        while i < n
            invariant
                i <= n,
                n == statements@.len(),
                sv == stmts_view(statements@),
                sv.len() == n,
                forall|j: int| 0 <= j < n ==> #[trigger] sv[j] == stmt_view(statements@[j]),
                self@.jumps_ok(),
                cmodule(old(self)@, sv, 0, Seq::empty()) == cmodule(self@, sv, i as int, exports_view(exports@)),
            decreases n - i,
        {
            proof {
                reveal_with_fuel(stmt_view, 1);
            }
            match &statements[i] {
                Statement::Import { .. } => {},
                Statement::FunctionDef { name, params, body, exported } => {
                    match self.compile_function(params, body) {
                        Err(err) => {
                            return Err(err);
                        },
                        Ok((offset, nparams, caps)) => {
                            let g = self.resolve_global(name);
                            self.emit_make_closure(offset, nparams, &caps);
                            self.emit_opcode(OP_STORE_GLOBAL);
                            self.emit_u32(#[verifier::truncate] (g as u32));
                            if *exported {
                                insert_export(&mut exports, name, g);
                            }
                        },
                    }
                },
                _ => {
                    match self.compile_statement(&statements[i], false) {
                        Err(err) => {
                            return Err(err);
                        },
                        Ok(()) => {},
                    }
                },
            }
            i = i + 1;
        }
        self.update_count();
        Ok(exports)
    }

    /// The program compiled so far, with its global count brought up to date.
    pub fn finish_bytecode(self) -> (b: Bytecode)
        ensures
            b.code@ == self@.code,
            crate::value::values_view(b.constants@) == self@.consts,
            b.num_globals == self@.globals.len(),
    {
        let mut c = self;
        proof {
            crate::ast::lemma_names_view_index(c.globals@);
        }
        c.bytecode.num_globals = c.globals.len();
        c.bytecode
    }

    /// The program compiled so far.
    pub fn bytecode(&self) -> (b: &Bytecode)
        ensures
            b.code@ == self@.code,
            crate::value::values_view(b.constants@) == self@.consts,
            b.num_globals == self@.num_globals,
    {
        &self.bytecode
    }
}

} // verus!
