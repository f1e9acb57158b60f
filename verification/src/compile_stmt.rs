//! Compiling statements and function bodies (see `compile_spec::cstmt`).
use vstd::prelude::*;
use crate::ast::{Expression, Statement, Literal, BinaryOperator, ExprV, StmtV, LitV, expr_view,
    stmt_view, exprs_view, stmts_view, names_view, branches_view, lemma_stmts_view_index,
    lemma_branches_view_index, lemma_names_view_index};
use crate::value::{Value, ValueV};
use crate::bytecode::{OP_JUMP, OP_JUMP_IF_FALSE, OP_NULL, OP_RETURN, OP_PRINT, OP_POP,
    OP_INDEX_SET, OP_INC_GLOBAL, OP_ADD_GLOBAL, OP_LOOP_INC_LESS, OP_LESS_CONST_JUMP_IF_FALSE,
    OP_STORE_GLOBAL, OP_LOAD_GLOBAL, OP_IS_ARRAY, OP_IS_OBJECT, OP_ARRAY_LEN, OP_LESS,
    OP_INDEX_GET, OP_ADD, OP_OBJECT_KEYS, OP_OBJECT_GET, OP_CONSTANT, OP_OBJECT_SET};
use crate::show::push_nat;
use crate::compiler::{Compiler, CompilerV, CompileScope, LoopContext, UpvalueCapture, ScopeV,
    LoopV, scope_view, loop_view, is_text, loop_ok};
use crate::compile_spec::{cstmt, cassign, cif, cwhile, cfundef, cindex_assign, cjump, cblock, cbranches, cfunction, ccounted_while, cfor_array,
    cfor_object, cassign_path, special_assignment, self_update, counting_body, negated,
    next_count, loop_frame, close_loop, path_object};
use crate::compile_expr::{rv, kept};

verus! {

fn clone_names(v: &Vec<String>) -> (r: Vec<String>)
    ensures
        names_view(r@) == names_view(v@),
{
    let mut out: Vec<String> = Vec::new();
    let mut i: usize = 0;
    while i < v.len()
        invariant
            i <= v@.len(),
            names_view(out@) == names_view(v@.take(i as int)),
        decreases v.len() - i,
    {
        let ghost before = out@;
        out.push(v[i].clone());
        proof {
            assert(out@ =~= before.push(out@.last()));
            assert(names_view(out@) =~= names_view(before).push(v@[i as int]@));
            assert(v@.take(i + 1) =~= v@.take(i as int).push(v@[i as int]));
            assert(names_view(v@.take(i + 1)) =~= names_view(v@.take(i as int)).push(v@[i as int]@));
        }
        i = i + 1;
    }
    assert(v@.take(v@.len() as int) =~= v@);
    out
}

/// The literal and operand order of `name + n`, `n + name` and the like (see `self_update`).
fn self_update_of(name: &String, value: &Expression) -> (r: Option<(i64, bool)>)
    ensures
        r == self_update(name@, value@),
{
    proof {
        reveal_with_fuel(expr_view, 3);
    }
    match value {
        Expression::BinaryOp { left, right, .. } => match (&**left, &**right) {
            (Expression::Identifier(src), Expression::Literal(Literal::Number(n))) => {
                if *src == *name {
                    Some((*n, true))
                } else {
                    None
                }
            },
            (Expression::Literal(Literal::Number(n)), Expression::Identifier(src)) => {
                if *src == *name {
                    Some((*n, false))
                } else {
                    None
                }
            },
            _ => None,
        },
        _ => None,
    }
}

pub(crate) fn is_counting_body(body: &Vec<Statement>, v: &String) -> (r: bool)
    ensures
        r == counting_body(stmts_view(body@), v@),
{
    proof {
        lemma_stmts_view_index(body@);
        reveal_with_fuel(expr_view, 2);
    }
    if body.len() != 1 {
        return false;
    }
    match &body[0] {
        Statement::Assignment { name, value } => {
            if *name != *v {
                return false;
            }
            match value {
                Expression::BinaryOp { op: BinaryOperator::Add, .. } => {
                    match self_update_of(v, value) {
                        Some((n, _)) => n == 1,
                        None => false,
                    }
                },
                _ => false,
            }
        },
        _ => false,
    }
}

impl Compiler {
    /// Patches each position of `ps` with `v`.
    pub(crate) fn patch_all(&mut self, ps: &Vec<usize>, v: u32)
        requires
            forall|j: int| 0 <= j < ps@.len() ==> #[trigger] ps@[j] + 4 <= old(self)@.code.len(),
        ensures
            final(self)@ == old(self)@.patched_all(ps@, v),
            final(self)@.code.len() == old(self)@.code.len(),
            final(self)@.loops == old(self)@.loops,
            final(self)@.scopes == old(self)@.scopes,
            old(self)@.jumps_ok() ==> final(self)@.jumps_ok(),
    {
        assert(ps@.skip(0) =~= ps@);
        let mut i: usize = 0;
        while i < ps.len()
            invariant
                i <= ps@.len(),
                self@.code.len() == old(self)@.code.len(),
                self@.loops == old(self)@.loops,
                self@.scopes == old(self)@.scopes,
                old(self)@.jumps_ok() ==> self@.jumps_ok(),
                forall|j: int| 0 <= j < ps@.len() ==> #[trigger] ps@[j] + 4 <= old(self)@.code.len(),
                old(self)@.patched_all(ps@, v) == self@.patched_all(ps@.skip(i as int), v),
            decreases ps.len() - i,
        {
            assert(ps@.skip(i as int).drop_first() =~= ps@.skip(i + 1));
            self.patch_u32(ps[i], v);
            i = i + 1;
        }
        assert(ps@.skip(ps@.len() as int) =~= Seq::<usize>::empty());
    }

    /// Closes the innermost loop (see `close_loop`).
    pub(crate) fn close_loop(&mut self, exit: usize, cont: usize)
        requires
            old(self)@.jumps_ok(),
            old(self)@.loops.len() > 0,
            exit + 4 <= old(self)@.code.len(),
        ensures
            final(self)@ == close_loop(old(self)@, exit as int, cont as int),
            final(self)@.jumps_ok(),
            final(self)@.code.len() == old(self)@.code.len(),
            final(self)@.loops.len() == old(self)@.loops.len() - 1,
            final(self)@.scopes == old(self)@.scopes,
    {
        let end = self.code_len();
        let n = self.loop_stack.len();
        let ghost c = self@;
        let ctx = self.loop_stack.pop().unwrap();
        assert(loop_view(ctx) == c.loops.last());
        assert(self@.loops =~= c.loops.drop_last());
        assert(loop_ok(c.loops[n - 1], c.code.len()));
        assert forall|k: int| 0 <= k < self@.loops.len() implies #[trigger] loop_ok(self@.loops[k], self@.code.len()) by {
            assert(loop_ok(c.loops[k], c.code.len()));
        }
        assert forall|j: int| 0 <= j < ctx.exit_jumps@.len() implies #[trigger] ctx.exit_jumps@[j] + 4
            <= c.code.len() by {
            assert(c.loops[n - 1].exits[j] + 4 <= c.code.len());
        }
        assert forall|j: int| 0 <= j < ctx.continue_jumps@.len() implies #[trigger] ctx.continue_jumps@[j]
            + 4 <= c.code.len() by {
            assert(c.loops[n - 1].continues[j] + 4 <= c.code.len());
        }
        self.patch_u32(exit, #[verifier::truncate] (end as u32));
        self.patch_all(&ctx.exit_jumps, #[verifier::truncate] (end as u32));
        self.patch_all(&ctx.continue_jumps, #[verifier::truncate] (cont as u32));
    }

    /// Compiles a function body (see `cfunction`).
    pub(crate) fn compile_function(&mut self, params: &Vec<String>, body: &Vec<Statement>) -> (r: Result<
        (u32, u32, Vec<UpvalueCapture>),
        String,
    >)
        requires
            old(self)@.jumps_ok(),
        ensures
            match (r, cfunction(old(self)@, names_view(params@), stmts_view(body@))) {
                (Ok((o, n, caps)), (c, Ok((so, sn, sc)))) => final(self)@ == c && o == so && n == sn
                    && caps@.map_values(|x: UpvalueCapture| (x.kind, x.index)) == sc,
                (Err(m), (c, Err(sm))) => final(self)@ == c && m@ == sm,
                _ => false,
            },
            kept(old(self)@, final(self)@, r is Ok),
        decreases body, body@.len() + 1,
    {
        self.emit_opcode(OP_JUMP);
        let skip = self.emit_u32(0);
        let offset = #[verifier::truncate] (self.code_len() as u32);
        let locals = clone_names(params);
        let ghost c2 = self@;
        let names: Vec<String> = Vec::new();
        let caps: Vec<UpvalueCapture> = Vec::new();
        proof {
            assert(names_view(names@) =~= Seq::<Seq<char>>::empty());
            assert(caps@.map_values(|x: UpvalueCapture| (x.kind, x.index)) =~= Seq::<(u8, u32)>::empty());
        }
        self.scope_stack.push(CompileScope { locals, upvalue_names: names, captures: caps });
        proof {
            assert(self@.scopes =~= c2.scopes.push(
                ScopeV { locals: names_view(params@), upvalue_names: Seq::empty(), captures: Seq::empty() },
            ));
        }
        match self.compile_block(body, 0) {
            Err(err) => {
                return Err(err);
            },
            Ok(()) => {},
        }
        proof {
            lemma_stmts_view_index(body@);
            reveal_with_fuel(stmt_view, 2);
        }
        let ends_with_return = body.len() > 0 && match &body[body.len() - 1] {
            Statement::Return(_) => true,
            _ => false,
        };
        if !ends_with_return {
            self.emit_opcode(OP_NULL);
            self.emit_opcode(OP_RETURN);
        }
        let ghost c5 = self@;
        let scope = self.scope_stack.pop().unwrap();
        assert(scope_view(scope) == c5.scopes.last());
        assert(self@.scopes =~= c5.scopes.drop_last());
        let after = self.code_len();
        self.patch_u32(skip, #[verifier::truncate] (after as u32));
        proof {
            lemma_names_view_index(params@);
        }
        Ok((offset, #[verifier::truncate] (params.len() as u32), scope.captures))
    }

    /// Compiles the statements of `ss` from position `i` on.
    pub fn compile_block(&mut self, ss: &Vec<Statement>, i: usize) -> (r: Result<(), String>)
        requires
            old(self)@.jumps_ok(),
        ensures
            (final(self)@, rv(r)) == cblock(old(self)@, stmts_view(ss@), i as int),
            kept(old(self)@, final(self)@, r is Ok),
        decreases ss, ss@.len() - i,
    {
        proof {
            lemma_stmts_view_index(ss@);
        }
        if i >= ss.len() {
            return Ok(());
        }
        proof {
            assert(decreases_to!(*ss => ss@[i as int]));
        }
        match self.compile_statement(&ss[i], false) {
            Err(err) => Err(err),
            Ok(()) => self.compile_block(ss, i + 1),
        }
    }

    pub(crate) fn compile_branches(
        &mut self,
        bs: &Vec<(Expression, Vec<Statement>)>,
        i: usize,
        jumps: Vec<usize>,
    ) -> (r: Result<Vec<usize>, String>)
        requires
            old(self)@.jumps_ok(),
            forall|j: int| 0 <= j < jumps@.len() ==> #[trigger] jumps@[j] + 4 <= old(self)@.code.len(),
        ensures
            match (r, cbranches(old(self)@, branches_view(bs@), i as int, jumps@)) {
                (Ok(js), (c, Ok(sjs))) => final(self)@ == c && js@ == sjs,
                (Err(m), (c, Err(sm))) => final(self)@ == c && m@ == sm,
                _ => false,
            },
            kept(old(self)@, final(self)@, r is Ok),
            match r {
                Ok(js) => forall|j: int| 0 <= j < js@.len() ==> #[trigger] js@[j] + 4 <= final(self)@.code.len(),
                Err(_) => true,
            },
        decreases bs, bs@.len() - i,
    {
        proof {
            lemma_branches_view_index(bs@);
        }
        if i >= bs.len() {
            return Ok(jumps);
        }
        proof {
            assert(decreases_to!(*bs => bs@[i as int]));
            assert(decreases_to!(bs@[i as int] => bs@[i as int].0));
            assert(decreases_to!(bs@[i as int] => bs@[i as int].1));
        }
        match self.compile_expression(&bs[i].0) {
            Err(err) => {
                return Err(err);
            },
            Ok(()) => {},
        }
        self.emit_opcode(OP_JUMP_IF_FALSE);
        let next = self.emit_u32(0);
        match self.compile_block(&bs[i].1, 0) {
            Err(err) => {
                return Err(err);
            },
            Ok(()) => {},
        }
        self.emit_opcode(OP_JUMP);
        let over = self.emit_u32(0);
        let here = self.code_len();
        self.patch_u32(next, #[verifier::truncate] (here as u32));
        let mut js = jumps;
        js.push(over);
        self.compile_branches(bs, i + 1, js)
    }

    /// The combined-instruction forms of `set name = name + n` (see `special_assignment`).
    pub(crate) fn compile_special_assignment(&mut self, name: &String, value: &Expression) -> (done: bool)
        requires
            old(self)@.jumps_ok(),
        ensures
            (final(self)@, done) == special_assignment(old(self)@, name@, value@),
            kept(old(self)@, final(self)@, true),
    {
        if self.scope_stack.len() > 0 {
            return false;
        }
        match self_update_of(name, value) {
            None => false,
            Some((n, name_first)) => {
                let op = match value {
                    Expression::BinaryOp { op, .. } => *op,
                    _ => BinaryOperator::Add,
                };
                let g = self.resolve_global(name);
                if op == BinaryOperator::Add {
                    if n == 1 {
                        self.emit_opcode(OP_INC_GLOBAL);
                        self.emit_u32(#[verifier::truncate] (g as u32));
                    } else {
                        self.emit_opcode(OP_ADD_GLOBAL);
                        self.emit_u32(#[verifier::truncate] (g as u32));
                        self.emit_i64(n);
                    }
                    true
                } else if op == BinaryOperator::Subtract && name_first && n != i64::MIN {
                    self.emit_opcode(OP_ADD_GLOBAL);
                    self.emit_u32(#[verifier::truncate] (g as u32));
                    self.emit_i64(-n);
                    true
                } else {
                    false
                }
            },
        }
    }

    /// Compiles one statement (see `cstmt`). With `repl_print`, an expression statement prints
    /// its value instead of dropping it.
    #[verifier::rlimit(50)]
    pub fn compile_statement(&mut self, s: &Statement, repl_print: bool) -> (r: Result<(), String>)
        requires
            old(self)@.jumps_ok(),
        ensures
            (final(self)@, rv(r)) == cstmt(old(self)@, s@, repl_print),
            kept(old(self)@, final(self)@, r is Ok),
        decreases s, 2nat,
    {
        match s {
            Statement::Assignment { .. } => self.compile_assign(s),
            Statement::Print(e) => {
                match self.compile_expression(e) {
                    Err(err) => {
                        return Err(err);
                    },
                    Ok(()) => {},
                }
                self.emit_opcode(OP_PRINT);
                Ok(())
            },
            Statement::If { .. } => self.compile_if(s),
            Statement::While { .. } => self.compile_while(s),
            Statement::FunctionDef { .. } => self.compile_fundef(s),
            Statement::Import { .. } => Ok(()),
            Statement::Return(e) => {
                match e {
                    Some(x) => {
                        match self.compile_expression(x) {
                            Err(err) => {
                                return Err(err);
                            },
                            Ok(()) => {},
                        }
                    },
                    None => {
                        self.emit_opcode(OP_NULL);
                    },
                }
                self.emit_opcode(OP_RETURN);
                Ok(())
            },
            Statement::IndexAssign { .. } => self.compile_index_assign(s),
            Statement::ForIn { value_name, .. } => {
                match value_name {
                    None => self.compile_for_in_array(s),
                    Some(_) => self.compile_for_in_object(s),
                }
            },
            Statement::PropertyAssign { .. } => self.compile_property_assign(s),
            Statement::Break => self.compile_jump(true),
            Statement::Continue => self.compile_jump(false),
            Statement::Expression(e) => {
                match self.compile_expression(e) {
                    Err(err) => {
                        return Err(err);
                    },
                    Ok(()) => {},
                }
                self.emit_opcode(if repl_print { OP_PRINT } else { OP_POP });
                Ok(())
            },
        }
    }

    fn compile_jump(&mut self, is_break: bool) -> (r: Result<(), String>)
        requires
            old(self)@.jumps_ok(),
        ensures
            (final(self)@, rv(r)) == cjump(old(self)@, is_break),
            kept(old(self)@, final(self)@, r is Ok),
    {
        if self.loop_stack.len() == 0 {
            if is_break {
                return Err("break can only be used inside a loop".to_owned());
            } else {
                return Err("continue can only be used inside a loop".to_owned());
            }
        }
        self.emit_opcode(OP_JUMP);
        let p = self.emit_u32(0);
        let ghost c2 = self@;
        let mut ctx = self.loop_stack.pop().unwrap();
        if is_break {
            ctx.exit_jumps.push(p);
        } else {
            ctx.continue_jumps.push(p);
        }
        self.loop_stack.push(ctx);
        let ghost l = c2.loops.last();
        let ghost l2 = if is_break {
            LoopV { exits: l.exits.push(p), ..l }
        } else {
            LoopV { continues: l.continues.push(p), ..l }
        };
        assert(self@.loops =~= c2.loops.update(c2.loops.len() - 1, l2));
        assert forall|k: int| 0 <= k < self@.loops.len() implies #[trigger] loop_ok(self@.loops[k], self@.code.len()) by {
            assert(loop_ok(c2.loops[k], c2.code.len()));
        }
        Ok(())
    }

    fn compile_assign(&mut self, s: &Statement) -> (r: Result<(), String>)
        requires
            old(self)@.jumps_ok(),
        ensures
            (final(self)@, rv(r)) == cassign(old(self)@, s@),
            kept(old(self)@, final(self)@, r is Ok),
        decreases s, 1nat,
    {
        match s {
            Statement::Assignment { name, value } => {
                if self.compile_special_assignment(name, value) {
                    return Ok(());
                }
                let res = self.resolve_identifier(name);
                match self.compile_expression(value) {
                    Err(err) => {
                        return Err(err);
                    },
                    Ok(()) => {},
                }
                self.emit_store_var(res);
                Ok(())
            },
            _ => Ok(()),
        }
    }

    fn compile_if(&mut self, s: &Statement) -> (r: Result<(), String>)
        requires
            old(self)@.jumps_ok(),
        ensures
            (final(self)@, rv(r)) == cif(old(self)@, s@),
            kept(old(self)@, final(self)@, r is Ok),
        decreases s, 1nat,
    {
        match s {
            Statement::If { branches, else_branch } => {
                let js = match self.compile_branches(branches, 0, Vec::new()) {
                    Err(err) => {
                        return Err(err);
                    },
                    Ok(js) => js,
                };
                match else_branch {
                    Some(b) => {
                        match self.compile_block(b, 0) {
                            Err(err) => {
                                return Err(err);
                            },
                            Ok(()) => {},
                        }
                    },
                    None => {},
                }
                let end = self.code_len();
                self.patch_all(&js, #[verifier::truncate] (end as u32));
                Ok(())
            },
            _ => Ok(()),
        }
    }

    fn compile_while(&mut self, s: &Statement) -> (r: Result<(), String>)
        requires
            old(self)@.jumps_ok(),
        ensures
            (final(self)@, rv(r)) == cwhile(old(self)@, s@),
            kept(old(self)@, final(self)@, r is Ok),
        decreases s, 1nat,
    {
        proof {
            reveal_with_fuel(stmt_view, 2);
        }
        match s {
            Statement::While { condition, body } => {
                match self.try_compile_counted_while(s) {
                    Some(r) => {
                        return r;
                    },
                    None => {},
                }
                let start = self.open_loop();
                match self.compile_expression(condition) {
                    Err(err) => {
                        return Err(err);
                    },
                    Ok(()) => {},
                }
                self.emit_opcode(OP_JUMP_IF_FALSE);
                let exit = self.emit_u32(0);
                match self.compile_block(body, 0) {
                    Err(err) => {
                        return Err(err);
                    },
                    Ok(()) => {},
                }
                self.emit_opcode(OP_JUMP);
                self.emit_u32(#[verifier::truncate] (start as u32));
                self.close_loop(exit, start);
                Ok(())
            },
            _ => Ok(()),
        }
    }

    fn compile_fundef(&mut self, s: &Statement) -> (r: Result<(), String>)
        requires
            old(self)@.jumps_ok(),
        ensures
            (final(self)@, rv(r)) == cfundef(old(self)@, s@),
            kept(old(self)@, final(self)@, r is Ok),
        decreases s, 1nat,
    {
        match s {
            Statement::FunctionDef { name, params, body, .. } => {
                match self.compile_function(params, body) {
                    Err(err) => Err(err),
                    Ok((offset, nparams, caps)) => {
                        let g = self.resolve_global(name);
                        self.emit_make_closure(offset, nparams, &caps);
                        self.emit_opcode(OP_STORE_GLOBAL);
                        self.emit_u32(#[verifier::truncate] (g as u32));
                        Ok(())
                    },
                }
            },
            _ => Ok(()),
        }
    }

    fn compile_index_assign(&mut self, s: &Statement) -> (r: Result<(), String>)
        requires
            old(self)@.jumps_ok(),
        ensures
            (final(self)@, rv(r)) == cindex_assign(old(self)@, s@),
            kept(old(self)@, final(self)@, r is Ok),
        decreases s, 1nat,
    {
        match s {
            Statement::IndexAssign { object, index, value } => {
                match self.compile_expression(object) {
                    Err(err) => {
                        return Err(err);
                    },
                    Ok(()) => {},
                }
                match self.compile_expression(index) {
                    Err(err) => {
                        return Err(err);
                    },
                    Ok(()) => {},
                }
                match self.compile_expression(value) {
                    Err(err) => {
                        return Err(err);
                    },
                    Ok(()) => {},
                }
                self.emit_opcode(OP_INDEX_SET);
                Ok(())
            },
            _ => Ok(()),
        }
    }
}

} // verus!
