//! Compiling loops and property assignments.
use vstd::prelude::*;
use crate::ast::{Expression, Statement, Literal, BinaryOperator, ExprV, StmtV, LitV, expr_view,
    stmt_view, stmts_view};
use crate::value::{Value, ValueV};
use crate::bytecode::{OP_JUMP, OP_JUMP_IF_FALSE, OP_NULL, OP_PRINT, OP_LOOP_INC_LESS,
    OP_LESS_CONST_JUMP_IF_FALSE, OP_STORE_GLOBAL, OP_LOAD_GLOBAL, OP_IS_ARRAY, OP_IS_OBJECT,
    OP_ARRAY_LEN, OP_LESS, OP_INDEX_GET, OP_ADD, OP_OBJECT_KEYS, OP_OBJECT_GET, OP_CONSTANT,
    OP_OBJECT_SET};
use crate::show::push_nat;
use crate::compiler::{Compiler, CompilerV, LoopContext, is_text};
use crate::compile_spec::{ccounted_while, cfor_array, cfor_object, cassign_path, loop_frame,
    close_loop, counting_body, path_object};
use crate::compile_expr::{rv, kept};

verus! {

impl Compiler {
    pub(crate) fn open_loop(&mut self) -> (start: usize)
        requires
            old(self)@.jumps_ok(),
        ensures
            start == old(self)@.code.len(),
            final(self)@ == old(self)@.with_loops(old(self)@.loops.push(loop_frame(start as int))),
            final(self)@.jumps_ok(),
    {
        let start = self.code_len();
        let ghost before = self@;
        self.loop_stack.push(
            LoopContext { start_pos: start, continue_jumps: Vec::new(), exit_jumps: Vec::new() },
        );
        assert(self@.loops =~= before.loops.push(loop_frame(start as int)));
        start
    }

    /// `while v < limit { ... }` in its combined forms (see `ccounted_while`); `None` when the
    /// loop has another shape.
    #[verifier::rlimit(60)]
    pub(crate) fn try_compile_counted_while(&mut self, s: &Statement) -> (r: Option<Result<(), String>>)
        requires
            old(self)@.jumps_ok(),
        ensures
            match (r, ccounted_while(old(self)@, s@)) {
                (None, None) => final(self)@ == old(self)@,
                (Some(x), Some((c, e))) => final(self)@ == c && rv(x) == e,
                _ => false,
            },
            kept(old(self)@, final(self)@, r is None || r->0 is Ok),
        decreases s, 0nat,
    {
        proof {
            reveal_with_fuel(expr_view, 2);
        }
        if self.scope_stack.len() > 0 {
            return None;
        }
        match s {
            Statement::While { condition, body } => match condition {
                Expression::BinaryOp { left, op, right } => {
                    if *op != BinaryOperator::LessThan {
                        return None;
                    }
                    match (&**left, &**right) {
                        (Expression::Identifier(v), Expression::Literal(Literal::Number(limit))) => {
                            assert(s@ == StmtV::While { condition: condition@, body: stmts_view(body@) });
                            assert(condition@ == ExprV::BinaryOp { left: Box::new(left@), op: *op, right: Box::new(right@) });
                            assert(left@ == ExprV::Identifier(v@));
                            assert(crate::ast::lit_view(Literal::Number(*limit)) == LitV::Number(*limit));
                            assert(right@ == ExprV::Literal(LitV::Number(*limit)));
                            let g = self.resolve_global(v);
                            if crate::compile_stmt::is_counting_body(body, v) {
                                self.emit_opcode(OP_LOOP_INC_LESS);
                                self.emit_u32(#[verifier::truncate] (g as u32));
                                self.emit_i64(*limit);
                                return Some(Ok(()));
                            }
                            let start = self.open_loop();
                            self.emit_opcode(OP_LESS_CONST_JUMP_IF_FALSE);
                            self.emit_u32(#[verifier::truncate] (g as u32));
                            self.emit_i64(*limit);
                            let exit = self.emit_u32(0);
                            match self.compile_block(body, 0) {
                                Err(err) => {
                                    return Some(Err(err));
                                },
                                Ok(()) => {},
                            }
                            self.emit_opcode(OP_JUMP);
                            self.emit_u32(#[verifier::truncate] (start as u32));
                            self.close_loop(exit, start);
                            Some(Ok(()))
                        },
                        _ => None,
                    }
                },
                _ => None,
            },
            _ => None,
        }
    }

    /// `for item in array { ... }` (see `cfor_array`).
    #[verifier::rlimit(100)]
    pub(crate) fn compile_for_in_array(&mut self, s: &Statement) -> (r: Result<(), String>)
        requires
            old(self)@.jumps_ok(),
        ensures
            (final(self)@, rv(r)) == cfor_array(old(self)@, s@),
            kept(old(self)@, final(self)@, r is Ok),
        decreases s, 1nat,
    {
        proof {
            reveal_with_fuel(stmt_view, 2);
        }
        match s {
            Statement::ForIn { key_name, iterable, body, .. } => {
                let id = self.for_loop_counter;
                self.for_loop_counter = if id == usize::MAX { 0 } else { id + 1 };
                let mut arr_name = "__for_arr_".to_owned();
                push_nat(&mut arr_name, id as u64);
                let mut i_name = "__for_i_".to_owned();
                push_nat(&mut i_name, id as u64);
                match self.compile_expression(iterable) {
                    Err(err) => {
                        return Err(err);
                    },
                    Ok(()) => {},
                }
                let arr = self.resolve_global(&arr_name);
                let arr32 = #[verifier::truncate] (arr as u32);
                self.emit_opcode(OP_STORE_GLOBAL);
                self.emit_u32(arr32);
                self.emit_opcode(OP_LOAD_GLOBAL);
                self.emit_u32(arr32);
                self.emit_opcode(OP_IS_ARRAY);
                self.emit_opcode(OP_JUMP_IF_FALSE);
                let type_err = self.emit_u32(0);
                self.emit_constant(Value::Number(0));
                let iv = self.resolve_global(&i_name);
                let iv32 = #[verifier::truncate] (iv as u32);
                self.emit_opcode(OP_STORE_GLOBAL);
                self.emit_u32(iv32);
                let start = self.open_loop();
                self.emit_opcode(OP_LOAD_GLOBAL);
                self.emit_u32(iv32);
                self.emit_opcode(OP_LOAD_GLOBAL);
                self.emit_u32(arr32);
                self.emit_opcode(OP_ARRAY_LEN);
                self.emit_opcode(OP_LESS);
                self.emit_opcode(OP_JUMP_IF_FALSE);
                let exit = self.emit_u32(0);
                self.emit_opcode(OP_LOAD_GLOBAL);
                self.emit_u32(arr32);
                self.emit_opcode(OP_LOAD_GLOBAL);
                self.emit_u32(iv32);
                self.emit_opcode(OP_INDEX_GET);
                let item = self.resolve_identifier(key_name);
                self.emit_store_var(item);
                match self.compile_block(body, 0) {
                    Err(err) => {
                        return Err(err);
                    },
                    Ok(()) => {},
                }
                let cont = self.code_len();
                self.emit_opcode(OP_LOAD_GLOBAL);
                self.emit_u32(iv32);
                self.emit_constant(Value::Number(1));
                self.emit_opcode(OP_ADD);
                self.emit_opcode(OP_STORE_GLOBAL);
                self.emit_u32(iv32);
                self.emit_opcode(OP_JUMP);
                self.emit_u32(#[verifier::truncate] (start as u32));
                self.close_loop(exit, cont);
                self.emit_opcode(OP_JUMP);
                let skip = self.emit_u32(0);
                let here = self.code_len();
                self.patch_u32(type_err, #[verifier::truncate] (here as u32));
                self.emit_constant(Value::String("for item in ... requires an array iterable".to_owned()));
                self.emit_opcode(OP_PRINT);
                self.emit_opcode(OP_NULL);
                let end = self.code_len();
                self.patch_u32(skip, #[verifier::truncate] (end as u32));
                Ok(())
            },
            _ => Ok(()),
        }
    }

    /// `for key, value in object { ... }` (see `cfor_object`).
    #[verifier::rlimit(100)]
    pub(crate) fn compile_for_in_object(&mut self, s: &Statement) -> (r: Result<(), String>)
        requires
            old(self)@.jumps_ok(),
        ensures
            (final(self)@, rv(r)) == cfor_object(old(self)@, s@),
            kept(old(self)@, final(self)@, r is Ok),
        decreases s, 1nat,
    {
        proof {
            reveal_with_fuel(stmt_view, 2);
        }
        match s {
            Statement::ForIn { key_name, value_name: Some(value_name), iterable, body } => {
                let id = self.for_loop_counter;
                self.for_loop_counter = if id == usize::MAX { 0 } else { id + 1 };
                let mut obj_name = "__for_obj_".to_owned();
                push_nat(&mut obj_name, id as u64);
                let mut keys_name = "__for_keys_".to_owned();
                push_nat(&mut keys_name, id as u64);
                let mut i_name = "__for_i_".to_owned();
                push_nat(&mut i_name, id as u64);
                match self.compile_expression(iterable) {
                    Err(err) => {
                        return Err(err);
                    },
                    Ok(()) => {},
                }
                let obj = self.resolve_global(&obj_name);
                let obj32 = #[verifier::truncate] (obj as u32);
                self.emit_opcode(OP_STORE_GLOBAL);
                self.emit_u32(obj32);
                self.emit_opcode(OP_LOAD_GLOBAL);
                self.emit_u32(obj32);
                self.emit_opcode(OP_IS_OBJECT);
                self.emit_opcode(OP_JUMP_IF_FALSE);
                let type_err = self.emit_u32(0);
                self.emit_opcode(OP_LOAD_GLOBAL);
                self.emit_u32(obj32);
                self.emit_opcode(OP_OBJECT_KEYS);
                let keys = self.resolve_global(&keys_name);
                let keys32 = #[verifier::truncate] (keys as u32);
                self.emit_opcode(OP_STORE_GLOBAL);
                self.emit_u32(keys32);
                self.emit_constant(Value::Number(0));
                let iv = self.resolve_global(&i_name);
                let iv32 = #[verifier::truncate] (iv as u32);
                self.emit_opcode(OP_STORE_GLOBAL);
                self.emit_u32(iv32);
                let start = self.open_loop();
                self.emit_opcode(OP_LOAD_GLOBAL);
                self.emit_u32(iv32);
                self.emit_opcode(OP_LOAD_GLOBAL);
                self.emit_u32(keys32);
                self.emit_opcode(OP_ARRAY_LEN);
                self.emit_opcode(OP_LESS);
                self.emit_opcode(OP_JUMP_IF_FALSE);
                let exit = self.emit_u32(0);
                self.emit_opcode(OP_LOAD_GLOBAL);
                self.emit_u32(keys32);
                self.emit_opcode(OP_LOAD_GLOBAL);
                self.emit_u32(iv32);
                self.emit_opcode(OP_INDEX_GET);
                let key_res = self.resolve_identifier(key_name);
                let key_copy = match key_res {
                    crate::compiler::VarResolution::Local(i) => crate::compiler::VarResolution::Local(i),
                    crate::compiler::VarResolution::Upvalue(i) => crate::compiler::VarResolution::Upvalue(i),
                    crate::compiler::VarResolution::Global(i) => crate::compiler::VarResolution::Global(i),
                };
                self.emit_store_var(key_res);
                self.emit_opcode(OP_LOAD_GLOBAL);
                self.emit_u32(obj32);
                self.emit_load_var(key_copy);
                self.emit_opcode(OP_OBJECT_GET);
                let val_res = self.resolve_identifier(value_name);
                self.emit_store_var(val_res);
                match self.compile_block(body, 0) {
                    Err(err) => {
                        return Err(err);
                    },
                    Ok(()) => {},
                }
                let cont = self.code_len();
                self.emit_opcode(OP_LOAD_GLOBAL);
                self.emit_u32(iv32);
                self.emit_constant(Value::Number(1));
                self.emit_opcode(OP_ADD);
                self.emit_opcode(OP_STORE_GLOBAL);
                self.emit_u32(iv32);
                self.emit_opcode(OP_JUMP);
                self.emit_u32(#[verifier::truncate] (start as u32));
                self.close_loop(exit, cont);
                self.emit_opcode(OP_JUMP);
                let skip = self.emit_u32(0);
                let here = self.code_len();
                self.patch_u32(type_err, #[verifier::truncate] (here as u32));
                self.emit_constant(
                    Value::String("for key, value in ... requires an object iterable".to_owned()),
                );
                self.emit_opcode(OP_PRINT);
                self.emit_opcode(OP_NULL);
                let end = self.code_len();
                self.patch_u32(skip, #[verifier::truncate] (end as u32));
                Ok(())
            },
            _ => Ok(()),
        }
    }

    /// `target = value` for a property path (see `cassign_path`).
    #[verifier::rlimit(100)]
    pub(crate) fn compile_property_assign(&mut self, s: &Statement) -> (r: Result<(), String>)
        requires
            old(self)@.jumps_ok(),
        ensures
            (final(self)@, rv(r)) == cassign_path(old(self)@, s@),
            kept(old(self)@, final(self)@, r is Ok),
        decreases s, 1nat,
    {
        proof {
            reveal_with_fuel(stmt_view, 2);
            reveal_with_fuel(expr_view, 2);
        }
        match s {
            Statement::PropertyAssign { target, value } => {
                proof {
                    assert(decreases_to!(*s => **target));
                }
                match &**target {
                    Expression::MemberAccess { object, member } => {
                        proof {
                            assert(decreases_to!(**target => **object));
                        }
                        match self.begin_path(object, true) {
                            Err(err) => {
                                return Err(err);
                            },
                            Ok(_) => {},
                        }
                        let k = self.add_constant(Value::String(member.clone()));
                        self.emit_opcode(OP_CONSTANT);
                        self.emit_u32(k);
                        match self.compile_expression(value) {
                            Err(err) => {
                                return Err(err);
                            },
                            Ok(()) => {},
                        }
                        self.emit_opcode(OP_OBJECT_SET);
                        Ok(())
                    },
                    Expression::Index { object, index } => {
                        proof {
                            assert(decreases_to!(**target => **object));
                            assert(decreases_to!(**target => **index));
                        }
                        match self.begin_path(object, true) {
                            Err(err) => {
                                return Err(err);
                            },
                            Ok(_) => {},
                        }
                        match self.compile_expression(index) {
                            Err(err) => {
                                return Err(err);
                            },
                            Ok(()) => {},
                        }
                        match self.compile_expression(value) {
                            Err(err) => {
                                return Err(err);
                            },
                            Ok(()) => {},
                        }
                        self.emit_opcode(OP_OBJECT_SET);
                        Ok(())
                    },
                    _ => Err("Invalid property assignment target".to_owned()),
                }
            },
            _ => Ok(()),
        }
    }
}

} // verus!
