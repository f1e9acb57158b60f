//! Compiling expressions (see `compile_spec::cexpr` for what each one emits).
use vstd::prelude::*;
use crate::ast::{Expression, Statement, Literal, BinaryOperator, InputType, ExprV, LitV,
    expr_view, exprs_view, fields_view, names_view, stmts_view, lemma_exprs_view_index,
    lemma_fields_view_index};
use crate::value::{Value, ValueV};
use crate::bytecode::{OP_ADD, OP_SUBTRACT, OP_MULTIPLY, OP_DIVIDE, OP_EQUALS, OP_NOT_EQUALS,
    OP_GREATER, OP_LESS, OP_GREATER_EQUAL, OP_LESS_EQUAL, OP_AND, OP_OR, OP_NOT, OP_NULL,
    OP_CALL_FUNCTION, OP_INPUT, OP_BUILD_ARRAY, OP_INDEX_GET, OP_ARRAY_PUSH, OP_ARRAY_POP,
    OP_BUILD_OBJECT, OP_OBJECT_GET_CONST, OP_OBJECT_GET, OP_OBJECT_DELETE,
    OP_OBJECT_GET_OR_CREATE_CONST, OP_OBJECT_GET_OR_CREATE, OP_MEMBER_LENGTH, OP_LOAD_GLOBAL,
    OP_STORE_GLOBAL, OP_CONSTANT};
use crate::show::push_nat;
use crate::compiler::{Compiler, CompilerV, UpvalueCapture, ImportBinding, is_text, import_get,
    table_get, exports_view, import_view};
use crate::compile_spec::{cexpr, clit, cinput, cunary, cbinary, ccall, cindex, cmember,
    ccall_value, cfunction_expr, cexprs, cfield_values, field_keys, binop_code, input_bit,
    input_mask, lit_value, cwalk, begin_path, cdelete_path, cfunction, next_count, path_object};

verus! {

/// The error of a compilation step, if any.
pub open spec fn rv(r: Result<(), String>) -> Option<Seq<char>> {
    match r {
        Ok(_) => None,
        Err(e) => Some(e@),
    }
}

/// What every compilation step keeps: pending jumps stay within the code, the code only
/// grows, and a step that succeeds leaves as many functions and loops open as it found.
pub open spec fn kept(a: CompilerV, b: CompilerV, ok: bool) -> bool {
    &&& b.jumps_ok()
    &&& a.code.len() <= b.code.len()
    &&& ok ==> b.scopes.len() == a.scopes.len() && b.loops.len() == a.loops.len()
}

pub fn binop_opcode(op: BinaryOperator) -> (r: u8)
    ensures
        r == binop_code(op),
{
    match op {
        BinaryOperator::Add => OP_ADD,
        BinaryOperator::Subtract => OP_SUBTRACT,
        BinaryOperator::Multiply => OP_MULTIPLY,
        BinaryOperator::Divide => OP_DIVIDE,
        BinaryOperator::Equals => OP_EQUALS,
        BinaryOperator::NotEquals => OP_NOT_EQUALS,
        BinaryOperator::GreaterThan => OP_GREATER,
        BinaryOperator::LessThan => OP_LESS,
        BinaryOperator::GreaterOrEqual => OP_GREATER_EQUAL,
        BinaryOperator::LessOrEqual => OP_LESS_EQUAL,
        BinaryOperator::And => OP_AND,
        BinaryOperator::Or => OP_OR,
    }
}

fn input_type_bit(t: InputType) -> (r: u8)
    ensures
        r == input_bit(t),
{
    match t {
        InputType::String => 1,
        InputType::Int => 2,
        InputType::Float => 4,
    }
}

fn find_import(bs: &Vec<ImportBinding>, alias: &String) -> (r: Option<usize>)
    ensures
        match r {
            Some(i) => i < bs@.len() && import_get(bs@.map_values(|b: ImportBinding| import_view(b)), alias@, 0)
                == Some(import_view(bs@[i as int]).1),
            None => import_get(bs@.map_values(|b: ImportBinding| import_view(b)), alias@, 0) is None,
        },
{
    let ghost v = bs@.map_values(|b: ImportBinding| import_view(b));
    let mut i: usize = 0;
    while i < bs.len()
        invariant
            i <= bs@.len(),
            v == bs@.map_values(|b: ImportBinding| import_view(b)),
            import_get(v, alias@, 0) == import_get(v, alias@, i as int),
        decreases bs.len() - i,
    {
        if bs[i].alias == *alias {
            return Some(i);
        }
        i = i + 1;
    }
    None
}

pub(crate) fn export_slot(es: &Vec<(String, usize)>, name: &String) -> (r: Option<usize>)
    ensures
        r == table_get(exports_view(es@), name@, 0),
{
    let ghost v = exports_view(es@);
    let mut i: usize = 0;
    while i < es.len()
        invariant
            i <= es@.len(),
            v == exports_view(es@),
            table_get(v, name@, 0) == table_get(v, name@, i as int),
        decreases es.len() - i,
    {
        if es[i].0 == *name {
            return Some(es[i].1);
        }
        i = i + 1;
    }
    None
}

impl Compiler {
    pub fn compile_expression(&mut self, e: &Expression) -> (r: Result<(), String>)
        requires
            old(self)@.jumps_ok(),
        ensures
            (final(self)@, rv(r)) == cexpr(old(self)@, e@),
            kept(old(self)@, final(self)@, r is Ok),
        decreases e, 1nat,
    {
        match e {
            Expression::Literal(_) => self.compile_literal(e),
            Expression::Identifier(name) => {
                let r = self.resolve_identifier(name);
                self.emit_load_var(r);
                Ok(())
            },
            Expression::Input { .. } => self.compile_input(e),
            Expression::UnaryOp { .. } => self.compile_unary(e),
            Expression::BinaryOp { .. } => self.compile_binary(e),
            Expression::FunctionCall { .. } => self.compile_call(e),
            Expression::Index { .. } => self.compile_index(e),
            Expression::MemberAccess { .. } => self.compile_member(e),
            Expression::Call { .. } => self.compile_call_value(e),
            Expression::FunctionExpr { .. } => self.compile_function_expr(e),
        }
    }

    fn compile_input(&mut self, e: &Expression) -> (r: Result<(), String>)
        requires
            old(self)@.jumps_ok(),
        ensures
            (final(self)@, rv(r)) == cinput(old(self)@, e@),
            kept(old(self)@, final(self)@, r is Ok),
        decreases e, 0nat,
    {
        match e {
            Expression::Input { types, prompt } => {
                match self.compile_expression(prompt) {
                    Err(err) => {
                        return Err(err);
                    },
                    Ok(()) => {},
                }
                let mut mask: u8 = 0;
                let mut i: usize = 0;
                while i < types.len()
                    invariant
                        i <= types@.len(),
                        mask == input_mask(types@, i as int),
                    decreases types.len() - i,
                {
                    mask = mask | input_type_bit(types[i]);
                    i = i + 1;
                }
                self.emit_opcode(OP_INPUT);
                self.emit_opcode(mask);
                Ok(())
            },
            _ => Ok(()),
        }
    }

    fn compile_unary(&mut self, e: &Expression) -> (r: Result<(), String>)
        requires
            old(self)@.jumps_ok(),
        ensures
            (final(self)@, rv(r)) == cunary(old(self)@, e@),
            kept(old(self)@, final(self)@, r is Ok),
        decreases e, 0nat,
    {
        match e {
            Expression::UnaryOp { expr, .. } => {
                match self.compile_expression(expr) {
                    Err(err) => {
                        return Err(err);
                    },
                    Ok(()) => {},
                }
                self.emit_opcode(OP_NOT);
                Ok(())
            },
            _ => Ok(()),
        }
    }

    fn compile_binary(&mut self, e: &Expression) -> (r: Result<(), String>)
        requires
            old(self)@.jumps_ok(),
        ensures
            (final(self)@, rv(r)) == cbinary(old(self)@, e@),
            kept(old(self)@, final(self)@, r is Ok),
        decreases e, 0nat,
    {
        match e {
            Expression::BinaryOp { left, op, right } => {
                match self.compile_expression(left) {
                    Err(err) => {
                        return Err(err);
                    },
                    Ok(()) => {},
                }
                match self.compile_expression(right) {
                    Err(err) => {
                        return Err(err);
                    },
                    Ok(()) => {},
                }
                self.emit_opcode(binop_opcode(*op));
                Ok(())
            },
            _ => Ok(()),
        }
    }

    fn compile_index(&mut self, e: &Expression) -> (r: Result<(), String>)
        requires
            old(self)@.jumps_ok(),
        ensures
            (final(self)@, rv(r)) == cindex(old(self)@, e@),
            kept(old(self)@, final(self)@, r is Ok),
        decreases e, 0nat,
    {
        match e {
            Expression::Index { object, index } => {
                match self.compile_expression(object) {
                    Err(err) => {
                        return Err(err);
                    },
                    Ok(()) => {},
                }
                match self.compile_expression(index) {
                    Err(err) => {
                        return Err(err);
                    },
                    Ok(()) => {},
                }
                self.emit_opcode(OP_INDEX_GET);
                Ok(())
            },
            _ => Ok(()),
        }
    }

    fn compile_call_value(&mut self, e: &Expression) -> (r: Result<(), String>)
        requires
            old(self)@.jumps_ok(),
        ensures
            (final(self)@, rv(r)) == ccall_value(old(self)@, e@),
            kept(old(self)@, final(self)@, r is Ok),
        decreases e, 0nat,
    {
        match e {
            Expression::Call { callee, args } => {
                proof {
                    lemma_exprs_view_index(args@);
                }
                match self.compile_exprs(args, 0) {
                    Err(err) => {
                        return Err(err);
                    },
                    Ok(()) => {},
                }
                match self.compile_expression(callee) {
                    Err(err) => {
                        return Err(err);
                    },
                    Ok(()) => {},
                }
                self.emit_opcode(OP_CALL_FUNCTION);
                self.emit_u32(#[verifier::truncate] (args.len() as u32));
                Ok(())
            },
            _ => Ok(()),
        }
    }

    fn compile_function_expr(&mut self, e: &Expression) -> (r: Result<(), String>)
        requires
            old(self)@.jumps_ok(),
        ensures
            (final(self)@, rv(r)) == cfunction_expr(old(self)@, e@),
            kept(old(self)@, final(self)@, r is Ok),
        decreases e, 0nat,
    {
        match e {
            Expression::FunctionExpr { params, body } => {
                match self.compile_function(params, body) {
                    Err(err) => Err(err),
                    Ok((offset, nparams, caps)) => {
                        self.emit_make_closure(offset, nparams, &caps);
                        Ok(())
                    },
                }
            },
            _ => Ok(()),
        }
    }

    /// Compiles `es` from position `i` on.
    pub(crate) fn compile_exprs(&mut self, es: &Vec<Expression>, i: usize) -> (r: Result<(), String>)
        requires
            old(self)@.jumps_ok(),
        ensures
            (final(self)@, rv(r)) == cexprs(old(self)@, exprs_view(es@), i as int),
            kept(old(self)@, final(self)@, r is Ok),
        decreases es, es@.len() - i,
    {
        proof {
            lemma_exprs_view_index(es@);
        }
        if i >= es.len() {
            return Ok(());
        }
        proof {
            assert(decreases_to!(*es => es@[i as int]));
        }
        match self.compile_expression(&es[i]) {
            Err(err) => Err(err),
            Ok(()) => self.compile_exprs(es, i + 1),
        }
    }

    fn compile_field_values(&mut self, fs: &Vec<(String, Expression)>, i: usize) -> (r: Result<(), String>)
        requires
            old(self)@.jumps_ok(),
        ensures
            (final(self)@, rv(r)) == cfield_values(old(self)@, fields_view(fs@), i as int),
            kept(old(self)@, final(self)@, r is Ok),
        decreases fs, fs@.len() - i,
    {
        proof {
            lemma_fields_view_index(fs@);
        }
        if i >= fs.len() {
            return Ok(());
        }
        proof {
            assert(decreases_to!(*fs => fs@[i as int]));
            assert(decreases_to!(fs@[i as int] => fs@[i as int].1));
        }
        match self.compile_expression(&fs[i].1) {
            Err(err) => Err(err),
            Ok(()) => self.compile_field_values(fs, i + 1),
        }
    }

    fn emit_field_keys(&mut self, fs: &Vec<(String, Expression)>)
        requires
            old(self)@.jumps_ok(),
        ensures
            final(self)@ == field_keys(old(self)@, fields_view(fs@), 0),
            kept(old(self)@, final(self)@, true),
    {
        proof {
            lemma_fields_view_index(fs@);
        }
        let ghost fv = fields_view(fs@);
        let mut i: usize = 0;
        while i < fs.len()
            invariant
                i <= fs@.len(),
                fv == fields_view(fs@),
                fv.len() == fs@.len(),
                forall|j: int| 0 <= j < fs@.len() ==> #[trigger] fv[j] == (fs@[j].0@, expr_view(fs@[j].1)),
                field_keys(old(self)@, fv, 0) == field_keys(self@, fv, i as int),
                kept(old(self)@, self@, true),
                self@.loops == old(self)@.loops,
            decreases fs.len() - i,
        {
            let k = self.add_constant(Value::String(fs[i].0.clone()));
            self.emit_u32(k);
            i = i + 1;
        }
    }

    fn compile_literal(&mut self, e: &Expression) -> (r: Result<(), String>)
        requires
            old(self)@.jumps_ok(),
        ensures
            (final(self)@, rv(r)) == clit(old(self)@, e@),
            kept(old(self)@, final(self)@, r is Ok),
        decreases e, 0nat,
    {
        proof {
            reveal_with_fuel(expr_view, 2);
        }
        match e {
            Expression::Literal(lit) => match lit {
                Literal::Array { elements, mutable } => {
                    match self.compile_exprs(elements, 0) {
                        Err(err) => {
                            return Err(err);
                        },
                        Ok(()) => {},
                    }
                    proof {
                        lemma_exprs_view_index(elements@);
                    }
                    self.emit_opcode(OP_BUILD_ARRAY);
                    self.emit_u32(#[verifier::truncate] (elements.len() as u32));
                    self.emit_opcode(if *mutable { 1u8 } else { 0u8 });
                    Ok(())
                },
                Literal::Object { fields } => {
                    match self.compile_field_values(fields, 0) {
                        Err(err) => {
                            return Err(err);
                        },
                        Ok(()) => {},
                    }
                    proof {
                        lemma_fields_view_index(fields@);
                    }
                    self.emit_opcode(OP_BUILD_OBJECT);
                    self.emit_u32(#[verifier::truncate] (fields.len() as u32));
                    self.emit_field_keys(fields);
                    Ok(())
                },
                Literal::Number(n) => {
                    self.emit_constant(Value::Number(*n));
                    Ok(())
                },
                Literal::String(s) => {
                    self.emit_constant(Value::String(s.clone()));
                    Ok(())
                },
                Literal::Boolean(b) => {
                    self.emit_constant(Value::Boolean(*b));
                    Ok(())
                },
                Literal::Null => {
                    self.emit_constant(Value::Null);
                    Ok(())
                },
            },
            _ => Ok(()),
        }
    }

    fn compile_call(&mut self, e: &Expression) -> (r: Result<(), String>)
        requires
            old(self)@.jumps_ok(),
        ensures
            (final(self)@, rv(r)) == ccall(old(self)@, e@),
            kept(old(self)@, final(self)@, r is Ok),
        decreases e, 0nat,
    {
        match e {
            Expression::FunctionCall { name, args } => {
                proof {
                    lemma_exprs_view_index(args@);
                }
                if is_text(name, "push") {
                    if args.len() != 2 {
                        return Err("push() expects 2 arguments".to_owned());
                    }
                    proof {
                        assert(decreases_to!(*args => args@[0]));
                        assert(decreases_to!(*args => args@[1]));
                    }
                    match self.compile_expression(&args[0]) {
                        Err(err) => {
                            return Err(err);
                        },
                        Ok(()) => {},
                    }
                    match self.compile_expression(&args[1]) {
                        Err(err) => {
                            return Err(err);
                        },
                        Ok(()) => {},
                    }
                    self.emit_opcode(OP_ARRAY_PUSH);
                    self.emit_opcode(OP_NULL);
                    Ok(())
                } else if is_text(name, "pop") {
                    if args.len() != 1 {
                        return Err("pop() expects 1 argument".to_owned());
                    }
                    proof {
                        assert(decreases_to!(*args => args@[0]));
                    }
                    match self.compile_expression(&args[0]) {
                        Err(err) => {
                            return Err(err);
                        },
                        Ok(()) => {},
                    }
                    self.emit_opcode(OP_ARRAY_POP);
                    Ok(())
                } else if is_text(name, "rmv") {
                    if args.len() != 1 {
                        return Err("rmv() expects 1 argument".to_owned());
                    }
                    proof {
                        assert(decreases_to!(*args => args@[0]));
                    }
                    match self.compile_delete_path(&args[0]) {
                        Err(err) => {
                            return Err(err);
                        },
                        Ok(()) => {},
                    }
                    self.emit_opcode(OP_NULL);
                    Ok(())
                } else {
                    match self.compile_exprs(args, 0) {
                        Err(err) => {
                            return Err(err);
                        },
                        Ok(()) => {},
                    }
                    let r = self.resolve_identifier(name);
                    self.emit_load_var(r);
                    self.emit_opcode(OP_CALL_FUNCTION);
                    self.emit_u32(#[verifier::truncate] (args.len() as u32));
                    Ok(())
                }
            },
            _ => Ok(()),
        }
    }

    fn compile_member(&mut self, e: &Expression) -> (r: Result<(), String>)
        requires
            old(self)@.jumps_ok(),
        ensures
            (final(self)@, rv(r)) == cmember(old(self)@, e@),
            kept(old(self)@, final(self)@, r is Ok),
        decreases e, 0nat,
    {
        proof {
            reveal_with_fuel(expr_view, 2);
        }
        match e {
            Expression::MemberAccess { object, member } => {
                match &**object {
                    Expression::Identifier(alias) => {
                        match find_import(&self.import_bindings, alias) {
                            Some(bi) => {
                                match export_slot(&self.import_bindings[bi].exports, member) {
                                    Some(g) => {
                                        self.emit_opcode(OP_LOAD_GLOBAL);
                                        self.emit_u32(#[verifier::truncate] (g as u32));
                                        return Ok(());
                                    },
                                    None => {
                                        let mut msg = "Module '".to_owned();
                                        msg.append(alias.as_str());
                                        msg.append("' has no exported function '");
                                        msg.append(member.as_str());
                                        msg.append("'");
                                        return Err(msg);
                                    },
                                }
                            },
                            None => {},
                        }
                    },
                    _ => {},
                }
                match self.compile_expression(object) {
                    Err(err) => {
                        return Err(err);
                    },
                    Ok(()) => {},
                }
                if is_text(member, "length") {
                    self.emit_opcode(OP_MEMBER_LENGTH);
                } else {
                    let k = self.add_constant(Value::String(member.clone()));
                    self.emit_opcode(OP_OBJECT_GET_CONST);
                    self.emit_u32(k);
                }
                Ok(())
            },
            _ => Ok(()),
        }
    }

    /// Walks a property path (see `cwalk`).
    fn compile_walk(&mut self, e: &Expression, cur_name: &String, create: bool) -> (r: Result<usize, String>)
        requires
            old(self)@.jumps_ok(),
        ensures
            match (r, cwalk(old(self)@, e@, cur_name@, create)) {
                (Ok(x), (c, Ok(y))) => final(self)@ == c && x == y,
                (Err(m), (c, Err(sm))) => final(self)@ == c && m@ == sm,
                _ => false,
            },
            kept(old(self)@, final(self)@, r is Ok),
        decreases e, 2nat,
    {
        proof {
            reveal_with_fuel(expr_view, 2);
        }
        match e {
            Expression::MemberAccess { object, member } => {
                let cur = match self.compile_walk(object, cur_name, create) {
                    Err(err) => {
                        return Err(err);
                    },
                    Ok(cur) => cur,
                };
                self.emit_opcode(OP_LOAD_GLOBAL);
                self.emit_u32(#[verifier::truncate] (cur as u32));
                let k = self.add_constant(Value::String(member.clone()));
                self.emit_opcode(
                    if create {
                        OP_OBJECT_GET_OR_CREATE_CONST
                    } else {
                        OP_OBJECT_GET_CONST
                    },
                );
                self.emit_u32(k);
                self.emit_opcode(OP_STORE_GLOBAL);
                self.emit_u32(#[verifier::truncate] (cur as u32));
                Ok(cur)
            },
            Expression::Index { object, index } => {
                let cur = match self.compile_walk(object, cur_name, create) {
                    Err(err) => {
                        return Err(err);
                    },
                    Ok(cur) => cur,
                };
                self.emit_opcode(OP_LOAD_GLOBAL);
                self.emit_u32(#[verifier::truncate] (cur as u32));
                match self.compile_expression(index) {
                    Err(err) => {
                        return Err(err);
                    },
                    Ok(()) => {},
                }
                self.emit_opcode(if create { OP_OBJECT_GET_OR_CREATE } else { OP_OBJECT_GET });
                self.emit_opcode(OP_STORE_GLOBAL);
                self.emit_u32(#[verifier::truncate] (cur as u32));
                Ok(cur)
            },
            _ => {
                match self.compile_expression(e) {
                    Err(err) => {
                        return Err(err);
                    },
                    Ok(()) => {},
                }
                let cur = self.resolve_global(cur_name);
                self.emit_opcode(OP_STORE_GLOBAL);
                self.emit_u32(#[verifier::truncate] (cur as u32));
                Ok(cur)
            },
        }
    }

    /// Starts a property path (see `begin_path`).
    pub(crate) fn begin_path(&mut self, object: &Expression, create: bool) -> (r: Result<usize, String>)
        requires
            old(self)@.jumps_ok(),
        ensures
            match (r, begin_path(old(self)@, object@, create)) {
                (Ok(x), (c, Ok(y))) => final(self)@ == c && x == y,
                (Err(m), (c, Err(sm))) => final(self)@ == c && m@ == sm,
                _ => false,
            },
            kept(old(self)@, final(self)@, r is Ok),
        decreases object, 3nat,
    {
        let id = self.path_counter;
        self.path_counter = if id == usize::MAX { 0 } else { id + 1 };
        let mut cur_name = "__path_cur_".to_owned();
        push_nat(&mut cur_name, id as u64);
        match self.compile_walk(object, &cur_name, create) {
            Err(err) => Err(err),
            Ok(cur) => {
                self.emit_opcode(OP_LOAD_GLOBAL);
                self.emit_u32(#[verifier::truncate] (cur as u32));
                Ok(cur)
            },
        }
    }

    /// `rmv(target)` (see `cdelete_path`).
    fn compile_delete_path(&mut self, target: &Expression) -> (r: Result<(), String>)
        requires
            old(self)@.jumps_ok(),
        ensures
            (final(self)@, rv(r)) == cdelete_path(old(self)@, target@),
            kept(old(self)@, final(self)@, r is Ok),
        decreases target, 0nat,
    {
        proof {
            reveal_with_fuel(expr_view, 2);
        }
        match target {
            Expression::MemberAccess { object, member } => {
                match self.begin_path(object, false) {
                    Err(err) => {
                        return Err(err);
                    },
                    Ok(_) => {},
                }
                let k = self.add_constant(Value::String(member.clone()));
                self.emit_opcode(OP_CONSTANT);
                self.emit_u32(k);
                self.emit_opcode(OP_OBJECT_DELETE);
                Ok(())
            },
            Expression::Index { object, index } => {
                match self.begin_path(object, false) {
                    Err(err) => {
                        return Err(err);
                    },
                    Ok(_) => {},
                }
                match self.compile_expression(index) {
                    Err(err) => {
                        return Err(err);
                    },
                    Ok(()) => {},
                }
                self.emit_opcode(OP_OBJECT_DELETE);
                Ok(())
            },
            _ => Err("rmv() requires a property access target".to_owned()),
        }
    }
}

} // verus!
