//! The compiler's state and the small operations everything else is built from: emitting
//! bytes, patching jumps, constants, and name resolution.
use vstd::prelude::*;
use crate::bytecode::{Bytecode, u32_bytes, i64_bytes, first_index, CAPTURE_LOCAL, CAPTURE_UPVALUE, OP_LOAD_LOCAL, OP_LOAD_UPVALUE,
    OP_LOAD_GLOBAL, OP_STORE_LOCAL, OP_STORE_UPVALUE, OP_STORE_GLOBAL, OP_MAKE_CLOSURE,
    OP_CONSTANT};
use crate::value::{Value, ValueV, values_view};
use crate::ast::names_view;

verus! {

/// A value captured by a function: `kind` 0 a local of the enclosing function, 1 one of its
/// captured values; `index` says which.
pub struct UpvalueCapture {
    pub kind: u8,
    pub index: u32,
}

/// What the compiler knows of a function being compiled: its parameters (local `i` is
/// parameter `i`; with a repeated name the last one wins), the names it captured, and how.
pub struct CompileScope {
    pub locals: Vec<String>,
    pub upvalue_names: Vec<String>,
    pub captures: Vec<UpvalueCapture>,
}

/// A loop being compiled: where it starts, and the jumps of `continue` and `break` that wait
/// for their target.
pub struct LoopContext {
    pub start_pos: usize,
    pub continue_jumps: Vec<usize>,
    pub exit_jumps: Vec<usize>,
}

/// A module imported under `alias`, with its exported functions and their global slots.
pub struct ImportBinding {
    pub alias: String,
    pub exports: Vec<(String, usize)>,
}

pub struct Compiler {
    pub bytecode: Bytecode,
    /// Global `i` is named `globals[i]`.
    pub globals: Vec<String>,
    pub scope_stack: Vec<CompileScope>,
    pub for_loop_counter: usize,
    pub path_counter: usize,
    pub loop_stack: Vec<LoopContext>,
    pub import_bindings: Vec<ImportBinding>,
}

pub struct ScopeV {
    pub locals: Seq<Seq<char>>,
    pub upvalue_names: Seq<Seq<char>>,
    pub captures: Seq<(u8, u32)>,
}

pub struct LoopV {
    pub start: usize,
    pub continues: Seq<usize>,
    pub exits: Seq<usize>,
}

/// An export table: function names and their global slots.
pub type ExportsV = Seq<(Seq<char>, usize)>;

pub struct CompilerV {
    pub code: Seq<u8>,
    pub consts: Seq<ValueV>,
    pub num_globals: usize,
    pub globals: Seq<Seq<char>>,
    pub scopes: Seq<ScopeV>,
    pub for_counter: usize,
    pub path_counter: usize,
    pub loops: Seq<LoopV>,
    pub imports: Seq<(Seq<char>, ExportsV)>,
}

pub open spec fn scope_view(s: CompileScope) -> ScopeV {
    ScopeV {
        locals: names_view(s.locals@),
        upvalue_names: names_view(s.upvalue_names@),
        captures: s.captures@.map_values(|c: UpvalueCapture| (c.kind, c.index)),
    }
}

pub open spec fn loop_view(l: LoopContext) -> LoopV {
    LoopV { start: l.start_pos, continues: l.continue_jumps@, exits: l.exit_jumps@ }
}

pub open spec fn exports_view(es: Seq<(String, usize)>) -> ExportsV {
    es.map_values(|e: (String, usize)| (e.0@, e.1))
}

pub open spec fn import_view(b: ImportBinding) -> (Seq<char>, ExportsV) {
    (b.alias@, exports_view(b.exports@))
}

impl View for Compiler {
    type V = CompilerV;

    open spec fn view(&self) -> CompilerV {
        CompilerV {
            code: self.bytecode.code@,
            consts: values_view(self.bytecode.constants@),
            num_globals: self.bytecode.num_globals,
            globals: names_view(self.globals@),
            scopes: self.scope_stack@.map_values(|s: CompileScope| scope_view(s)),
            for_counter: self.for_loop_counter,
            path_counter: self.path_counter,
            loops: self.loop_stack@.map_values(|l: LoopContext| loop_view(l)),
            imports: self.import_bindings@.map_values(|b: ImportBinding| import_view(b)),
        }
    }
}

/// How a name resolves: a local slot, a captured value, or a global slot.
pub enum VarResolution {
    Local(usize),
    Upvalue(usize),
    Global(usize),
}

/// The first position of `x` in `s`.
pub open spec fn find_first(s: Seq<Seq<char>>, x: Seq<char>, i: int) -> Option<int>
    decreases s.len() - i,
{
    if i < 0 || i >= s.len() {
        None
    } else if s[i] == x {
        Some(i)
    } else {
        find_first(s, x, i + 1)
    }
}

/// The last position of `x` among the first `j` entries of `s`.
pub open spec fn find_last(s: Seq<Seq<char>>, x: Seq<char>, j: int) -> Option<int>
    decreases j,
{
    if j <= 0 || j > s.len() {
        None
    } else if s[j - 1] == x {
        Some(j - 1)
    } else {
        find_last(s, x, j - 1)
    }
}

/// The entry for key `k` in a table of named slots.
pub open spec fn table_get(t: ExportsV, k: Seq<char>, i: int) -> Option<usize>
    decreases t.len() - i,
{
    if i < 0 || i >= t.len() {
        None
    } else if t[i].0 == k {
        Some(t[i].1)
    } else {
        table_get(t, k, i + 1)
    }
}

/// The exports bound to an import alias.
pub open spec fn import_get(bs: Seq<(Seq<char>, ExportsV)>, alias: Seq<char>, i: int) -> Option<ExportsV>
    decreases bs.len() - i,
{
    if i < 0 || i >= bs.len() {
        None
    } else if bs[i].0 == alias {
        Some(bs[i].1)
    } else {
        import_get(bs, alias, i + 1)
    }
}

/// The jumps a loop waits to patch lie within `n` bytes of code.
pub open spec fn loop_ok(lp: LoopV, n: nat) -> bool {
    &&& forall|j: int| 0 <= j < lp.exits.len() ==> #[trigger] lp.exits[j] + 4 <= n
    &&& forall|j: int| 0 <= j < lp.continues.len() ==> #[trigger] lp.continues[j] + 4 <= n
}

/// Longer code keeps the pending jumps within it.
pub proof fn lemma_jumps_grow(a: CompilerV, b: CompilerV)
    requires
        a.jumps_ok(),
        b.loops == a.loops,
        a.code.len() <= b.code.len(),
    ensures
        b.jumps_ok(),
{
    assert forall|l: int| 0 <= l < b.loops.len() implies #[trigger] loop_ok(b.loops[l], b.code.len()) by {
        assert(loop_ok(a.loops[l], a.code.len()));
    }
}

impl CompilerV {
    pub open spec fn emit1(self, b: u8) -> CompilerV {
        CompilerV { code: self.code.push(b), ..self }
    }

    pub open spec fn emit4(self, v: u32) -> CompilerV {
        CompilerV { code: self.code + u32_bytes(v), ..self }
    }

    pub open spec fn emit8(self, v: i64) -> CompilerV {
        CompilerV { code: self.code + i64_bytes(v), ..self }
    }

    /// An instruction with one `u32` operand.
    pub open spec fn op4(self, op: u8, v: u32) -> CompilerV {
        self.emit1(op).emit4(v)
    }

    /// The four bytes at `pos` replaced by `v`.
    pub open spec fn patched(self, pos: int, v: u32) -> CompilerV {
        CompilerV { code: self.code.take(pos) + u32_bytes(v) + self.code.skip(pos + 4), ..self }
    }

    /// Patches each position in `ps` with `v`, in order.
    pub open spec fn patched_all(self, ps: Seq<usize>, v: u32) -> CompilerV
        decreases ps.len(),
    {
        if ps.len() == 0 {
            self
        } else {
            self.patched(ps[0] as int, v).patched_all(ps.drop_first(), v)
        }
    }

    pub open spec fn pos(self) -> int {
        self.code.len() as int
    }

    /// The index of a constant equal to `v`, adding it when there is none.
    pub open spec fn constant(self, v: ValueV) -> (CompilerV, u32) {
        match first_index(self.consts, v) {
            Some(i) => (self, i as u32),
            None => (CompilerV { consts: self.consts.push(v), ..self }, self.consts.len() as u32),
        }
    }

    /// `CONSTANT idx` for `v`.
    pub open spec fn emit_constant(self, v: ValueV) -> CompilerV {
        let (c, idx) = self.constant(v);
        c.op4(OP_CONSTANT, idx)
    }

    /// The global slot of `name`, adding one when there is none.
    pub open spec fn global(self, name: Seq<char>) -> (CompilerV, usize) {
        match find_first(self.globals, name, 0) {
            Some(i) => (self, i as usize),
            None => (CompilerV { globals: self.globals.push(name), ..self }, self.globals.len() as usize),
        }
    }

    pub open spec fn with_scopes(self, scopes: Seq<ScopeV>) -> CompilerV {
        CompilerV { scopes, ..self }
    }

    pub open spec fn with_loops(self, loops: Seq<LoopV>) -> CompilerV {
        CompilerV { loops, ..self }
    }

    /// Records that the current function captures `name`.
    pub open spec fn register_upvalue(self, name: Seq<char>, kind: u8, index: u32) -> CompilerV {
        let s = self.scopes.last();
        self.with_scopes(
            self.scopes.update(
                self.scopes.len() - 1,
                ScopeV {
                    upvalue_names: s.upvalue_names.push(name),
                    captures: s.captures.push((kind, index)),
                    ..s
                },
            ),
        )
    }

    /// Where an enclosing function (scopes `up` down to 0) has `name`: as a local, or
    /// as a captured value.
    pub open spec fn outer(self, name: Seq<char>, up: int) -> Option<(u8, u32)>
        decreases up + 1,
    {
        if up < 0 || up >= self.scopes.len() {
            None
        } else {
            match find_last(self.scopes[up].locals, name, self.scopes[up].locals.len() as int) {
                Some(i) => Some((CAPTURE_LOCAL, i as u32)),
                None => match find_first(self.scopes[up].upvalue_names, name, 0) {
                    Some(i) => Some((CAPTURE_UPVALUE, i as u32)),
                    None => self.outer(name, up - 1),
                },
            }
        }
    }

    /// How `name` resolves here: at top level a global; in a function its own parameter, a
    /// value it already captured, a newly captured variable of an enclosing function, or
    /// else a global.
    pub open spec fn resolve(self, name: Seq<char>) -> (CompilerV, VarResolution) {
        if self.scopes.len() == 0 {
            let (c, g) = self.global(name);
            (c, VarResolution::Global(g))
        } else {
            let cur = self.scopes.last();
            match find_last(cur.locals, name, cur.locals.len() as int) {
                Some(i) => (self, VarResolution::Local(i as usize)),
                None => match find_first(cur.upvalue_names, name, 0) {
                    Some(i) => (self, VarResolution::Upvalue(i as usize)),
                    None => match self.outer(name, self.scopes.len() - 2) {
                        Some((kind, index)) => (
                            self.register_upvalue(name, kind, index),
                            VarResolution::Upvalue(cur.upvalue_names.len() as usize),
                        ),
                        None => {
                            let (c, g) = self.global(name);
                            (c, VarResolution::Global(g))
                        },
                    },
                },
            }
        }
    }

    pub open spec fn load(self, r: VarResolution) -> CompilerV {
        match r {
            VarResolution::Local(i) => self.op4(OP_LOAD_LOCAL, i as u32),
            VarResolution::Upvalue(i) => self.op4(OP_LOAD_UPVALUE, i as u32),
            VarResolution::Global(i) => self.op4(OP_LOAD_GLOBAL, i as u32),
        }
    }

    pub open spec fn store(self, r: VarResolution) -> CompilerV {
        match r {
            VarResolution::Local(i) => self.op4(OP_STORE_LOCAL, i as u32),
            VarResolution::Upvalue(i) => self.op4(OP_STORE_UPVALUE, i as u32),
            VarResolution::Global(i) => self.op4(OP_STORE_GLOBAL, i as u32),
        }
    }

    /// The capture list of `MAKE_CLOSURE` from entry `i` on.
    pub open spec fn captures_code(self, caps: Seq<(u8, u32)>, i: int) -> CompilerV
        decreases caps.len() - i,
    {
        if i < 0 || i >= caps.len() {
            self
        } else {
            self.emit1(caps[i].0).emit4(caps[i].1).captures_code(caps, i + 1)
        }
    }

    /// `MAKE_CLOSURE offset nparams ncaptures (kind index)*`.
    pub open spec fn make_closure(self, offset: u32, nparams: u32, caps: Seq<(u8, u32)>) -> CompilerV {
        self.emit1(OP_MAKE_CLOSURE).emit4(offset).emit4(nparams).emit4(caps.len() as u32).captures_code(
            caps,
            0,
        )
    }

    /// Every pending jump position lies within the code.
    pub open spec fn jumps_ok(self) -> bool {
        forall|l: int| 0 <= l < self.loops.len() ==> #[trigger] loop_ok(self.loops[l], self.code.len())
    }
}

/// The first position of `x` in `v`.
pub(crate) fn first_position(v: &Vec<String>, x: &String) -> (r: Option<usize>)
    ensures
        match r {
            Some(i) => find_first(names_view(v@), x@, 0) == Some(i as int),
            None => find_first(names_view(v@), x@, 0) is None,
        },
{
    let mut i: usize = 0;
    while i < v.len()
        invariant
            i <= v@.len(),
            find_first(names_view(v@), x@, 0) == find_first(names_view(v@), x@, i as int),
        decreases v.len() - i,
    {
        if v[i] == *x {
            return Some(i);
        }
        i = i + 1;
    }
    None
}

/// The last position of `x` in `v`.
pub(crate) fn last_position(v: &Vec<String>, x: &String) -> (r: Option<usize>)
    ensures
        match r {
            Some(i) => find_last(names_view(v@), x@, v@.len() as int) == Some(i as int),
            None => find_last(names_view(v@), x@, v@.len() as int) is None,
        },
{
    let mut j: usize = v.len();
    while j > 0
        invariant
            j <= v@.len(),
            find_last(names_view(v@), x@, v@.len() as int) == find_last(names_view(v@), x@, j as int),
        decreases j,
    {
        if v[j - 1] == *x {
            return Some(j - 1);
        }
        j = j - 1;
    }
    None
}

/// Whether `s` reads `lit`.
pub(crate) fn is_text(s: &String, lit: &str) -> (r: bool)
    ensures
        r == (s@ == lit@),
{
    *s == lit.to_owned()
}

impl Compiler {
    pub fn new() -> (c: Compiler)
        ensures
            c@ == (CompilerV {
                code: Seq::empty(),
                consts: Seq::empty(),
                num_globals: 0,
                globals: Seq::empty(),
                scopes: Seq::empty(),
                for_counter: 0,
                path_counter: 0,
                loops: Seq::empty(),
                imports: Seq::empty(),
            }),
            c@.jumps_ok(),
    {
        let c = Compiler {
            bytecode: Bytecode::new(),
            globals: Vec::new(),
            scope_stack: Vec::new(),
            for_loop_counter: 0,
            path_counter: 0,
            loop_stack: Vec::new(),
            import_bindings: Vec::new(),
        };
        assert(c@.consts =~= Seq::<ValueV>::empty());
        assert(c@.globals =~= Seq::<Seq<char>>::empty());
        assert(c@.scopes =~= Seq::<ScopeV>::empty());
        assert(c@.loops =~= Seq::<LoopV>::empty());
        assert(c@.imports =~= Seq::<(Seq<char>, ExportsV)>::empty());
        c
    }

    pub(crate) fn emit_opcode(&mut self, op: u8) -> (pos: usize)
        ensures
            final(self)@ == old(self)@.emit1(op),
            pos == old(self)@.code.len(),
            old(self)@.jumps_ok() ==> final(self)@.jumps_ok(),
    {
        let p = self.bytecode.emit_byte(op);
        proof {
            if old(self)@.jumps_ok() {
                lemma_jumps_grow(old(self)@, self@);
            }
        }
        p
    }

    pub(crate) fn emit_u32(&mut self, v: u32) -> (pos: usize)
        ensures
            final(self)@ == old(self)@.emit4(v),
            pos == old(self)@.code.len(),
            old(self)@.jumps_ok() ==> final(self)@.jumps_ok(),
    {
        let p = self.bytecode.emit_u32(v);
        proof {
            if old(self)@.jumps_ok() {
                lemma_jumps_grow(old(self)@, self@);
            }
        }
        p
    }

    pub(crate) fn emit_i64(&mut self, v: i64) -> (pos: usize)
        ensures
            final(self)@ == old(self)@.emit8(v),
            pos == old(self)@.code.len(),
            old(self)@.jumps_ok() ==> final(self)@.jumps_ok(),
    {
        let p = self.bytecode.emit_i64(v);
        proof {
            if old(self)@.jumps_ok() {
                lemma_jumps_grow(old(self)@, self@);
            }
        }
        p
    }

    pub(crate) fn patch_u32(&mut self, pos: usize, v: u32)
        requires
            pos + 4 <= old(self)@.code.len(),
        ensures
            final(self)@ == old(self)@.patched(pos as int, v),
            final(self)@.code.len() == old(self)@.code.len(),
            old(self)@.jumps_ok() ==> final(self)@.jumps_ok(),
    {
        self.bytecode.patch_u32(pos, v);
        assert(self@.code =~= old(self)@.patched(pos as int, v).code);
        proof {
            if old(self)@.jumps_ok() {
                lemma_jumps_grow(old(self)@, self@);
            }
        }
    }

    pub(crate) fn code_len(&self) -> (n: usize)
        ensures
            n == self@.code.len(),
    {
        self.bytecode.code.len()
    }

    pub(crate) fn add_constant(&mut self, v: Value) -> (idx: u32)
        ensures
            (final(self)@, idx) == old(self)@.constant(v@),
            old(self)@.jumps_ok() ==> final(self)@.jumps_ok(),
    {
        proof {
            crate::value::lemma_values_view_index(self.bytecode.constants@);
        }
        let idx = self.bytecode.add_constant(v);
        assert(self@.consts =~= old(self)@.constant(v@).0.consts);
        proof {
            if old(self)@.jumps_ok() {
                lemma_jumps_grow(old(self)@, self@);
            }
        }
        idx
    }

    pub(crate) fn emit_constant(&mut self, v: Value)
        ensures
            final(self)@ == old(self)@.emit_constant(v@),
            old(self)@.jumps_ok() ==> final(self)@.jumps_ok(),
            old(self)@.code.len() <= final(self)@.code.len(),
    {
        let idx = self.add_constant(v);
        self.emit_opcode(OP_CONSTANT);
        self.emit_u32(idx);
    }

    pub(crate) fn resolve_global(&mut self, name: &String) -> (g: usize)
        ensures
            (final(self)@, g) == old(self)@.global(name@),
            old(self)@.jumps_ok() ==> final(self)@.jumps_ok(),
    {
        let g = match first_position(&self.globals, name) {
            Some(i) => i,
            None => {
                let g = self.globals.len();
                self.globals.push(name.clone());
                assert(self@.globals =~= old(self)@.globals.push(name@));
                g
            },
        };
        proof {
            if old(self)@.jumps_ok() {
                lemma_jumps_grow(old(self)@, self@);
            }
        }
        g
    }

    pub(crate) fn register_upvalue(&mut self, name: &String, kind: u8, index: u32)
        requires
            old(self)@.scopes.len() > 0,
        ensures
            final(self)@ == old(self)@.register_upvalue(name@, kind, index),
            old(self)@.jumps_ok() ==> final(self)@.jumps_ok(),
    {
        let n = self.scope_stack.len();
        let mut scope = self.scope_stack.pop().unwrap();
        let ghost sv = scope_view(scope);
        scope.upvalue_names.push(name.clone());
        scope.captures.push(UpvalueCapture { kind, index });
        assert(scope_view(scope).upvalue_names =~= sv.upvalue_names.push(name@));
        assert(scope_view(scope).captures =~= sv.captures.push((kind, index)));
        self.scope_stack.push(scope);
        assert(self@.scopes =~= old(self)@.register_upvalue(name@, kind, index).scopes);
        proof {
            if old(self)@.jumps_ok() {
                lemma_jumps_grow(old(self)@, self@);
            }
        }
    }

    pub(crate) fn resolve_identifier(&mut self, name: &String) -> (r: VarResolution)
        ensures
            (final(self)@, r) == old(self)@.resolve(name@),
            old(self)@.jumps_ok() ==> final(self)@.jumps_ok(),
    {
        let n = self.scope_stack.len();
        if n == 0 {
            let g = self.resolve_global(name);
            return VarResolution::Global(g);
        }
        let cur = n - 1;
        assert(self@.scopes[cur as int] == scope_view(self.scope_stack@[cur as int]));
        match last_position(&self.scope_stack[cur].locals, name) {
            Some(i) => {
                return VarResolution::Local(i);
            },
            None => {},
        }
        match first_position(&self.scope_stack[cur].upvalue_names, name) {
            Some(i) => {
                return VarResolution::Upvalue(i);
            },
            None => {},
        }
        let ghost c0 = self@;
        let mut up: usize = cur;
        while up > 0
            invariant
                up <= cur,
                cur == n - 1,
                n == self.scope_stack@.len(),
                self@ == c0,
                c0 == old(self)@,
                c0.outer(name@, cur - 1) == c0.outer(name@, up - 1),
                c0.scopes.len() == n,
                find_last(c0.scopes[cur as int].locals, name@, c0.scopes[cur as int].locals.len() as int) is None,
                find_first(c0.scopes[cur as int].upvalue_names, name@, 0) is None,
                c0.scopes[cur as int] == scope_view(self.scope_stack@[cur as int]),
            decreases up,
        {
            up = up - 1;
            assert(self@.scopes[up as int] == scope_view(self.scope_stack@[up as int]));
            match last_position(&self.scope_stack[up].locals, name) {
                Some(i) => {
                    let k = self.scope_stack[cur].upvalue_names.len();
                    self.register_upvalue(name, CAPTURE_LOCAL, #[verifier::truncate] (i as u32));
                    return VarResolution::Upvalue(k);
                },
                None => {},
            }
            match first_position(&self.scope_stack[up].upvalue_names, name) {
                Some(i) => {
                    let k = self.scope_stack[cur].upvalue_names.len();
                    self.register_upvalue(name, CAPTURE_UPVALUE, #[verifier::truncate] (i as u32));
                    return VarResolution::Upvalue(k);
                },
                None => {},
            }
        }
        let g = self.resolve_global(name);
        VarResolution::Global(g)
    }

    pub(crate) fn emit_load_var(&mut self, r: VarResolution)
        ensures
            final(self)@ == old(self)@.load(r),
            old(self)@.jumps_ok() ==> final(self)@.jumps_ok(),
            old(self)@.code.len() <= final(self)@.code.len(),
    {
        match r {
            VarResolution::Local(i) => {
                self.emit_opcode(OP_LOAD_LOCAL);
                self.emit_u32(#[verifier::truncate] (i as u32));
            },
            VarResolution::Upvalue(i) => {
                self.emit_opcode(OP_LOAD_UPVALUE);
                self.emit_u32(#[verifier::truncate] (i as u32));
            },
            VarResolution::Global(i) => {
                self.emit_opcode(OP_LOAD_GLOBAL);
                self.emit_u32(#[verifier::truncate] (i as u32));
            },
        }
    }

    pub(crate) fn emit_store_var(&mut self, r: VarResolution)
        ensures
            final(self)@ == old(self)@.store(r),
            old(self)@.jumps_ok() ==> final(self)@.jumps_ok(),
            old(self)@.code.len() <= final(self)@.code.len(),
    {
        match r {
            VarResolution::Local(i) => {
                self.emit_opcode(OP_STORE_LOCAL);
                self.emit_u32(#[verifier::truncate] (i as u32));
            },
            VarResolution::Upvalue(i) => {
                self.emit_opcode(OP_STORE_UPVALUE);
                self.emit_u32(#[verifier::truncate] (i as u32));
            },
            VarResolution::Global(i) => {
                self.emit_opcode(OP_STORE_GLOBAL);
                self.emit_u32(#[verifier::truncate] (i as u32));
            },
        }
    }

    pub(crate) fn emit_make_closure(&mut self, offset: u32, nparams: u32, caps: &Vec<UpvalueCapture>)
        ensures
            final(self)@ == old(self)@.make_closure(
                offset,
                nparams,
                caps@.map_values(|c: UpvalueCapture| (c.kind, c.index)),
            ),
            old(self)@.jumps_ok() ==> final(self)@.jumps_ok(),
            old(self)@.code.len() <= final(self)@.code.len(),
            final(self)@.scopes == old(self)@.scopes,
            final(self)@.loops == old(self)@.loops,
    {
        let ghost cv = caps@.map_values(|c: UpvalueCapture| (c.kind, c.index));
        self.emit_opcode(OP_MAKE_CLOSURE);
        self.emit_u32(offset);
        self.emit_u32(nparams);
        self.emit_u32(#[verifier::truncate] (caps.len() as u32));
        let ghost base = self@;
        let mut i: usize = 0;
        while i < caps.len()
            invariant
                i <= caps@.len(),
                cv == caps@.map_values(|c: UpvalueCapture| (c.kind, c.index)),
                base.captures_code(cv, 0) == self@.captures_code(cv, i as int),
                old(self)@.jumps_ok() ==> self@.jumps_ok(),
                old(self)@.code.len() <= self@.code.len(),
                self@.scopes == old(self)@.scopes,
                self@.loops == old(self)@.loops,
            decreases caps.len() - i,
        {
            self.emit_opcode(caps[i].kind);
            self.emit_u32(caps[i].index);
            i = i + 1;
        }
    }
}

} // verus!
