//! The interactive session: what it keeps between inputs, the meta commands, and when an
//! input line is complete.
use vstd::prelude::*;
use crate::ast::{Statement, StmtV, stmts_view};
use crate::lexer::{Lexer, tokenize_spec};
use crate::parser::{Parser, parse_spec};
use crate::compiler::{Compiler, CompilerV};
use crate::compile_api::cprogram;
use crate::vm::{VM, VmV, Event, EventV};
use crate::machine::run_spec;
use crate::value::{Value, values_view};
use crate::input::{trimmed, trim_text};
use crate::text::chars_of;

verus! {

/// The scan state of `open_delimiter_depth` after `n` characters: the depth, whether a
/// string is open, and whether the next character is escaped.
pub open spec fn delimiter_scan(s: Seq<char>, n: int) -> (int, bool, bool)
    decreases n,
{
    if n <= 0 || n > s.len() {
        (0, false, false)
    } else {
        let (depth, in_string, escape) = delimiter_scan(s, n - 1);
        let ch = s[n - 1];
        if in_string {
            if escape {
                (depth, true, false)
            } else if ch == '\\' {
                (depth, true, true)
            } else if ch == '"' {
                (depth, false, false)
            } else {
                (depth, true, false)
            }
        } else if ch == '"' {
            (depth, true, false)
        } else if ch == '{' || ch == '(' || ch == '[' {
            (depth + 1, false, false)
        } else if ch == '}' || ch == ')' || ch == ']' {
            (depth - 1, false, false)
        } else {
            (depth, false, false)
        }
    }
}

/// Opening minus closing brackets of all kinds outside double-quoted strings.
pub open spec fn delimiter_depth(s: Seq<char>) -> int {
    delimiter_scan(s, s.len() as int).0
}

proof fn lemma_scan_bound(s: Seq<char>, n: int)
    requires
        0 <= n <= s.len(),
    ensures
        -n <= delimiter_scan(s, n).0 <= n,
    decreases n,
{
    if n > 0 {
        lemma_scan_bound(s, n - 1);
    }
}

/// The delimiter depth of a source text outside double-quoted strings; the REPL keeps
/// reading lines while it is positive.
pub fn open_delimiter_depth(source: &str) -> (r: i32)
    requires
        source@.len() <= i32::MAX,
    ensures
        r as int == delimiter_depth(source@),
{
    let cs = chars_of(source);
    let n = cs.len();
    let mut depth: i32 = 0;
    let mut in_string = false;
    let mut escape = false;
    let mut i: usize = 0;
    while i < n
        invariant
            i <= n,
            n == cs@.len(),
            cs@ == source@,
            n <= i32::MAX,
            (depth as int, in_string, escape) == delimiter_scan(source@, i as int),
        decreases n - i,
    {
        proof {
            lemma_scan_bound(source@, i as int);
        }
        let ch = cs[i];
        if in_string {
            if escape {
                escape = false;
            } else if ch == '\\' {
                escape = true;
            } else if ch == '"' {
                in_string = false;
            }
        } else if ch == '"' {
            in_string = true;
        } else if ch == '{' || ch == '(' || ch == '[' {
            depth = depth + 1;
        } else if ch == '}' || ch == ')' || ch == ']' {
            depth = depth - 1;
        }
        i = i + 1;
    }
    depth
}

/// A line that starts with `:`.
pub enum MetaCommand {
    /// `:exit` or `:quit`.
    Exit,
    /// `:help` or `:h`.
    Help,
    /// `:reset`.
    Reset,
    /// Any other line starting with `:`; holds the trimmed line.
    Unknown(String),
    /// Not a meta command: Kria input.
    NotMeta,
}

/// What a REPL line means as a meta command: the trimmed line decides, except that an
/// unknown command is one whose untrimmed line starts with `:`.
pub open spec fn meta_of(line: Seq<char>) -> MetaCommand {
    let t = trimmed(line);
    if t == ":exit"@ || t == ":quit"@ {
        MetaCommand::Exit
    } else if t == ":help"@ || t == ":h"@ {
        MetaCommand::Help
    } else if t == ":reset"@ {
        MetaCommand::Reset
    } else if line.len() > 0 && line[0] == ':' {
        MetaCommand::Unknown(arbitrary())
    } else {
        MetaCommand::NotMeta
    }
}

fn same_text(a: &String, lit: &str) -> (r: bool)
    ensures
        r == (a@ == lit@),
{
    *a == lit.to_owned()
}

/// Classifies a REPL line (see `meta_of`); an unknown command carries the trimmed line.
pub fn classify_meta(line: &str) -> (r: MetaCommand)
    ensures
        match (r, meta_of(line@)) {
            (MetaCommand::Exit, MetaCommand::Exit) => true,
            (MetaCommand::Help, MetaCommand::Help) => true,
            (MetaCommand::Reset, MetaCommand::Reset) => true,
            (MetaCommand::Unknown(t), MetaCommand::Unknown(_)) => t@ == trimmed(line@),
            (MetaCommand::NotMeta, MetaCommand::NotMeta) => true,
            _ => false,
        },
{
    let t = trim_text(line);
    if same_text(&t, ":exit") || same_text(&t, ":quit") {
        MetaCommand::Exit
    } else if same_text(&t, ":help") || same_text(&t, ":h") {
        MetaCommand::Help
    } else if same_text(&t, ":reset") {
        MetaCommand::Reset
    } else {
        let cs = chars_of(line);
        if cs.len() > 0 && cs[0] == ':' {
            MetaCommand::Unknown(t)
        } else {
            MetaCommand::NotMeta
        }
    }
}

/// A REPL session: the program compiled so far, the machine running it, and where the
/// next input's code starts.
pub struct ReplSession {
    pub compiler: Compiler,
    pub vm: VM,
    pub next_ip: usize,
}

/// What evaluating `source` in a session compiles: the statements parsed from it, added to
/// the program so far; a parse error is reported as is.
pub open spec fn eval_compile(c: CompilerV, source: Seq<char>) -> (CompilerV, Option<Seq<char>>) {
    match parse_spec(tokenize_spec(source)) {
        Err(m) => (c, Some(m)),
        Ok(ss) => cprogram(c, ss, 0, true),
    }
}

impl ReplSession {
    pub fn new() -> (s: ReplSession)
        ensures
            s.compiler@ == crate::project::fresh(),
            s.vm@.stack.len() == 0 && s.vm@.globals.len() == 0 && s.vm@.frames.len() == 0,
            s.vm@.heap.arrays.len() == 0 && s.vm@.heap.objects.len() == 0,
            s.next_ip == 0,
    {
        ReplSession { compiler: Compiler::new(), vm: VM::new(), next_ip: 0 }
    }

    /// Forgets every variable and function.
    pub fn reset(&mut self)
        ensures
            final(self).compiler@ == crate::project::fresh(),
            final(self).vm@.stack.len() == 0 && final(self).vm@.globals.len() == 0,
            final(self).vm@.frames.len() == 0,
            final(self).vm@.heap.arrays.len() == 0 && final(self).vm@.heap.objects.len() == 0,
            final(self).next_ip == 0,
    {
        self.compiler = Compiler::new();
        self.vm = VM::new();
        self.next_ip = 0;
    }

    /// Compiles `source` onto the session's program and readies the machine to run the new
    /// code from `next_ip`; the caller then runs it with `run`.
    pub fn eval(&mut self, source: &str) -> (r: Result<(), String>)
        requires
            old(self).compiler@.jumps_ok(),
        ensures
            (final(self).compiler@, crate::compile_expr::rv(r)) == eval_compile(
                old(self).compiler@,
                source@,
            ),
            final(self).compiler@.jumps_ok(),
            final(self).next_ip == old(self).next_ip,
            r is Ok ==> final(self).vm@.ip == old(self).next_ip && final(self).vm@.globals.len()
                == final(self).compiler@.num_globals && final(self).vm@.stack == old(self).vm@.stack
                && final(self).vm@.heap == old(self).vm@.heap && final(self).vm@.frames == old(
                self,
            ).vm@.frames,
            r is Ok ==> forall|i: int|
                0 <= i < final(self).vm@.globals.len() ==> #[trigger] final(self).vm@.globals[i] == if i
                    < old(self).vm@.globals.len() {
                    old(self).vm@.globals[i]
                } else {
                    crate::value::ValueV::Null
                },
            r is Err ==> final(self).vm == old(self).vm,
    {
        let mut lexer = Lexer::new(source);
        let tokens = lexer.tokenize();
        let mut parser = Parser::new(tokens);
        let statements = match parser.parse() {
            Err(m) => {
                return Err(m);
            },
            Ok(ss) => ss,
        };
        match self.compiler.compile_repl(&statements) {
            Err(m) => {
                return Err(m);
            },
            Ok(()) => {},
        }
        let start = self.next_ip;
        self.vm.start(self.compiler.bytecode(), start);
        Ok(())
    }

    /// Runs at most `max_steps` instructions of the session's program; when it finishes, the
    /// next input starts where it stopped.
    pub fn run(&mut self, max_steps: u64) -> (e: Event)
        ensures
            (final(self).vm@, e@) == run_spec(
                old(self).vm@,
                old(self).compiler@.code,
                old(self).compiler@.consts,
                max_steps as nat,
            ),
            final(self).compiler == old(self).compiler,
            e@ is Halt ==> final(self).next_ip == final(self).vm@.ip,
            !(e@ is Halt) ==> final(self).next_ip == old(self).next_ip,
    {
        let e = self.vm.run(self.compiler.bytecode(), max_steps);
        match e {
            Event::Halt => {
                self.next_ip = self.vm.ip();
            },
            _ => {},
        }
        e
    }

    /// Hands the machine a value read as input.
    pub fn provide_input(&mut self, v: Value)
        ensures
            final(self).vm@ == old(self).vm@.push(v@),
            final(self).compiler == old(self).compiler,
            final(self).next_ip == old(self).next_ip,
    {
        self.vm.provide_input(v);
    }
}

} // verus!
