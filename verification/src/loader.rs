//! Loading a program's modules: which file to resolve or read next, and what to make of the
//! answer. The caller does the file system work and hands the results back.
use vstd::prelude::*;
use crate::ast::{Statement, StmtV, stmt_view, stmts_view, names_view, lemma_stmts_view_index,
    lemma_names_view_index};
use crate::lexer::{Lexer, tokenize_spec};
use crate::parser::{Parser, parse_spec};
use crate::modules::{ResolvedModule, ModuleGraph, resolve_import_path, import_target, ends_with,
    import_error};
use crate::project::{ModuleV, module_view};

verus! {

/// The extension of a path's file name, as `Path::extension` computes it.
pub uninterp spec fn path_extension(p: Seq<char>) -> Option<Seq<char>>;

/// Calls `Path::extension` on a path given as text; the result is named.
#[verifier::external_body]
fn extension_of(p: &str) -> (r: Option<String>)
    ensures
        match (r, path_extension(p@)) {
            (Some(e), Some(se)) => e@ == se,
            (None, None) => true,
            _ => false,
        },
{
    match std::path::Path::new(p).extension() {
        Some(e) => Some(e.to_string_lossy().into_owned()),
        None => None,
    }
}

/// A module being loaded: its statements, the canonical paths of the imports handled so far,
/// and where the search for the next import goes on.
pub struct LoadFrame {
    pub path: String,
    pub statements: Vec<Statement>,
    pub deps: Vec<String>,
    pub next: usize,
}

pub struct FrameV {
    pub path: Seq<char>,
    pub statements: Seq<StmtV>,
    pub deps: Seq<Seq<char>>,
    pub next: int,
}

pub open spec fn frame_view(f: LoadFrame) -> FrameV {
    FrameV {
        path: f.path@,
        statements: stmts_view(f.statements@),
        deps: names_view(f.deps@),
        next: f.next as int,
    }
}

/// The answer the loader waits for.
#[derive(Clone, Copy, PartialEq, Eq, Structural)]
pub enum Phase {
    /// The canonical path of the entry file.
    Entry,
    /// The canonical path of a module about to be visited.
    Visit,
    /// The canonical path of a file an import names.
    Import,
    /// The contents of a module's file.
    Reading,
    /// Nothing more: the graph was given or loading failed.
    Finished,
}

/// What the loader asks its caller to do next.
pub enum LoadRequest {
    /// Canonicalize this path and answer with `resolved`.
    Resolve(String),
    /// Read this file and answer with `read`.
    Read(String),
    /// All modules are loaded.
    Done(ModuleGraph),
    /// Loading failed with this message.
    Fail(String),
}

pub enum RequestV {
    Resolve(Seq<char>),
    Read(Seq<char>),
    Done(Seq<ModuleV>, int),
    Fail(Seq<char>),
}

pub open spec fn request_view(r: LoadRequest) -> RequestV {
    match r {
        LoadRequest::Resolve(p) => RequestV::Resolve(p@),
        LoadRequest::Read(p) => RequestV::Read(p@),
        LoadRequest::Done(g) => RequestV::Done(
            g.modules@.map_values(|m: ResolvedModule| module_view(m)),
            g.entry_index as int,
        ),
        LoadRequest::Fail(m) => RequestV::Fail(m@),
    }
}

pub struct ModuleLoader {
    pub entry_text: String,
    pub entry: String,
    pub frames: Vec<LoadFrame>,
    pub loaded: Vec<ResolvedModule>,
    pub phase: Phase,
    pub target: String,
}

pub struct LoaderV {
    pub entry_text: Seq<char>,
    pub entry: Seq<char>,
    pub frames: Seq<FrameV>,
    pub loaded: Seq<ModuleV>,
    pub phase: Phase,
    pub target: Seq<char>,
}

impl View for ModuleLoader {
    type V = LoaderV;

    open spec fn view(&self) -> LoaderV {
        LoaderV {
            entry_text: self.entry_text@,
            entry: self.entry@,
            frames: self.frames@.map_values(|f: LoadFrame| frame_view(f)),
            loaded: self.loaded@.map_values(|m: ResolvedModule| module_view(m)),
            phase: self.phase,
            target: self.target@,
        }
    }
}

/// The first statement from `j` on that is an import.
pub open spec fn next_import(ss: Seq<StmtV>, j: int) -> Option<int>
    decreases ss.len() - j,
{
    if j < 0 || j >= ss.len() {
        None
    } else if ss[j] is Import {
        Some(j)
    } else {
        next_import(ss, j + 1)
    }
}

/// Whether some frame being loaded is the module at `p`.
pub open spec fn visiting(l: LoaderV, p: Seq<char>) -> bool {
    exists|i: int| 0 <= i < l.frames.len() && #[trigger] l.frames[i].path == p
}

/// Whether the module at `p` is loaded.
pub open spec fn is_loaded(l: LoaderV, p: Seq<char>) -> bool {
    exists|i: int| 0 <= i < l.loaded.len() && #[trigger] l.loaded[i].path == p
}

/// The position of the module at `p` among the loaded ones.
pub open spec fn loaded_index(ms: Seq<ModuleV>, p: Seq<char>, i: int) -> Option<int>
    decreases ms.len() - i,
{
    if i < 0 || i >= ms.len() {
        None
    } else if ms[i].path == p {
        Some(i)
    } else {
        loaded_index(ms, p, i + 1)
    }
}

/// Loading ends: the graph of the loaded modules with the entry module's position.
pub open spec fn finish(l: LoaderV) -> (LoaderV, RequestV) {
    match loaded_index(l.loaded, l.entry, 0) {
        Some(i) => (
            LoaderV { phase: Phase::Finished, loaded: Seq::empty(), ..l },
            RequestV::Done(l.loaded, i),
        ),
        None => (LoaderV { phase: Phase::Finished, ..l }, RequestV::Fail("Entry module not found in graph"@)),
    }
}

/// Goes on with the innermost module: its next import is resolved, or, when it has no more,
/// the module is loaded and its importer goes on.
pub open spec fn scan(l: LoaderV) -> (LoaderV, RequestV)
    decreases l.frames.len(),
{
    if l.frames.len() == 0 {
        finish(l)
    } else {
        let f = l.frames.last();
        let k = l.frames.len() - 1;
        match next_import(f.statements, f.next) {
            Some(j) => {
                let path = f.statements[j]->Import_path;
                let l2 = LoaderV { frames: l.frames.update(k, FrameV { next: j + 1, ..f }), ..l };
                if import_error(path) is Some {
                    (
                        LoaderV { phase: Phase::Finished, ..l2 },
                        RequestV::Fail(import_error(path)->0),
                    )
                } else {
                    let t = import_target(f.path, path);
                    (LoaderV { phase: Phase::Import, target: t, ..l2 }, RequestV::Resolve(t))
                }
            },
            None => scan(
                LoaderV {
                    frames: l.frames.drop_last(),
                    loaded: l.loaded.push(ModuleV { path: f.path, statements: f.statements, deps: f.deps }),
                    ..l
                },
            ),
        }
    }
}

/// What a canonical path (or the error text of canonicalizing) leads to.
pub open spec fn resolved_spec(l: LoaderV, r: Result<Seq<char>, Seq<char>>) -> (LoaderV, RequestV) {
    let done = LoaderV { phase: Phase::Finished, ..l };
    if l.phase == Phase::Entry {
        match r {
            Err(e) => (done, RequestV::Fail("Cannot resolve entry file '"@ + l.entry_text + "': "@ + e)),
            Ok(p) => if path_extension(p) != Some("krx"@) {
                (done, RequestV::Fail("Entry file must be a .krx file: "@ + p))
            } else {
                (LoaderV { entry: p, phase: Phase::Visit, target: p, ..l }, RequestV::Resolve(p))
            },
        }
    } else if l.phase == Phase::Import {
        match r {
            Err(_) => (done, RequestV::Fail("Cannot find module file '"@ + l.target + "'"@)),
            Ok(p) => {
                let k = l.frames.len() - 1;
                let f = l.frames[k];
                (
                    LoaderV {
                        frames: l.frames.update(k, FrameV { deps: f.deps.push(p), ..f }),
                        phase: Phase::Visit,
                        target: p,
                        ..l
                    },
                    RequestV::Resolve(p),
                )
            },
        }
    } else {
        match r {
            Err(e) => (done, RequestV::Fail("Cannot resolve path '"@ + l.target + "': "@ + e)),
            Ok(p) => if is_loaded(l, p) {
                scan(l)
            } else if visiting(l, p) {
                (done, RequestV::Fail("Circular import detected involving "@ + p))
            } else {
                (LoaderV { phase: Phase::Reading, target: p, ..l }, RequestV::Read(p))
            },
        }
    }
}

/// What the contents of the file being read (or the error text of reading it) lead to.
pub open spec fn read_spec(l: LoaderV, r: Result<Seq<char>, Seq<char>>) -> (LoaderV, RequestV) {
    let done = LoaderV { phase: Phase::Finished, ..l };
    match r {
        Err(e) => (done, RequestV::Fail("Error reading '"@ + l.target + "': "@ + e)),
        Ok(source) => match parse_spec(tokenize_spec(source)) {
            Err(m) => (done, RequestV::Fail(m)),
            Ok(ss) => scan(
                LoaderV {
                    frames: l.frames.push(FrameV { path: l.target, statements: ss, deps: Seq::empty(), next: 0 }),
                    ..l
                },
            ),
        },
    }
}

fn is_import_at(ss: &Vec<Statement>, j: usize) -> (r: bool)
    requires
        j < ss@.len(),
    ensures
        r == stmts_view(ss@)[j as int] is Import,
{
    proof {
        lemma_stmts_view_index(ss@);
        reveal_with_fuel(stmt_view, 1);
    }
    match &ss[j] {
        Statement::Import { .. } => true,
        _ => false,
    }
}

fn is_krx(e: &String) -> (r: bool)
    ensures
        r == (e@ == "krx"@),
{
    *e == "krx".to_owned()
}

impl ModuleLoader {
    /// Starts loading from the entry file named `entry`: its canonical path is asked for.
    pub fn start(entry: &str) -> (r: (ModuleLoader, LoadRequest))
        ensures
            r.0@.entry_text == entry@,
            r.0@.frames.len() == 0,
            r.0@.loaded.len() == 0,
            r.0@.phase == Phase::Entry,
            request_view(r.1) == RequestV::Resolve(entry@),
    {
        let l = ModuleLoader {
            entry_text: entry.to_owned(),
            entry: String::new(),
            frames: Vec::new(),
            loaded: Vec::new(),
            phase: Phase::Entry,
            target: entry.to_owned(),
        };
        (l, LoadRequest::Resolve(entry.to_owned()))
    }

    /// The answer the loader waits for.
    pub fn phase(&self) -> (p: Phase)
        ensures
            p == self@.phase,
    {
        self.phase
    }

    fn in_frames(&self, p: &String) -> (r: bool)
        ensures
            r == visiting(self@, p@),
    {
        let mut i: usize = 0;
        while i < self.frames.len()
            invariant
                i <= self.frames@.len(),
                forall|j: int| 0 <= j < i ==> self@.frames[j].path != p@,
            decreases self.frames.len() - i,
        {
            if self.frames[i].path == *p {
                assert(self@.frames[i as int].path == p@);
                return true;
            }
            i = i + 1;
        }
        false
    }

    fn loaded_position(&self, p: &String) -> (r: Option<usize>)
        ensures
            match r {
                Some(i) => loaded_index(self@.loaded, p@, 0) == Some(i as int),
                None => loaded_index(self@.loaded, p@, 0) is None,
            },
            r is Some == is_loaded(self@, p@),
    {
        let mut i: usize = 0;
        while i < self.loaded.len()
            invariant
                i <= self.loaded@.len(),
                loaded_index(self@.loaded, p@, 0) == loaded_index(self@.loaded, p@, i as int),
                forall|j: int| 0 <= j < i ==> self@.loaded[j].path != p@,
            decreases self.loaded.len() - i,
        {
            if self.loaded[i].path == *p {
                assert(self@.loaded[i as int].path == p@);
                return Some(i);
            }
            i = i + 1;
        }
        assert(loaded_index(self@.loaded, p@, i as int) is None);
        None
    }

    fn fail(&mut self, msg: String) -> (r: LoadRequest)
        ensures
            final(self)@ == (LoaderV { phase: Phase::Finished, ..old(self)@ }),
            request_view(r) == RequestV::Fail(msg@),
    {
        self.phase = Phase::Finished;
        LoadRequest::Fail(msg)
    }

    fn finish(&mut self) -> (r: LoadRequest)
        ensures
            (final(self)@, request_view(r)) == finish(old(self)@),
    {
        let entry = self.entry.clone();
        match self.loaded_position(&entry) {
            Some(i) => {
                self.phase = Phase::Finished;
                let mut modules: Vec<ResolvedModule> = Vec::new();
                std::mem::swap(&mut modules, &mut self.loaded);
                assert(self@.loaded =~= Seq::<ModuleV>::empty());
                LoadRequest::Done(ModuleGraph { modules, entry_index: i })
            },
            None => self.fail("Entry module not found in graph".to_owned()),
        }
    }

    /// Goes on with the innermost module (see `scan`).
    fn scan(&mut self) -> (r: LoadRequest)
        ensures
            (final(self)@, request_view(r)) == scan(old(self)@),
    {
        loop
            invariant
                scan(old(self)@) == scan(self@),
            decreases self.frames@.len(), 0nat,
        {
            let n = self.frames.len();
            if n == 0 {
                return self.finish();
            }
            let ghost l = self@;
            let mut f = self.frames.pop().unwrap();
            assert(frame_view(f) == l.frames.last());
            proof {
                lemma_stmts_view_index(f.statements@);
            }
            let mut j = f.next;
            if j > f.statements.len() {
                j = f.statements.len();
            }
            while j < f.statements.len() && !is_import_at(&f.statements, j)
                invariant
                    j <= f.statements@.len(),
                    stmts_view(f.statements@).len() == f.statements@.len(),
                    next_import(stmts_view(f.statements@), f.next as int) == next_import(stmts_view(f.statements@), j as int),
                decreases f.statements.len() - j,
            {
                j = j + 1;
            }
            if j < f.statements.len() {
                proof {
                    reveal_with_fuel(stmt_view, 1);
                }
                let path = match &f.statements[j] {
                    Statement::Import { path, .. } => path.clone(),
                    _ => String::new(),
                };
                assert(next_import(stmts_view(f.statements@), j as int) == Some(j as int));
                assert(stmts_view(f.statements@)[j as int]->Import_path == path@);
                f.next = j + 1;
                let resolved = resolve_import_path(f.path.as_str(), path.as_str());
                let ghost f2 = frame_view(f);
                self.frames.push(f);
                assert(self@.frames =~= l.frames.update(n - 1, f2));
                match resolved {
                    Err(m) => {
                        return self.fail(m);
                    },
                    Ok(t) => {
                        self.phase = Phase::Import;
                        self.target = t.clone();
                        return LoadRequest::Resolve(t);
                    },
                }
            }
            assert(next_import(stmts_view(f.statements@), j as int) is None);
            let m = ResolvedModule { path: f.path, statements: f.statements, deps: f.deps };
            self.loaded.push(m);
            assert(self@.frames =~= l.frames.drop_last());
            assert(self@.loaded =~= l.loaded.push(ModuleV { path: l.frames.last().path, statements: l.frames.last().statements, deps: l.frames.last().deps }));
        }
    }

    /// Takes the canonical path asked for, or the error text of canonicalizing (see
    /// `resolved_spec`).
    pub fn resolved(&mut self, r: Result<String, String>) -> (q: LoadRequest)
        requires
            old(self)@.phase == Phase::Entry || old(self)@.phase == Phase::Visit || (old(self)@.phase
                == Phase::Import && old(self)@.frames.len() > 0),
        ensures
            (final(self)@, request_view(q)) == resolved_spec(
                old(self)@,
                match r {
                    Ok(p) => Ok(p@),
                    Err(e) => Err(e@),
                },
            ),
    {
        if self.phase == Phase::Entry {
            match r {
                Err(e) => {
                    let mut m = "Cannot resolve entry file '".to_owned();
                    m.append(self.entry_text.as_str());
                    m.append("': ");
                    m.append(e.as_str());
                    self.fail(m)
                },
                Ok(p) => {
                    let ext = extension_of(p.as_str());
                    let ok = match &ext {
                        Some(e) => is_krx(e),
                        None => false,
                    };
                    if !ok {
                        let mut m = "Entry file must be a .krx file: ".to_owned();
                        m.append(p.as_str());
                        return self.fail(m);
                    }
                    self.entry = p.clone();
                    self.phase = Phase::Visit;
                    self.target = p.clone();
                    LoadRequest::Resolve(p)
                },
            }
        } else if self.phase == Phase::Import {
            match r {
                Err(_) => {
                    let mut m = "Cannot find module file '".to_owned();
                    m.append(self.target.as_str());
                    m.append("'");
                    self.fail(m)
                },
                Ok(p) => {
                    let n = self.frames.len();
                    let ghost l = self@;
                    let mut f = self.frames.pop().unwrap();
                    let ghost fv = frame_view(f);
                    f.deps.push(p.clone());
                    assert(names_view(f.deps@) =~= fv.deps.push(p@));
                    let ghost f2 = frame_view(f);
                    self.frames.push(f);
                    assert(self@.frames =~= l.frames.update(n - 1, f2));
                    self.phase = Phase::Visit;
                    self.target = p.clone();
                    LoadRequest::Resolve(p)
                },
            }
        } else {
            match r {
                Err(e) => {
                    let mut m = "Cannot resolve path '".to_owned();
                    m.append(self.target.as_str());
                    m.append("': ");
                    m.append(e.as_str());
                    self.fail(m)
                },
                Ok(p) => {
                    if self.loaded_position(&p).is_some() {
                        return self.scan();
                    }
                    if self.in_frames(&p) {
                        let mut m = "Circular import detected involving ".to_owned();
                        m.append(p.as_str());
                        return self.fail(m);
                    }
                    self.phase = Phase::Reading;
                    self.target = p.clone();
                    LoadRequest::Read(p)
                },
            }
        }
    }

    /// Takes the contents of the file asked for, or the error text of reading it (see
    /// `read_spec`).
    pub fn read(&mut self, r: Result<String, String>) -> (q: LoadRequest)
        requires
            old(self)@.phase == Phase::Reading,
        ensures
            (final(self)@, request_view(q)) == read_spec(
                old(self)@,
                match r {
                    Ok(p) => Ok(p@),
                    Err(e) => Err(e@),
                },
            ),
    {
        match r {
            Err(e) => {
                let mut m = "Error reading '".to_owned();
                m.append(self.target.as_str());
                m.append("': ");
                m.append(e.as_str());
                self.fail(m)
            },
            Ok(source) => {
                let mut lexer = Lexer::new(source.as_str());
                let tokens = lexer.tokenize();
                let mut parser = Parser::new(tokens);
                match parser.parse() {
                    Err(m) => self.fail(m),
                    Ok(statements) => {
                        let ghost l = self@;
                        let deps: Vec<String> = Vec::new();
                        assert(names_view(deps@) =~= Seq::<Seq<char>>::empty());
                        let f = LoadFrame { path: self.target.clone(), statements, deps, next: 0 };
                        self.frames.push(f);
                        assert(self@.frames =~= l.frames.push(
                            FrameV { path: l.target, statements: frame_view(f).statements, deps: Seq::empty(), next: 0 },
                        ));
                        self.scan()
                    },
                }
            },
        }
    }
}

} // verus!
