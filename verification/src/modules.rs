//! Modules of a program: import resolution and the module graph.
use vstd::prelude::*;
use crate::ast::{Statement, StmtV, stmts_view, stmt_view, lemma_stmts_view_index};

verus! {

/// A module with its (canonical) path, its statements, and the canonical paths of the
/// modules its imports name, in the order of the imports.
#[derive(Debug)]
pub struct ResolvedModule {
    pub path: String,
    pub statements: Vec<Statement>,
    pub deps: Vec<String>,
}

/// All modules of a program, each after the modules it imports, and the entry module.
#[derive(Debug)]
pub struct ModuleGraph {
    pub modules: Vec<ResolvedModule>,
    pub entry_index: usize,
}

/// The directory part of a path, as `Path::parent` computes it.
pub uninterp spec fn path_parent(p: Seq<char>) -> Option<Seq<char>>;

/// A path joined onto a directory, as `Path::join` computes it.
pub uninterp spec fn path_join(dir: Seq<char>, rel: Seq<char>) -> Seq<char>;

/// Calls `Path::parent` on a path given as text; the result is named.
#[verifier::external_body]
fn parent_of(p: &str) -> (r: Option<String>)
    ensures
        match (r, path_parent(p@)) {
            (Some(d), Some(sd)) => d@ == sd,
            (None, None) => true,
            _ => false,
        },
{
    match std::path::Path::new(p).parent() {
        Some(d) => Some(d.to_string_lossy().into_owned()),
        None => None,
    }
}

/// Calls `Path::join` on paths given as text; the result is named.
#[verifier::external_body]
fn join_path(dir: &str, rel: &str) -> (r: String)
    ensures
        r@ == path_join(dir@, rel@),
{
    std::path::Path::new(dir).join(rel).to_string_lossy().into_owned()
}

/// Whether `s` ends with `suffix`.
pub open spec fn ends_with(s: Seq<char>, suffix: Seq<char>) -> bool {
    suffix.len() <= s.len() && s.subrange(s.len() - suffix.len(), s.len() as int) == suffix
}

fn str_ends_with(s: &str, suffix: &str) -> (r: bool)
    ensures
        r == ends_with(s@, suffix@),
{
    let n = s.unicode_len();
    let m = suffix.unicode_len();
    if m > n {
        return false;
    }
    let mut i: usize = 0;
    while i < m
        invariant
            m <= n,
            n == s@.len(),
            m == suffix@.len(),
            i <= m,
            forall|j: int| 0 <= j < i ==> s@[n - m + j] == suffix@[j],
        decreases m - i,
    {
        if s.get_char(n - m + i) != suffix.get_char(i) {
            assert(s@.subrange(n - m, n as int)[i as int] != suffix@[i as int]);
            return false;
        }
        i = i + 1;
    }
    assert(s@.subrange(n - m, n as int) =~= suffix@);
    true
}

/// The file that an import names, before canonicalization: `import_path` taken relative to
/// the directory of the importing file (or `.` when that path has none).
pub open spec fn import_target(importer: Seq<char>, import_path: Seq<char>) -> Seq<char> {
    let dir = match path_parent(importer) {
        Some(d) => d,
        None => "."@,
    };
    path_join(dir, import_path)
}

/// Whether a path is absolute: it starts at the root (`/`, or `\\` on Windows).
pub open spec fn is_absolute(p: Seq<char>) -> bool {
    p.len() > 0 && (p[0] == '/' || p[0] == '\\')
}

/// Why an import path is refused: it must name a `.krx` file, relative to the importing file.
pub open spec fn import_error(import_path: Seq<char>) -> Option<Seq<char>> {
    if !ends_with(import_path, ".krx"@) {
        Some("Import path must be a .krx file: '"@ + import_path + "'"@)
    } else if is_absolute(import_path) {
        Some("Import path must be relative: '"@ + import_path + "'"@)
    } else {
        None
    }
}

/// Checks that an import names a `.krx` file by a relative path and gives the path it names,
/// relative to the importing file's directory; the caller canonicalizes that path.
pub fn resolve_import_path(importer: &str, import_path: &str) -> (r: Result<String, String>)
    ensures
        match import_error(import_path@) {
            Some(m) => r matches Err(e) && e@ == m,
            None => r matches Ok(p) && p@ == import_target(importer@, import_path@),
        },
{
    if !str_ends_with(import_path, ".krx") {
        let mut m = "Import path must be a .krx file: '".to_owned();
        m.append(import_path);
        m.append("'");
        return Err(m);
    }
    if import_path.unicode_len() > 0 {
        let first = import_path.get_char(0);
        if first == '/' || first == '\\' {
            let mut m = "Import path must be relative: '".to_owned();
            m.append(import_path);
            m.append("'");
            return Err(m);
        }
    }
    let dir = match parent_of(importer) {
        Some(d) => d,
        None => ".".to_owned(),
    };
    Ok(join_path(dir.as_str(), import_path))
}

/// The `(alias, path)` pairs of the import statements, in order.
pub open spec fn imports_of(ss: Seq<StmtV>) -> Seq<(Seq<char>, Seq<char>)>
    decreases ss.len(),
{
    if ss.len() == 0 {
        Seq::empty()
    } else {
        let rest = imports_of(ss.drop_last());
        match ss.last() {
            StmtV::Import { alias, path } => rest.push((alias, path)),
            _ => rest,
        }
    }
}

pub fn collect_imports(statements: &Vec<Statement>) -> (r: Vec<(String, String)>)
    ensures
        r@.map_values(|p: (String, String)| (p.0@, p.1@)) == imports_of(stmts_view(statements@)),
{
    let mut out: Vec<(String, String)> = Vec::new();
    let mut i: usize = 0;
    proof {
        lemma_stmts_view_index(statements@);
    }
    while i < statements.len()
        invariant
            i <= statements.len(),
            stmts_view(statements@).len() == statements@.len(),
            forall|j: int|
                0 <= j < statements@.len() ==> #[trigger] stmts_view(statements@)[j] == stmt_view(
                    statements@[j],
                ),
            out@.map_values(|p: (String, String)| (p.0@, p.1@)) == imports_of(
                stmts_view(statements@).take(i as int),
            ),
        decreases statements.len() - i,
    {
        let ghost before = out@;
        proof {
            let v = stmts_view(statements@);
            assert(v.take(i + 1).drop_last() =~= v.take(i as int));
            assert(v.take(i + 1).last() == stmt_view(statements@[i as int]));
        }
        match &statements[i] {
            Statement::Import { alias, path } => {
                out.push((alias.clone(), path.clone()));
                assert(out@.map_values(|p: (String, String)| (p.0@, p.1@)) =~= before.map_values(
                    |p: (String, String)| (p.0@, p.1@),
                ).push((alias@, path@)));
            },
            _ => {},
        }
        i = i + 1;
    }
    assert(stmts_view(statements@).take(statements.len() as int) =~= stmts_view(statements@));
    out
}

} // verus!
