//! Conflict resolution at capture: the worker's resolution manifest
//! reconciled with the index entries it governs.

use vstd::prelude::*;
use crate::text::{lemma_views_push, same_text, views};

verus! {

/// How a declaration resolves a path.
#[derive(Clone, Copy, Debug, PartialEq, Eq, Structural)]
pub enum ResolutionKind {
    Resolved,
    Deleted,
}

/// The keyword a worker declares a resolved path with.
pub const RESOLVED_KEYWORD: &'static str = "resolved";
/// The keyword a worker declares a deleted path with.
pub const DELETED_KEYWORD: &'static str = "deleted";
/// The name of the worker's resolution manifest, at the worktree's root.
pub const RESOLUTION_MANIFEST: &'static str = ".upstroke-resolutions";

/// One line of a resolution manifest.
#[derive(Clone, Debug, PartialEq, Eq)]
pub struct Declaration {
    pub path: String,
    pub kind: ResolutionKind,
}

/// A resolution the engine stages.
#[derive(Clone, Debug, PartialEq, Eq)]
pub struct DeclaredResolution {
    pub path: String,
    pub kind: ResolutionKind,
}

/// What a worktree's resolution manifest holds.
#[derive(Clone, Debug, PartialEq, Eq)]
pub enum ResolutionManifest {
    Absent,
    Declared(Vec<Declaration>),
    Malformed { detail: String },
}

/// What a character folds to when case is ignored: the characters of its
/// Unicode lowercase mapping, as std's `char::to_lowercase` yields them.
pub uninterp spec fn lowercase(c: char) -> Seq<char>;

/// Calls std's `char::to_lowercase` on `c` and collects what it yields. The
/// contract claims only that the result is a function of `c`, named
/// `lowercase`; nothing is stated of the Unicode mapping itself.
#[verifier::external_body]
fn char_lowercase(c: char) -> (folded: Vec<char>)
    ensures
        folded@ == lowercase(c),
{
    c.to_lowercase().collect()
}

/// `s` with case folded one character at a time.
pub open spec fn fold_case(s: Seq<char>) -> Seq<char>
    decreases s.len(),
{
    if s.len() == 0 {
        Seq::empty()
    } else {
        fold_case(s.drop_last()) + lowercase(s.last())
    }
}

fn folded(s: &str) -> (f: Vec<char>)
    ensures
        f@ == fold_case(s@),
{
    let mut f: Vec<char> = Vec::new();
    let n = s.unicode_len();
    let mut i: usize = 0;
    while i < n
        invariant
            n == s@.len(),
            i <= n,
            f@ == fold_case(s@.take(i as int)),
        decreases n - i,
    {
        let c = s.get_char(i);
        let lower = char_lowercase(c);
        let m = lower.len();
        let mut j: usize = 0;
        let ghost before = f@;
        while j < m
            invariant
                m == lower.len(),
                j <= m,
                f@ == before + lower@.take(j as int),
            decreases m - j,
        {
            f.push(lower[j]);
            assert(lower@.take(j + 1) =~= lower@.take(j as int).push(lower@[j as int]));
            j = j + 1;
        }
        proof {
            assert(lower@.take(m as int) =~= lower@);
            assert(s@.take(i + 1).drop_last() =~= s@.take(i as int));
        }
        i = i + 1;
    }
    proof {
        assert(s@.take(n as int) =~= s@);
    }
    f
}

/// A declared spelling as the host's Git reads it: where that Git reads a
/// backslash as a path separator, each backslash is a slash; elsewhere the
/// spelling is kept.
pub open spec fn host_spelling(p: Seq<char>, backslash_separates: bool) -> Seq<char> {
    if backslash_separates {
        p.map_values(|c: char| if c == '\\' { '/' } else { c })
    } else {
        p
    }
}

/// Declarations as the host's Git reads their spellings.
pub open spec fn host_decls(ds: Seq<(Seq<char>, ResolutionKind)>, backslash_separates: bool) -> Seq<(Seq<char>, ResolutionKind)> {
    ds.map_values(|d: (Seq<char>, ResolutionKind)| (host_spelling(d.0, backslash_separates), d.1))
}

fn host_path(p: &str, backslash_separates: bool) -> (r: String)
    ensures
        r@ == host_spelling(p@, backslash_separates),
{
    if !backslash_separates {
        return String::from_str(p);
    }
    let mut r = String::new();
    let n = p.unicode_len();
    let mut i: usize = 0;
    while i < n
        invariant
            n == p@.len(),
            i <= n,
            r@ == host_spelling(p@.take(i as int), true),
        decreases n - i,
    {
        let c = p.get_char(i);
        let ghost before = r@;
        if c == '\\' {
            r.append("/");
        } else {
            r.append(p.substring_char(i, i + 1));
        }
        proof {
            reveal_strlit("/");
            assert(p@.subrange(i as int, i + 1) =~= seq![c]);
            assert(r@ =~= before.push(if c == '\\' { '/' } else { c }));
            assert(p@.take(i + 1) =~= p@.take(i as int).push(c));
            assert(host_spelling(p@.take(i + 1), true) =~= host_spelling(p@.take(i as int), true).push(
                if c == '\\' { '/' } else { c },
            ));
        }
        i = i + 1;
    }
    proof {
        assert(p@.take(n as int) =~= p@);
    }
    r
}

fn read_on_host(decls: &Vec<Declaration>, backslash_separates: bool) -> (r: Vec<Declaration>)
    ensures
        decls_view(r@) == host_decls(decls_view(decls@), backslash_separates),
{
    let mut r: Vec<Declaration> = Vec::new();
    let n = decls.len();
    let mut i: usize = 0;
    while i < n
        invariant
            n == decls.len(),
            i <= n,
            decls_view(r@) == host_decls(decls_view(decls@.take(i as int)), backslash_separates),
        decreases n - i,
    {
        let d = Declaration { path: host_path(decls[i].path.as_str(), backslash_separates), kind: decls[i].kind };
        let ghost before = r@;
        r.push(d);
        proof {
            assert(decls@.take(i + 1) =~= decls@.take(i as int).push(decls@[i as int]));
            assert(decls_view(r@) =~= decls_view(before).push(decl_view(d)));
            assert(decls_view(decls@.take(i + 1)) =~= decls_view(decls@.take(i as int)).push(decl_view(decls@[i as int])));
            assert(host_decls(decls_view(decls@.take(i + 1)), backslash_separates) =~= host_decls(
                decls_view(decls@.take(i as int)),
                backslash_separates,
            ).push((host_spelling(decls@[i as int].path@, backslash_separates), decls@[i as int].kind)));
            assert(decls_view(r@) =~= host_decls(decls_view(decls@.take(i + 1)), backslash_separates));
        }
        i = i + 1;
    }
    proof {
        assert(decls@.take(n as int) =~= decls@);
    }
    r
}

/// Whether a declared spelling names an index entry: exactly as the index spells it.
pub open spec fn names_spec(declared: Seq<char>, entry: Seq<char>) -> bool {
    declared == entry
}

/// Whether a declared spelling differs from an index entry by case alone,
/// folded one character at a time.
pub open spec fn another_case_spec(declared: Seq<char>, entry: Seq<char>) -> bool {
    declared != entry && fold_case(declared) == fold_case(entry)
}

impl Declaration {
    /// Whether this declaration names `entry` as the index spells it.
    pub fn names(&self, entry: &str) -> (b: bool)
        ensures
            b == names_spec(self.path@, entry@),
    {
        same_text(self.path.as_str(), entry)
    }

    /// Whether this declaration spells `entry` in another case.
    pub fn names_in_another_case(&self, entry: &str) -> (b: bool)
        ensures
            b == another_case_spec(self.path@, entry@),
    {
        if same_text(self.path.as_str(), entry) {
            return false;
        }
        let a = folded(self.path.as_str());
        let b = folded(entry);
        if a.len() != b.len() {
            return false;
        }
        let n = a.len();
        let mut i: usize = 0;
        while i < n
            invariant
                n == a.len(),
                n == b.len(),
                i <= n,
                a@ == fold_case(self.path@),
                b@ == fold_case(entry@),
                self.path@ != entry@,
                forall|j: int| 0 <= j < i ==> a@[j] == b@[j],
            decreases n - i,
        {
            if a[i] != b[i] {
                assert(a@[i as int] != b@[i as int]);
                assert(a@ != b@);
                return false;
            }
            i = i + 1;
        }
        assert(a@ =~= b@);
        true
    }
}

/// What capture stages and what it refuses.
#[derive(Clone, Debug, Default, PartialEq, Eq)]
pub struct ResolutionPlan {
    pub staged: Vec<DeclaredResolution>,
    pub refused: Vec<String>,
}

// ----- the plan, as a specification ------------------------------------------

/// A declaration, as text.
pub open spec fn decl_view(d: Declaration) -> (Seq<char>, ResolutionKind) {
    (d.path@, d.kind)
}

/// A staged resolution, as text.
pub open spec fn staged_view(d: DeclaredResolution) -> (Seq<char>, ResolutionKind) {
    (d.path@, d.kind)
}

pub open spec fn keyword_spec(kind: ResolutionKind) -> Seq<char> {
    match kind {
        ResolutionKind::Resolved => "resolved"@,
        ResolutionKind::Deleted => "deleted"@,
    }
}

/// The paths a manifest governs: each unmerged entry, then each resolved
/// entry that is not also unmerged; each with whether it is unmerged now.
pub open spec fn governed_spec(unmerged: Seq<Seq<char>>, resolved: Seq<Seq<char>>) -> Seq<(Seq<char>, bool)> {
    unmerged.map_values(|p: Seq<char>| (p, true))
        + resolved.filter(|p: Seq<char>| !unmerged.contains(p)).map_values(|p: Seq<char>| (p, false))
}

/// Whether some declaration of `kind` names `path` exactly.
pub open spec fn exact_spec(decls: Seq<(Seq<char>, ResolutionKind)>, kind: ResolutionKind, path: Seq<char>) -> bool {
    exists|i: int| 0 <= i < decls.len() && (#[trigger] decls[i]).1 == kind && names_spec(decls[i].0, path)
}

/// Whether declaration `d` is an alias of `path` of `kind`: of that kind,
/// spelling `path` in another case, and naming no governed path itself.
pub open spec fn is_alias(d: (Seq<char>, ResolutionKind), kind: ResolutionKind, path: Seq<char>, governed: Seq<(Seq<char>, bool)>) -> bool {
    d.1 == kind && another_case_spec(d.0, path)
        && !(exists|g: int| 0 <= g < governed.len() && names_spec(d.0, (#[trigger] governed[g]).0))
}

/// The spelling of the first alias of `path` of `kind`.
pub open spec fn alias_spec(decls: Seq<(Seq<char>, ResolutionKind)>, kind: ResolutionKind, path: Seq<char>, governed: Seq<(Seq<char>, bool)>) -> Option<Seq<char>>
    decreases decls.len(),
{
    if decls.len() == 0 {
        None
    } else if is_alias(decls[0], kind, path, governed) {
        Some(decls[0].0)
    } else {
        alias_spec(decls.drop_first(), kind, path, governed)
    }
}

pub open spec fn both_text(path: Seq<char>) -> Seq<char> {
    path + " (declared both `resolved` and `deleted`)"@
}

pub open spec fn contradiction_text(path: Seq<char>, exact: ResolutionKind, other: ResolutionKind, spelling: Seq<char>) -> Seq<char> {
    path + " (declared `"@ + keyword_spec(exact) + "`, and `"@ + keyword_spec(other) + "` as `"@ + spelling
        + "`, a spelling that differs only by case)"@
}

pub open spec fn only_alias_text(path: Seq<char>, kind: ResolutionKind, spelling: Seq<char>) -> Seq<char> {
    path + " (declared `"@ + keyword_spec(kind) + "` only as `"@ + spelling
        + "`, which differs from the index's spelling by case alone; spell the path as the index does)"@
}

/// What one governed path adds to the plan: a staged resolution, a refusal, or nothing.
pub open spec fn step_spec(
    decls: Seq<(Seq<char>, ResolutionKind)>,
    governed: Seq<(Seq<char>, bool)>,
    path: Seq<char>,
    unmerged_now: bool,
) -> (Seq<(Seq<char>, ResolutionKind)>, Seq<Seq<char>>) {
    let r = exact_spec(decls, ResolutionKind::Resolved, path);
    let d = exact_spec(decls, ResolutionKind::Deleted, path);
    if r && d {
        (Seq::empty(), seq![both_text(path)])
    } else if r {
        match alias_spec(decls, ResolutionKind::Deleted, path, governed) {
            Some(sp) => (Seq::empty(), seq![contradiction_text(path, ResolutionKind::Resolved, ResolutionKind::Deleted, sp)]),
            None => (seq![(path, ResolutionKind::Resolved)], Seq::empty()),
        }
    } else if d {
        match alias_spec(decls, ResolutionKind::Resolved, path, governed) {
            Some(sp) => (Seq::empty(), seq![contradiction_text(path, ResolutionKind::Deleted, ResolutionKind::Resolved, sp)]),
            None => (seq![(path, ResolutionKind::Deleted)], Seq::empty()),
        }
    } else {
        match alias_spec(decls, ResolutionKind::Resolved, path, governed) {
            Some(sp) => (Seq::empty(), seq![only_alias_text(path, ResolutionKind::Resolved, sp)]),
            None => match alias_spec(decls, ResolutionKind::Deleted, path, governed) {
                Some(sp) => (Seq::empty(), seq![only_alias_text(path, ResolutionKind::Deleted, sp)]),
                None => if unmerged_now {
                    (Seq::empty(), seq![path])
                } else {
                    (Seq::empty(), Seq::empty())
                },
            },
        }
    }
}

/// The plan the first `n` governed paths make.
pub open spec fn plan_prefix(
    decls: Seq<(Seq<char>, ResolutionKind)>,
    governed: Seq<(Seq<char>, bool)>,
    n: nat,
) -> (Seq<(Seq<char>, ResolutionKind)>, Seq<Seq<char>>)
    decreases n,
{
    if n == 0 || n > governed.len() {
        (Seq::empty(), Seq::empty())
    } else {
        let before = plan_prefix(decls, governed, (n - 1) as nat);
        let step = step_spec(decls, governed, governed[n - 1].0, governed[n - 1].1);
        (before.0 + step.0, before.1 + step.1)
    }
}

/// The plan: for a malformed manifest every governed path refused and the
/// detail quoted; otherwise each governed path's step, in order, with the
/// declarations spelled as the host's Git reads them.
pub open spec fn plan_spec(
    unmerged: Seq<Seq<char>>,
    resolved: Seq<Seq<char>>,
    manifest: ResolutionManifest,
    backslash_separates: bool,
) -> (Seq<(Seq<char>, ResolutionKind)>, Seq<Seq<char>>) {
    let governed = governed_spec(unmerged, resolved);
    match manifest {
        ResolutionManifest::Malformed { detail } => (
            Seq::empty(),
            governed.map_values(|g: (Seq<char>, bool)| g.0).push("("@ + detail@ + ")"@),
        ),
        ResolutionManifest::Absent => plan_prefix(Seq::empty(), governed, governed.len()),
        ResolutionManifest::Declared(decls) => plan_prefix(
            host_decls(decls@.map_values(|d: Declaration| decl_view(d)), backslash_separates),
            governed,
            governed.len(),
        ),
    }
}


// ----- the plan --------------------------------------------------------------

/// Governed paths, as text.
pub open spec fn governed_view(g: Seq<(String, bool)>) -> Seq<(Seq<char>, bool)> {
    g.map_values(|x: (String, bool)| (x.0@, x.1))
}

/// Declarations, as text.
pub open spec fn decls_view(d: Seq<Declaration>) -> Seq<(Seq<char>, ResolutionKind)> {
    d.map_values(|x: Declaration| decl_view(x))
}

/// Staged resolutions, as text.
pub open spec fn staged_views(d: Seq<DeclaredResolution>) -> Seq<(Seq<char>, ResolutionKind)> {
    d.map_values(|x: DeclaredResolution| staged_view(x))
}

fn contains_text(list: &Vec<String>, s: &str) -> (b: bool)
    ensures
        b == views(list@).contains(s@),
{
    let n = list.len();
    let mut i: usize = 0;
    while i < n
        invariant
            n == list.len(),
            i <= n,
            forall|j: int| 0 <= j < i ==> list@[j]@ != s@,
        decreases n - i,
    {
        if same_text(list[i].as_str(), s) {
            assert(views(list@)[i as int] == s@);
            return true;
        }
        i = i + 1;
    }
    assert forall|j: int| 0 <= j < views(list@).len() implies views(list@)[j] != s@ by {}
    false
}

fn governed_paths(unmerged: &Vec<String>, resolved: &Vec<String>) -> (g: Vec<(String, bool)>)
    ensures
        governed_view(g@) == governed_spec(views(unmerged@), views(resolved@)),
{
    let mut g: Vec<(String, bool)> = Vec::new();
    let n = unmerged.len();
    let mut i: usize = 0;
    while i < n
        invariant
            n == unmerged.len(),
            i <= n,
            governed_view(g@) == views(unmerged@.take(i as int)).map_values(|p: Seq<char>| (p, true)),
        decreases n - i,
    {
        let ghost before = g@;
        let item = unmerged[i].clone();
        g.push((item, true));
        assert(governed_view(g@) =~= governed_view(before).push((unmerged@[i as int]@, true)));
        assert(views(unmerged@.take(i + 1)) =~= views(unmerged@.take(i as int)).push(unmerged@[i as int]@));
        assert(governed_view(g@) =~= views(unmerged@.take(i + 1)).map_values(|p: Seq<char>| (p, true)));
        i = i + 1;
    }
    assert(unmerged@.take(n as int) =~= unmerged@);
    let ghost head = governed_view(g@);
    let ghost uv = views(unmerged@);
    let m = resolved.len();
    let mut j: usize = 0;
    while j < m
        invariant
            m == resolved.len(),
            j <= m,
            uv == views(unmerged@),
            governed_view(g@) == head + views(resolved@.take(j as int)).filter(|p: Seq<char>| !uv.contains(p)).map_values(
                |p: Seq<char>| (p, false),
            ),
        decreases m - j,
    {
        let ghost before = g@;
        proof {
            reveal(Seq::filter);
            assert(views(resolved@.take(j + 1)).drop_last() =~= views(resolved@.take(j as int)));
        }
        if !contains_text(unmerged, resolved[j].as_str()) {
            g.push((resolved[j].clone(), false));
            assert(governed_view(g@) =~= governed_view(before).push((resolved@[j as int]@, false)));
        }
        assert(governed_view(g@) =~= head + views(resolved@.take(j + 1)).filter(|p: Seq<char>| !uv.contains(p)).map_values(
            |p: Seq<char>| (p, false),
        ));
        j = j + 1;
    }
    assert(resolved@.take(m as int) =~= resolved@);
    g
}

fn exact(decls: &Vec<Declaration>, kind: ResolutionKind, path: &str) -> (b: bool)
    ensures
        b == exact_spec(decls_view(decls@), kind, path@),
{
    let n = decls.len();
    let mut i: usize = 0;
    while i < n
        invariant
            n == decls.len(),
            i <= n,
            forall|j: int| 0 <= j < i ==> !((#[trigger] decls_view(decls@)[j]).1 == kind && names_spec(decls_view(decls@)[j].0, path@)),
        decreases n - i,
    {
        if decls[i].kind == kind && decls[i].names(path) {
            assert(decls_view(decls@)[i as int].1 == kind && names_spec(decls_view(decls@)[i as int].0, path@));
            return true;
        }
        i = i + 1;
    }
    false
}

fn names_governed(d: &Declaration, governed: &Vec<(String, bool)>) -> (b: bool)
    ensures
        b == exists|g: int| 0 <= g < governed_view(governed@).len() && names_spec(d.path@, (#[trigger] governed_view(governed@)[g]).0),
{
    let n = governed.len();
    let mut i: usize = 0;
    while i < n
        invariant
            n == governed.len(),
            i <= n,
            forall|g: int| 0 <= g < i ==> !names_spec(d.path@, (#[trigger] governed_view(governed@)[g]).0),
        decreases n - i,
    {
        if d.names(governed[i].0.as_str()) {
            assert(names_spec(d.path@, governed_view(governed@)[i as int].0));
            return true;
        }
        i = i + 1;
    }
    false
}

fn alias(decls: &Vec<Declaration>, kind: ResolutionKind, path: &str, governed: &Vec<(String, bool)>) -> (a: Option<String>)
    ensures
        match alias_spec(decls_view(decls@), kind, path@, governed_view(governed@)) {
            Some(sp) => a matches Some(found) && found@ == sp,
            None => a is None,
        },
{
    let ghost dv = decls_view(decls@);
    let ghost gv = governed_view(governed@);
    let n = decls.len();
    let mut i: usize = 0;
    assert(dv.skip(0) =~= dv);
    while i < n
        invariant
            n == decls.len(),
            i <= n,
            dv == decls_view(decls@),
            gv == governed_view(governed@),
            alias_spec(dv, kind, path@, gv) == alias_spec(dv.skip(i as int), kind, path@, gv),
        decreases n - i,
    {
        assert(dv.skip(i as int)[0] == dv[i as int]);
        assert(dv.skip(i as int).drop_first() =~= dv.skip(i + 1));
        let d = &decls[i];
        if d.kind == kind && d.names_in_another_case(path) && !names_governed(d, governed) {
            return Some(d.path.clone());
        }
        i = i + 1;
    }
    assert(dv.skip(n as int).len() == 0);
    None
}

fn push_staged(staged: &mut Vec<DeclaredResolution>, path: &String, kind: ResolutionKind)
    ensures
        staged_views(final(staged)@) == staged_views(old(staged)@).push((path@, kind)),
{
    let d = DeclaredResolution { path: path.clone(), kind };
    staged.push(d);
    assert(staged_views(final(staged)@) =~= staged_views(old(staged)@).push((path@, kind)));
}

fn push_refused(refused: &mut Vec<String>, s: String)
    ensures
        views(final(refused)@) == views(old(refused)@).push(s@),
{
    proof { lemma_views_push(refused@, s); }
    refused.push(s);
}

fn keyword(kind: ResolutionKind) -> (s: &'static str)
    ensures
        s@ == keyword_spec(kind),
{
    match kind {
        ResolutionKind::Resolved => RESOLVED_KEYWORD,
        ResolutionKind::Deleted => DELETED_KEYWORD,
    }
}

fn contradiction(path: &String, exact: ResolutionKind, other: ResolutionKind, spelling: &String) -> (s: String)
    ensures
        s@ == contradiction_text(path@, exact, other, spelling@),
{
    let mut s = path.clone();
    s.append(" (declared `");
    s.append(keyword(exact));
    s.append("`, and `");
    s.append(keyword(other));
    s.append("` as `");
    s.append(spelling.as_str());
    s.append("`, a spelling that differs only by case)");
    s
}

fn only_alias(path: &String, kind: ResolutionKind, spelling: &String) -> (s: String)
    ensures
        s@ == only_alias_text(path@, kind, spelling@),
{
    let mut s = path.clone();
    s.append(" (declared `");
    s.append(keyword(kind));
    s.append("` only as `");
    s.append(spelling.as_str());
    s.append("`, which differs from the index's spelling by case alone; spell the path as the index does)");
    s
}

/// The worker's manifest reconciled with the paths it governs: the index's
/// unmerged entries, every one of which must be declared, and the entries a
/// previous capture resolved, which a declaration may revise. A path
/// declared one way as the index spells it is staged that way; declared both
/// ways, or one way exactly and the other in another case, it is refused; a
/// lone declaration in another case is refused naming the index's spelling;
/// an undeclared unmerged path is refused. A malformed manifest refuses every
/// governed path and quotes the detail.
pub fn plan_resolutions(
    unmerged: &Vec<String>,
    resolved: &Vec<String>,
    manifest: &ResolutionManifest,
    backslash_separates: bool,
) -> (plan: ResolutionPlan)
    ensures
        (staged_views(plan.staged@), views(plan.refused@)) == plan_spec(views(unmerged@), views(resolved@), *manifest, backslash_separates),
{
    let governed = governed_paths(unmerged, resolved);
    let ghost gv = governed_view(governed@);
    let host: Vec<Declaration> = match manifest {
        ResolutionManifest::Declared(declarations) => read_on_host(declarations, backslash_separates),
        _ => Vec::new(),
    };
    let decls: &Vec<Declaration> = match manifest {
        ResolutionManifest::Absent => &host,
        ResolutionManifest::Declared(_) => &host,
        ResolutionManifest::Malformed { detail } => {
            let mut refused: Vec<String> = Vec::new();
            let n = governed.len();
            let mut i: usize = 0;
            while i < n
                invariant
                    n == governed.len(),
                    i <= n,
                    gv == governed_view(governed@),
                    views(refused@) == gv.take(i as int).map_values(|g: (Seq<char>, bool)| g.0),
                decreases n - i,
            {
                push_refused(&mut refused, governed[i].0.clone());
                assert(gv.take(i + 1).map_values(|g: (Seq<char>, bool)| g.0) =~= gv.take(i as int).map_values(
                    |g: (Seq<char>, bool)| g.0,
                ).push(gv[i as int].0));
                i = i + 1;
            }
            assert(gv.take(n as int) =~= gv);
            let mut quoted = String::from_str("(");
            quoted.append(detail.as_str());
            quoted.append(")");
            push_refused(&mut refused, quoted);
            let plan = ResolutionPlan { staged: Vec::new(), refused };
            assert(staged_views(plan.staged@) =~= Seq::<(Seq<char>, ResolutionKind)>::empty());
            return plan;
        },
    };
    let ghost dv = decls_view(decls@);
    assert(manifest is Absent ==> dv =~= Seq::<(Seq<char>, ResolutionKind)>::empty());
    let mut staged: Vec<DeclaredResolution> = Vec::new();
    let mut refused: Vec<String> = Vec::new();
    let n = governed.len();
    let mut i: usize = 0;
    while i < n
        invariant
            n == governed.len(),
            i <= n,
            gv == governed_view(governed@),
            dv == decls_view(decls@),
            (staged_views(staged@), views(refused@)) == plan_prefix(dv, gv, i as nat),
        decreases n - i,
    {
        let path = &governed[i].0;
        let unmerged_now = governed[i].1;
        assert(gv[i as int] == (path@, unmerged_now));
        let ghost step = step_spec(dv, gv, path@, unmerged_now);
        let ghost s0 = staged_views(staged@);
        let ghost r0 = views(refused@);
        let resolved_exactly = exact(decls, ResolutionKind::Resolved, path.as_str());
        let deleted_exactly = exact(decls, ResolutionKind::Deleted, path.as_str());
        if resolved_exactly && deleted_exactly {
            let mut s = path.clone();
            s.append(" (declared both `resolved` and `deleted`)");
            push_refused(&mut refused, s);
        } else if resolved_exactly {
            match alias(decls, ResolutionKind::Deleted, path.as_str(), &governed) {
                Some(spelling) => push_refused(
                    &mut refused,
                    contradiction(path, ResolutionKind::Resolved, ResolutionKind::Deleted, &spelling),
                ),
                None => push_staged(&mut staged, path, ResolutionKind::Resolved),
            }
        } else if deleted_exactly {
            match alias(decls, ResolutionKind::Resolved, path.as_str(), &governed) {
                Some(spelling) => push_refused(
                    &mut refused,
                    contradiction(path, ResolutionKind::Deleted, ResolutionKind::Resolved, &spelling),
                ),
                None => push_staged(&mut staged, path, ResolutionKind::Deleted),
            }
        } else {
            match alias(decls, ResolutionKind::Resolved, path.as_str(), &governed) {
                Some(spelling) => push_refused(&mut refused, only_alias(path, ResolutionKind::Resolved, &spelling)),
                None => match alias(decls, ResolutionKind::Deleted, path.as_str(), &governed) {
                    Some(spelling) => push_refused(&mut refused, only_alias(path, ResolutionKind::Deleted, &spelling)),
                    None => {
                        if unmerged_now {
                            push_refused(&mut refused, path.clone());
                        }
                    },
                },
            }
        }
        assert(staged_views(staged@) =~= s0 + step.0);
        assert(views(refused@) =~= r0 + step.1);
        i = i + 1;
    }
    ResolutionPlan { staged, refused }
}


proof fn lemma_prefix_refusing_nothing_stages(decls: Seq<(Seq<char>, ResolutionKind)>, governed: Seq<(Seq<char>, bool)>, n: nat)
    requires
        n <= governed.len(),
        plan_prefix(decls, governed, n).1.len() == 0,
    ensures
        forall|j: int| 0 <= j < n && (#[trigger] governed[j]).1 ==> exists|i: int| 0 <= i < plan_prefix(decls, governed, n).0.len()
            && plan_prefix(decls, governed, n).0[i].0 == governed[j].0,
    decreases n,
{
    if n > 0 {
        let before = plan_prefix(decls, governed, (n - 1) as nat);
        let step = step_spec(decls, governed, governed[n - 1].0, governed[n - 1].1);
        let now = plan_prefix(decls, governed, n);
        assert(now == (before.0 + step.0, before.1 + step.1));
        assert(before.1.len() == 0 && step.1.len() == 0);
        lemma_prefix_refusing_nothing_stages(decls, governed, (n - 1) as nat);
        assert forall|j: int| 0 <= j < n && (#[trigger] governed[j]).1 implies exists|i: int| 0 <= i < now.0.len()
            && now.0[i].0 == governed[j].0 by {
            if j < n - 1 {
                let i = choose|i: int| 0 <= i < before.0.len() && before.0[i].0 == governed[j].0;
                assert(now.0[i] == before.0[i]);
            } else {
                assert(step.0.len() == 1 && step.0[0].0 == governed[j].0);
                assert(now.0[before.0.len() as int] == step.0[0]);
            }
        }
    }
}

/// Whether some resolution of `staged` is for `path`.
pub open spec fn stages_path(staged: Seq<(Seq<char>, ResolutionKind)>, path: Seq<char>) -> bool {
    exists|i: int| 0 <= i < staged.len() && staged[i].0 == path
}

/// A conflict repair the engine can capture stages every conflicted path:
/// where the plan refuses nothing, each path still unmerged has a staged
/// resolution.
pub proof fn law_a_plan_refusing_nothing_stages_every_unmerged_path(
    unmerged: Seq<Seq<char>>,
    resolved: Seq<Seq<char>>,
    manifest: ResolutionManifest,
    backslash_separates: bool,
)
    requires
        plan_spec(unmerged, resolved, manifest, backslash_separates).1.len() == 0,
    ensures
        forall|k: int| 0 <= k < unmerged.len() ==> stages_path(
            plan_spec(unmerged, resolved, manifest, backslash_separates).0,
            #[trigger] unmerged[k],
        ),
{
    let governed = governed_spec(unmerged, resolved);
    let plan = plan_spec(unmerged, resolved, manifest, backslash_separates);
    if !(manifest is Malformed) {
        let decls = match manifest {
            ResolutionManifest::Declared(d) => host_decls(d@.map_values(|x: Declaration| decl_view(x)), backslash_separates),
            _ => Seq::empty(),
        };
        assert(plan == plan_prefix(decls, governed, governed.len()));
        lemma_prefix_refusing_nothing_stages(decls, governed, governed.len());
        assert forall|k: int| 0 <= k < unmerged.len() implies stages_path(plan.0, #[trigger] unmerged[k]) by {
            assert(governed[k] == (unmerged[k], true));
            assert(governed[k].1);
            let i = choose|i: int| 0 <= i < plan.0.len() && plan.0[i].0 == governed[k].0;
            assert(plan.0[i].0 == unmerged[k]);
        }
    }
}
} // verus!
