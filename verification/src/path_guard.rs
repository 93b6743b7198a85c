//! Validation of project paths that come from an agent.
//!
//! A path must exist and be a directory. The filesystem root and the user's home
//! directory are always rejected. Where allowed roots are configured, the path must lie
//! under one of them.
use crate::collectors::files;
use crate::text;
use vstd::prelude::*;

verus! {

/// Why a project path was rejected.
#[derive(Clone, Debug)]
pub enum GuardError {
    /// The path, as it was given, could not be resolved.
    NotAccessible(String),
    NotDirectory(String),
    FilesystemRoot,
    HomeDirectory(String),
    /// The path, and the roots that are configured.
    OutsideRoots(String, Vec<String>),
}

/// A rejection as a mathematical value.
pub enum GuardErrorView {
    NotAccessible(Seq<char>),
    NotDirectory(Seq<char>),
    FilesystemRoot,
    HomeDirectory(Seq<char>),
    OutsideRoots(Seq<char>, Seq<Seq<char>>),
}

impl View for GuardError {
    type V = GuardErrorView;

    open spec fn view(&self) -> GuardErrorView {
        match *self {
            GuardError::NotAccessible(p) => GuardErrorView::NotAccessible(p@),
            GuardError::NotDirectory(p) => GuardErrorView::NotDirectory(p@),
            GuardError::FilesystemRoot => GuardErrorView::FilesystemRoot,
            GuardError::HomeDirectory(p) => GuardErrorView::HomeDirectory(p@),
            GuardError::OutsideRoots(p, roots) => GuardErrorView::OutsideRoots(
                p@,
                text::texts(roots@),
            ),
        }
    }
}

/// What a path led to: its canonical form, and whether that is a directory.
#[derive(Debug)]
pub struct Resolved {
    pub canonical: String,
    pub is_dir: bool,
}

/// A canonical path is a directory or lies under it, component by component.
pub open spec fn under(path: Seq<char>, root: Seq<char>) -> bool {
    path == files::bare_dir(root) || text::starts_with(path, files::bare_dir(root) + "/"@)
}

/// The path lies under one of the roots.
pub open spec fn under_any(path: Seq<char>, roots: Seq<Seq<char>>) -> bool {
    exists|i: int| 0 <= i < roots.len() && under(path, #[trigger] roots[i])
}

/// What becomes of a path that was given as `raw`. `place` is its canonical form and
/// whether it is a directory; `roots` are the configured roots, `canonical_roots` the
/// canonical forms of those that exist.
pub open spec fn judged(
    raw: Seq<char>,
    place: Option<(Seq<char>, bool)>,
    home: Option<Seq<char>>,
    roots: Seq<Seq<char>>,
    canonical_roots: Seq<Seq<char>>,
) -> Result<Seq<char>, GuardErrorView> {
    match place {
        None => Err(GuardErrorView::NotAccessible(raw)),
        Some((path, is_dir)) => if !is_dir {
            Err(GuardErrorView::NotDirectory(path))
        } else if path == "/"@ {
            Err(GuardErrorView::FilesystemRoot)
        } else if home == Some(path) {
            Err(GuardErrorView::HomeDirectory(path))
        } else if roots.len() > 0 && !under_any(path, canonical_roots) {
            Err(GuardErrorView::OutsideRoots(path, roots))
        } else {
            Ok(path)
        },
    }
}

pub open spec fn place_view(place: Option<Resolved>) -> Option<(Seq<char>, bool)> {
    match place {
        Some(p) => Some((p.canonical@, p.is_dir)),
        None => None,
    }
}

pub open spec fn verdict_view(r: Result<String, GuardError>) -> Result<Seq<char>, GuardErrorView> {
    match r {
        Ok(p) => Ok(p@),
        Err(e) => Err(e@),
    }
}

/// Does a canonical path lie under a directory?
pub fn is_under(path: &str, root: &str) -> (r: bool)
    ensures
        r == under(path@, root@),
{
    proof {
        reveal_strlit("/");
    }
    let d = text::chars_of(root);
    let n: usize = if d.len() > 0 && d[d.len() - 1] == '/' {
        d.len() - 1
    } else {
        d.len()
    };
    let dir = text::piece(&d, 0, n);
    assert(dir@ =~= files::bare_dir(root@));
    if text::same(path, dir.as_str()) {
        return true;
    }
    let mut prefix = dir;
    prefix.append("/");
    text::has_prefix(path, prefix.as_str())
}

/// Validate a project path from what it was resolved to. The result is its canonical
/// form.
pub fn validate_repo_path(
    raw: &str,
    place: Option<Resolved>,
    home: Option<&str>,
    allowed_roots: &Vec<String>,
    canonical_roots: &Vec<String>,
) -> (r: Result<String, GuardError>)
    ensures
        verdict_view(r) == judged(
            raw@,
            place_view(place),
            text::opt_str(home),
            text::texts(allowed_roots@),
            text::texts(canonical_roots@),
        ),
{
    let place = match place {
        Some(p) => p,
        None => {
            return Err(GuardError::NotAccessible(raw.to_owned()));
        },
    };
    let path = place.canonical;
    if !place.is_dir {
        return Err(GuardError::NotDirectory(path));
    }
    if text::same(path.as_str(), "/") {
        return Err(GuardError::FilesystemRoot);
    }
    match home {
        Some(h) => {
            if text::same(path.as_str(), h) {
                return Err(GuardError::HomeDirectory(path));
            }
        },
        None => {},
    }
    if allowed_roots.len() > 0 {
        let ghost roots = text::texts(canonical_roots@);
        let mut i: usize = 0;
        let mut found = false;
        while i < canonical_roots.len() && !found
            invariant
                i <= canonical_roots@.len(),
                roots == text::texts(canonical_roots@),
                found ==> under_any(path@, roots),
                !found ==> forall|k: int| 0 <= k < i ==> !under(path@, #[trigger] roots[k]),
            decreases canonical_roots@.len() - i,
        {
            assert(roots[i as int] == canonical_roots@[i as int]@);
            if is_under(path.as_str(), canonical_roots[i].as_str()) {
                found = true;
            }
            i = i + 1;
        }
        if !found {
            return Err(GuardError::OutsideRoots(path, text::copy_list(allowed_roots)));
        }
    }
    Ok(path)
}

/// The texts, each quoted, in brackets.
pub open spec fn quoted_list(v: Seq<Seq<char>>) -> Seq<char> {
    "["@ + text::joined(Seq::new(v.len(), |i: int| text::debug_quoted(v[i])), ", "@) + "]"@
}

/// The message of a rejection.
pub open spec fn guard_message(e: GuardErrorView) -> Seq<char> {
    match e {
        GuardErrorView::NotAccessible(p) => "repo_path "@ + text::debug_quoted(p)
            + " is not accessible"@,
        GuardErrorView::NotDirectory(p) => "repo_path "@ + text::debug_quoted(p)
            + " is not a directory"@,
        GuardErrorView::FilesystemRoot => "repo_path / (filesystem root) is not allowed"@,
        GuardErrorView::HomeDirectory(p) => "repo_path "@ + text::debug_quoted(p)
            + " is the user's home directory — point at a project directory instead"@,
        GuardErrorView::OutsideRoots(p, roots) => "repo_path "@ + text::debug_quoted(p)
            + " is outside the configured [security] allowed_roots "@ + quoted_list(roots),
    }
}

fn about(path: &str, what: &str) -> (r: String)
    ensures
        r@ == "repo_path "@ + text::debug_quoted(path@) + what@,
{
    let mut r = "repo_path ".to_owned();
    r.append(text::quoted(path).as_str());
    r.append(what);
    r
}

fn list_quoted(v: &Vec<String>) -> (r: String)
    ensures
        r@ == quoted_list(text::texts(v@)),
{
    let ghost all = text::texts(v@);
    let ghost want = Seq::new(all.len(), |i: int| text::debug_quoted(all[i]));
    let mut parts: Vec<String> = Vec::new();
    let mut i: usize = 0;
    assert(text::texts(parts@) =~= want.take(0));
    while i < v.len()
        invariant
            i <= v@.len(),
            all == text::texts(v@),
            want == Seq::new(all.len(), |i: int| text::debug_quoted(all[i])),
            text::texts(parts@) == want.take(i as int),
        decreases v@.len() - i,
    {
        let ghost before = text::texts(parts@);
        parts.push(text::quoted(v[i].as_str()));
        assert(text::texts(parts@) =~= before.push(want[i as int]));
        i = i + 1;
        assert(want.take(i as int) =~= want.take(i - 1).push(want[i - 1]));
    }
    assert(want.take(i as int) =~= want);
    let mut r = "[".to_owned();
    r.append(text::join(&parts, ", ").as_str());
    r.append("]");
    r
}

impl GuardError {
    pub fn message(&self) -> (r: String)
        ensures
            r@ == guard_message(self@),
    {
        match self {
            GuardError::NotAccessible(p) => about(p.as_str(), " is not accessible"),
            GuardError::NotDirectory(p) => about(p.as_str(), " is not a directory"),
            GuardError::FilesystemRoot => "repo_path / (filesystem root) is not allowed".to_owned(),
            GuardError::HomeDirectory(p) => about(
                p.as_str(),
                " is the user's home directory — point at a project directory instead",
            ),
            GuardError::OutsideRoots(p, roots) => {
                let mut r = about(
                    p.as_str(),
                    " is outside the configured [security] allowed_roots ",
                );
                r.append(list_quoted(roots).as_str());
                r
            },
        }
    }
}

/// A path that is accepted is a directory, neither the filesystem root nor the home
/// directory, and under an allowed root where any are configured.
pub proof fn accepted_paths_are_safe(
    raw: Seq<char>,
    place: Option<(Seq<char>, bool)>,
    home: Option<Seq<char>>,
    roots: Seq<Seq<char>>,
    canonical_roots: Seq<Seq<char>>,
    path: Seq<char>,
)
    requires
        judged(raw, place, home, roots, canonical_roots) == Ok::<Seq<char>, GuardErrorView>(path),
    ensures
        place == Some((path, true)),
        path != "/"@,
        home != Some(path),
        roots.len() > 0 ==> under_any(path, canonical_roots),
{
}

/// Every directory lies under itself, and what is put behind a directory lies under
/// it.
pub proof fn nested_paths_are_under(root: Seq<char>, rest: Seq<char>)
    ensures
        under(files::bare_dir(root), root),
        under(files::bare_dir(root) + "/"@ + rest, root),
{
    reveal_strlit("/");
    let dir = files::bare_dir(root);
    let path = dir + "/"@ + rest;
    assert(path.subrange(0, dir.len() as int + 1) =~= dir + "/"@);
    assert(text::starts_with(path, dir + "/"@));
}

/// A directory that is neither the filesystem root nor the home directory is accepted as
/// it is, where no roots are configured or one of them holds it; nothing else is.
pub proof fn good_paths_are_accepted(
    raw: Seq<char>,
    path: Seq<char>,
    home: Option<Seq<char>>,
    roots: Seq<Seq<char>>,
    canonical_roots: Seq<Seq<char>>,
)
    ensures
        judged(raw, Some((path, true)), home, roots, canonical_roots) is Ok <==> path != "/"@
            && home != Some(path) && (roots.len() == 0 || exists|i: int|
            0 <= i < canonical_roots.len() && under(path, #[trigger] canonical_roots[i])),
        judged(raw, Some((path, false)), home, roots, canonical_roots) is Err,
        judged(raw, None, home, roots, canonical_roots) is Err,
{
}

/// A path that only starts with the name of a directory does not lie under it.
pub proof fn siblings_are_outside(root: Seq<char>, c: char, rest: Seq<char>)
    requires
        root.len() > 0,
        root.last() != '/',
        c != '/',
    ensures
        !under(root + seq![c] + rest, root),
{
    reveal_strlit("/");
    let path = root + seq![c] + rest;
    assert(path.len() > root.len());
    if text::starts_with(path, root + "/"@) {
        assert(path.subrange(0, root.len() as int + 1)[root.len() as int] == c);
        assert((root + "/"@)[root.len() as int] == '/');
    }
}

} // verus!
