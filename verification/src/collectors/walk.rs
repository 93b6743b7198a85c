//! The walk over a project's files, within a budget.
//!
//! The walk asks for one directory at a time. Whoever runs it reads that directory and
//! hands back what it holds.
use crate::collectors::files::child;
use crate::order;
use crate::order::{Ranked, SortKey};
use crate::text;
use vstd::prelude::*;

verus! {

/// Hard caps that bound a single walk.
#[derive(Clone, Copy, Debug)]
pub struct WalkBudget {
    /// Entries (directories and files) visited before the walk stops.
    pub max_entries: usize,
    /// Deepest nesting of directories.
    pub max_depth: usize,
    /// Soft deadline in seconds, to be tested once for each directory.
    pub max_seconds: u64,
}

impl Default for WalkBudget {
    fn default() -> (r: Self)
        ensures
            r.max_entries == 50_000,
            r.max_depth == 48,
            r.max_seconds == 10,
    {
        WalkBudget { max_entries: 50_000, max_depth: 48, max_seconds: 10 }
    }
}

/// What an entry of a directory is. A symbolic link is neither a directory nor a
/// file.
#[derive(Clone, Copy, Debug, PartialEq, Eq, Structural)]
pub enum EntryKind {
    Dir,
    File,
    Other,
}

/// An entry of a directory.
#[derive(Clone, Debug)]
pub struct DirEntry {
    pub name: String,
    pub path: String,
    pub kind: EntryKind,
}

/// An entry as a mathematical value.
pub struct EntryView {
    pub name: Seq<char>,
    pub path: Seq<char>,
    pub kind: EntryKind,
}

impl View for DirEntry {
    type V = EntryView;

    open spec fn view(&self) -> EntryView {
        EntryView { name: self.name@, path: self.path@, kind: self.kind }
    }
}

pub open spec fn entry_views(v: Seq<DirEntry>) -> Seq<EntryView> {
    Seq::new(v.len(), |i: int| v[i]@)
}

pub open spec fn level_views(v: Seq<Vec<DirEntry>>) -> Seq<Seq<EntryView>> {
    Seq::new(v.len(), |i: int| entry_views(v[i]@))
}

/// Why a walk was cut short.
#[derive(Clone, Copy, Debug, PartialEq, Eq, Structural)]
pub enum StopReason {
    Depth,
    Time,
    Entries,
}

impl StopReason {
    pub fn message(&self) -> (r: &'static str)
        ensures
            r@ == match *self {
                StopReason::Depth => "max depth exceeded"@,
                StopReason::Time => "time budget exceeded"@,
                StopReason::Entries => "entry budget exceeded"@,
            },
    {
        match self {
            StopReason::Depth => "max depth exceeded",
            StopReason::Time => "time budget exceeded",
            StopReason::Entries => "entry budget exceeded",
        }
    }
}

/// What came of reading a directory.
#[derive(Debug)]
pub enum Listing {
    /// The deadline had passed, and the directory was not read.
    Expired,
    /// The directory could not be read.
    Unreadable,
    Entries(Vec<DirEntry>),
}

pub enum ListingView {
    Expired,
    Unreadable,
    Entries(Seq<EntryView>),
}

impl View for Listing {
    type V = ListingView;

    open spec fn view(&self) -> ListingView {
        match *self {
            Listing::Expired => ListingView::Expired,
            Listing::Unreadable => ListingView::Unreadable,
            Listing::Entries(v) => ListingView::Entries(entry_views(v@)),
        }
    }
}

/// Names of directories that are never descended into.
pub open spec fn ignored_dirs() -> Seq<Seq<char>> {
    seq![
        ".git"@, "target"@, "node_modules"@, "dist"@, "build"@, ".next"@, ".cache"@, ".vscode"@,
        ".idea"@, "coverage"@, "__pycache__"@, ".venv"@, "venv"@, ".mypy_cache"@,
        ".pytest_cache"@, ".eggs"@, "vendor"@,
    ]
}

/// Is a directory one that is never descended into?
pub fn is_ignored_dir(name: &str) -> (r: bool)
    ensures
        r == ignored_dirs().contains(name@),
{
    let known = vec![
        ".git", "target", "node_modules", "dist", "build", ".next", ".cache", ".vscode", ".idea",
        "coverage", "__pycache__", ".venv", "venv", ".mypy_cache", ".pytest_cache", ".eggs",
        "vendor",
    ];
    text::one_of(name, &known, Ghost(ignored_dirs()))
}

// ---------------------------------------------------------------------------
// Order of entries
// ---------------------------------------------------------------------------

/// Where an entry goes among its siblings: by its name.
pub struct NameOrder(pub Seq<char>);

impl Ranked for NameOrder {
    open spec fn lt(&self, other: &Self) -> bool {
        text::text_lt(self.0, other.0)
    }

    proof fn lt_asymmetric(a: &Self, b: &Self) {
        text::text_lt_asymmetric(a.0, b.0);
    }

    proof fn le_transitive(a: &Self, b: &Self, c: &Self) {
        if text::text_lt(c.0, a.0) {
            if text::text_lt(a.0, b.0) {
                text::text_lt_transitive(c.0, a.0, b.0);
            } else {
                text::text_lt_total(a.0, b.0);
            }
        }
    }
}

/// The name that an entry is sorted by.
pub struct NameKey(pub String);

impl Ranked for NameKey {
    open spec fn lt(&self, other: &Self) -> bool {
        NameOrder(self.0@).lt(&NameOrder(other.0@))
    }

    proof fn lt_asymmetric(a: &Self, b: &Self) {
        NameOrder::lt_asymmetric(&NameOrder(a.0@), &NameOrder(b.0@));
    }

    proof fn le_transitive(a: &Self, b: &Self, c: &Self) {
        NameOrder::le_transitive(&NameOrder(a.0@), &NameOrder(b.0@), &NameOrder(c.0@));
    }
}

impl SortKey for NameKey {
    fn is_lt(&self, other: &Self) -> (r: bool) {
        text::comes_before(self.0.as_str(), other.0.as_str())
    }
}

pub open spec fn with_names(es: Seq<EntryView>) -> Seq<(NameOrder, EntryView)> {
    Seq::new(es.len(), |i: int| (NameOrder(es[i].name), es[i]))
}

/// The entries in the order of their names.
pub open spec fn by_name(es: Seq<EntryView>) -> Seq<EntryView> {
    order::seconds(order::ordered(with_names(es)))
}

fn sort_by_name(es: Vec<DirEntry>) -> (r: Vec<DirEntry>)
    ensures
        entry_views(r@) == by_name(entry_views(es@)),
{
    let ghost all = es@;
    let ghost f = |p: (NameKey, DirEntry)| (NameOrder(p.0.0@), p.1@);
    let mut rest = es;
    let mut pairs: Vec<(NameKey, DirEntry)> = Vec::new();
    assert(all.skip(0) =~= all);
    while rest.len() > 0
        invariant
            pairs@.len() + rest@.len() == all.len(),
            rest@ == all.skip(pairs@.len() as int),
            forall|j: int|
                0 <= j < pairs@.len() ==> (#[trigger] pairs@[j]).0.0@ == all[j].name@
                    && pairs@[j].1 == all[j],
        decreases rest@.len(),
    {
        let ghost n = pairs@.len() as int;
        let e = rest.remove(0);
        pairs.push((NameKey(e.name.clone()), e));
        assert(rest@ =~= all.skip(n + 1));
    }
    proof {
        order::ordered_mapped(pairs@, f);
        assert(order::mapped(pairs@, f) =~= with_names(entry_views(all)));
    }
    let mut sorted = order::sort(pairs);
    let ghost full = sorted@;
    let mut r: Vec<DirEntry> = Vec::new();
    assert(full.skip(0) =~= full);
    while sorted.len() > 0
        invariant
            r@.len() + sorted@.len() == full.len(),
            sorted@ == full.skip(r@.len() as int),
            forall|j: int| 0 <= j < r@.len() ==> #[trigger] r@[j] == full[j].1,
        decreases sorted@.len(),
    {
        let ghost n = r@.len() as int;
        let p = sorted.remove(0);
        r.push(p.1);
        assert(sorted@ =~= full.skip(n + 1));
    }
    assert(entry_views(r@) =~= order::seconds(order::mapped(full, f)));
    r
}

// ---------------------------------------------------------------------------
// The walk
// ---------------------------------------------------------------------------

/// A walk that is under way.
#[derive(Debug)]
pub struct Walk {
    pub budget: WalkBudget,
    /// For each directory that is being walked, the entries still to be visited.
    pub levels: Vec<Vec<DirEntry>>,
    pub visited: usize,
    /// The files found so far.
    pub files: Vec<String>,
    pub stopped: Option<StopReason>,
}

/// A walk as a mathematical value.
pub struct WalkView {
    pub levels: Seq<Seq<EntryView>>,
    pub visited: int,
    pub files: Seq<Seq<char>>,
    pub stopped: Option<StopReason>,
}

impl View for Walk {
    type V = WalkView;

    open spec fn view(&self) -> WalkView {
        WalkView {
            levels: level_views(self.levels@),
            visited: self.visited as int,
            files: text::texts(self.files@),
            stopped: self.stopped,
        }
    }
}

/// A walk that has not begun.
pub open spec fn unbegun() -> WalkView {
    WalkView { levels: Seq::empty(), visited: 0, files: Seq::empty(), stopped: None }
}

/// The walk is within its budget.
pub open spec fn in_budget(s: WalkView, b: WalkBudget) -> bool {
    &&& s.files.len() <= s.visited <= b.max_entries
    &&& s.levels.len() <= b.max_depth + 1
}

pub open spec fn stop(s: WalkView, why: StopReason) -> WalkView {
    WalkView { stopped: Some(why), ..s }
}

/// The walk once the directory that it asked for has been read.
pub open spec fn entered(s: WalkView, listing: ListingView) -> WalkView {
    match listing {
        ListingView::Expired => stop(s, StopReason::Time),
        ListingView::Unreadable => s,
        ListingView::Entries(es) => WalkView { levels: s.levels.push(by_name(es)), ..s },
    }
}

/// The walk with the next entry of the innermost directory taken out.
pub open spec fn visiting(s: WalkView) -> WalkView {
    WalkView {
        levels: s.levels.drop_last().push(s.levels.last().skip(1)),
        visited: s.visited + 1,
        ..s
    }
}

/// The walk gone on until it needs a directory read, whose path comes with it, or
/// until it has ended.
pub open spec fn advanced(s: WalkView, b: WalkBudget) -> (WalkView, Option<Seq<char>>)
    decreases s.levels.len(), s.levels.last().len(),
{
    if s.stopped is Some || s.levels.len() == 0 {
        (s, None)
    } else if s.levels.last().len() == 0 {
        advanced(WalkView { levels: s.levels.drop_last(), ..s }, b)
    } else if s.visited >= b.max_entries {
        (stop(s, StopReason::Entries), None)
    } else {
        let e = s.levels.last()[0];
        let t = visiting(s);
        match e.kind {
            EntryKind::Dir => if ignored_dirs().contains(e.name) {
                advanced(t, b)
            } else if t.levels.len() > b.max_depth {
                (stop(t, StopReason::Depth), None)
            } else {
                (t, Some(e.path))
            },
            EntryKind::File => advanced(WalkView { files: t.files.push(e.path), ..t }, b),
            EntryKind::Other => advanced(t, b),
        }
    }
}

impl Walk {
    /// A walk that is about to read its first directory.
    pub fn new(budget: WalkBudget) -> (r: Self)
        ensures
            r@ == unbegun(),
            r.budget == budget,
            in_budget(r@, budget),
    {
        let r = Walk {
            budget,
            levels: Vec::new(),
            visited: 0,
            files: Vec::new(),
            stopped: None,
        };
        assert(r@.levels =~= unbegun().levels);
        assert(r@.files =~= unbegun().files);
        r
    }
}

fn advance(walk: &mut Walk) -> (r: Option<String>)
    ensures
        (final(walk)@, text::opt_text(r)) == advanced(old(walk)@, old(walk).budget),
        final(walk).budget == old(walk).budget,
{
    let ghost start = walk@;
    let ghost b = walk.budget;
    while walk.stopped.is_none() && walk.levels.len() > 0
        invariant
            start == old(walk)@,
            b == old(walk).budget,
            walk.budget == b,
            advanced(walk@, b) == advanced(start, b),
        ensures
            walk.budget == b,
            advanced(walk@, b) == advanced(start, b),
            walk@.stopped is Some || walk@.levels.len() == 0,
        decreases walk@.levels.len(), walk@.levels.last().len(),
    {
        let ghost before = walk@;
        let mut top = match walk.levels.pop() {
            Some(top) => top,
            None => {
                return None;
            },
        };
        assert(entry_views(top@) == before.levels.last());
        assert(level_views(walk.levels@) =~= before.levels.drop_last());
        if top.len() == 0 {
            continue;
        }
        if walk.visited >= walk.budget.max_entries {
            walk.levels.push(top);
            assert(level_views(walk.levels@) =~= before.levels);
            walk.stopped = Some(StopReason::Entries);
            return None;
        }
        let e = top.remove(0);
        assert(e@ == before.levels.last()[0]);
        assert(entry_views(top@) =~= before.levels.last().skip(1));
        walk.levels.push(top);
        walk.visited = walk.visited + 1;
        assert(level_views(walk.levels@) =~= visiting(before).levels);
        match e.kind {
            EntryKind::Dir => {
                if !is_ignored_dir(e.name.as_str()) {
                    if walk.levels.len() > walk.budget.max_depth {
                        walk.stopped = Some(StopReason::Depth);
                        return None;
                    }
                    return Some(e.path);
                }
            },
            EntryKind::File => {
                let ghost found = text::texts(walk.files@);
                let ghost path = e.path@;
                walk.files.push(e.path);
                assert(text::texts(walk.files@) =~= found.push(path));
            },
            EntryKind::Other => {},
        }
    }
    None
}

/// Take a walk on with what came of reading the directory that it asked for, at
/// first the project's own. The result is the next directory to be read; once there
/// is none the walk has ended, with its files found and with the reason if it was cut
/// short. The walk never leaves its budget, skips symbolic links and unreadable
/// directories, and visits the entries of a directory in the order of their names.
pub fn walk_files(walk: &mut Walk, listing: Listing) -> (r: Option<String>)
    ensures
        (final(walk)@, text::opt_text(r)) == advanced(
            entered(old(walk)@, listing@),
            old(walk).budget,
        ),
        final(walk).budget == old(walk).budget,
{
    let ghost before = walk@;
    match listing {
        Listing::Expired => {
            walk.stopped = Some(StopReason::Time);
        },
        Listing::Unreadable => {},
        Listing::Entries(es) => {
            let level = sort_by_name(es);
            walk.levels.push(level);
            assert(level_views(walk.levels@) =~= entered(before, listing@).levels);
        },
    }
    assert(walk@ == entered(before, listing@));
    advance(walk)
}

// ---------------------------------------------------------------------------
// Laws
// ---------------------------------------------------------------------------

/// However a walk goes on, it visits no more entries, and holds no more nested
/// directories open, than its budget allows. While it goes on it has room for the
/// directory that it asks for.
pub proof fn walks_stay_in_budget(s: WalkView, b: WalkBudget)
    requires
        in_budget(s, b),
    ensures
        in_budget(advanced(s, b).0, b),
        advanced(s, b).1 is Some ==> forall|l: ListingView|
            in_budget(#[trigger] entered(advanced(s, b).0, l), b),
    decreases s.levels.len(), s.levels.last().len(),
{
    if s.stopped is Some || s.levels.len() == 0 {
    } else if s.levels.last().len() == 0 {
        walks_stay_in_budget(WalkView { levels: s.levels.drop_last(), ..s }, b);
    } else if s.visited >= b.max_entries {
    } else {
        let e = s.levels.last()[0];
        let t = visiting(s);
        match e.kind {
            EntryKind::Dir => {
                if ignored_dirs().contains(e.name) {
                    walks_stay_in_budget(t, b);
                }
            },
            EntryKind::File => {
                walks_stay_in_budget(WalkView { files: t.files.push(e.path), ..t }, b);
            },
            EntryKind::Other => {
                walks_stay_in_budget(t, b);
            },
        }
    }
}

/// An entry that a walk still has to visit.
pub open spec fn awaits(s: WalkView, e: EntryView) -> bool {
    exists|l: int| 0 <= l < s.levels.len() && (#[trigger] s.levels[l]).contains(e)
}

/// A file with this path is among the entries that a walk still has to visit.
pub open spec fn awaits_file(s: WalkView, path: Seq<char>) -> bool {
    exists|e: EntryView| #[trigger] awaits(s, e) && e.kind == EntryKind::File && e.path == path
}

/// A directory with this path, and not one to be ignored, is among the entries that a
/// walk still has to visit.
pub open spec fn awaits_dir(s: WalkView, path: Seq<char>) -> bool {
    exists|e: EntryView| #[trigger]
        awaits(s, e) && e.kind == EntryKind::Dir && e.path == path && !ignored_dirs().contains(
            e.name,
        )
}

proof fn awaited_before(s: WalkView, t: WalkView, e: EntryView)
    requires
        s.levels.len() > 0,
        t.levels == s.levels.drop_last() || (s.levels.last().len() > 0 && t.levels == visiting(
            s,
        ).levels),
        awaits(t, e),
    ensures
        awaits(s, e),
{
    let l = choose|l: int| 0 <= l < t.levels.len() && (#[trigger] t.levels[l]).contains(e);
    if l < s.levels.len() - 1 {
        assert(s.levels[l] == t.levels[l]);
    } else {
        let k = choose|k: int| 0 <= k < t.levels[l].len() && t.levels[l][k] == e;
        assert(s.levels[l][k + 1] == e);
    }
}

/// A walk finds only files that a directory listed, in the order in which it comes by
/// them, and asks only for listed directories that are not ignored.
pub proof fn walks_find_what_was_listed(s: WalkView, b: WalkBudget)
    ensures
        s.files.len() <= advanced(s, b).0.files.len(),
        advanced(s, b).0.files.take(s.files.len() as int) == s.files,
        forall|i: int|
            s.files.len() <= i < advanced(s, b).0.files.len() ==> awaits_file(
                s,
                #[trigger] advanced(s, b).0.files[i],
            ),
        advanced(s, b).1 matches Some(path) ==> awaits_dir(s, path),
    decreases s.levels.len(), s.levels.last().len(),
{
    assert(s.files.take(s.files.len() as int) =~= s.files);
    if s.stopped is Some || s.levels.len() == 0 {
    } else if s.levels.last().len() > 0 && s.visited >= b.max_entries {
    } else {
        let (e, t) = if s.levels.last().len() == 0 {
            (arbitrary(), WalkView { levels: s.levels.drop_last(), ..s })
        } else {
            let e = s.levels.last()[0];
            let t = visiting(s);
            (
                e,
                if e.kind == EntryKind::File {
                    WalkView { files: t.files.push(e.path), ..t }
                } else {
                    t
                },
            )
        };
        if s.levels.last().len() > 0 {
            assert(s.levels[s.levels.len() - 1].contains(e));
            assert(awaits(s, e));
        }
        if s.levels.last().len() > 0 && e.kind == EntryKind::Dir && !ignored_dirs().contains(
            e.name,
        ) {
        } else {
            walks_find_what_was_listed(t, b);
            let all = advanced(t, b).0.files;
            assert(all.take(s.files.len() as int) =~= all.take(t.files.len() as int).take(
                s.files.len() as int,
            ));
            assert(t.files.take(s.files.len() as int) =~= s.files);
            assert forall|i: int| s.files.len() <= i < all.len() implies awaits_file(
                s,
                #[trigger] all[i],
            ) by {
                if i < t.files.len() {
                    assert(all.take(t.files.len() as int)[i] == all[i]);
                    assert(awaits(s, e) && e.path == all[i]);
                } else {
                    assert(awaits_file(t, advanced(t, b).0.files[i]));
                    let x = choose|x: EntryView|
                        #[trigger] awaits(t, x) && x.kind == EntryKind::File && x.path == all[i];
                    awaited_before(s, t, x);
                }
            }
            assert(advanced(s, b) == advanced(t, b));
            if advanced(t, b).1 is Some {
                let path = advanced(t, b).1->0;
                let x = choose|x: EntryView|
                    #[trigger] awaits(t, x) && x.kind == EntryKind::Dir && x.path == path
                        && !ignored_dirs().contains(x.name);
                awaited_before(s, t, x);
            }
        }
    }
}

/// The order in which a directory lists its entries, whose names all differ, makes no
/// difference.
pub proof fn listing_order_is_irrelevant(a: Seq<EntryView>, c: Seq<EntryView>)
    requires
        a.to_multiset() == c.to_multiset(),
        forall|i: int, j: int|
            0 <= i < a.len() && 0 <= j < a.len() && i != j ==> (#[trigger] a[i]).name != (
            #[trigger] a[j]).name,
    ensures
        by_name(a) == by_name(c),
{
    let x = by_name(a);
    let y = by_name(c);
    order::ordered_seconds_permutation(with_names(a));
    order::ordered_seconds_permutation(with_names(c));
    assert(order::seconds(with_names(a)) =~= a);
    assert(order::seconds(with_names(c)) =~= c);
    by_name_is_sorted(a);
    by_name_is_sorted(c);
    distinct_names_permuted(a, x);
    sorted_lists_agree(x, y);
}

spec fn names_in_order(s: Seq<EntryView>) -> bool {
    forall|i: int, j: int|
        0 <= i < j < s.len() ==> !text::text_lt(
            (#[trigger] s[j]).name,
            (#[trigger] s[i]).name,
        )
}

spec fn names_differ(s: Seq<EntryView>) -> bool {
    forall|i: int, j: int|
        0 <= i < s.len() && 0 <= j < s.len() && i != j ==> (#[trigger] s[i]).name != (
        #[trigger] s[j]).name
}

proof fn by_name_is_sorted(es: Seq<EntryView>)
    ensures
        names_in_order(by_name(es)),
        by_name(es).len() == es.len(),
{
    let o = order::ordered(with_names(es));
    order::ordered_is_sorted(with_names(es));
    let keyed = |p: (NameOrder, EntryView)| p.0.0 == p.1.name;
    order::ordered_keeps(with_names(es), keyed);
    assert forall|i: int, j: int| 0 <= i < j < by_name(es).len() implies !text::text_lt(
        (#[trigger] by_name(es)[j]).name,
        (#[trigger] by_name(es)[i]).name,
    ) by {
        assert(!o[j].0.lt(&o[i].0));
        assert(keyed(o[i]) && keyed(o[j]));
    }
}

/// Two lists with the same members, one of them with distinct names: so has the other.
proof fn distinct_names_permuted(a: Seq<EntryView>, x: Seq<EntryView>)
    requires
        a.to_multiset() == x.to_multiset(),
        names_differ(a),
    ensures
        names_differ(x),
    decreases a.len(),
{
    broadcast use vstd::seq_lib::group_to_multiset_ensures;

    assert(a.to_multiset().len() == a.len());
    assert(x.to_multiset().len() == x.len());
    if a.len() > 0 {
        let e = a.last();
        assert(a.to_multiset().count(e) > 0) by {
            assert(a.contains(e));
        }
        assert(x.contains(e));
        let k = choose|k: int| 0 <= k < x.len() && x[k] == e;
        let rest = x.remove(k);
        assert(a.drop_last() =~= a.remove(a.len() - 1));
        assert(rest.to_multiset() =~= x.to_multiset().remove(e));
        assert(a.drop_last().to_multiset() =~= a.to_multiset().remove(e));
        distinct_names_permuted(a.drop_last(), rest);
        assert forall|i: int, j: int|
            0 <= i < x.len() && 0 <= j < x.len() && i != j implies (#[trigger] x[i]).name != (
        #[trigger] x[j]).name by {
            let p = if i < k { i } else { i - 1 };
            let q = if j < k { j } else { j - 1 };
            if i != k && j != k {
                assert(rest[p] == x[i] && rest[q] == x[j]);
            } else {
                let o = if i == k { x[j] } else { x[i] };
                let m = if i == k { q } else { p };
                assert(rest[m] == o);
                assert(rest.contains(o));
                assert(rest.to_multiset().count(o) > 0);
                assert(a.drop_last().contains(o));
                let w = choose|w: int| 0 <= w < a.len() - 1 && a.drop_last()[w] == o;
                assert(a[w].name != a[a.len() - 1].name);
            }
        }
    }
}

/// Two lists with the same members, both in the order of names that differ, are one.
proof fn sorted_lists_agree(x: Seq<EntryView>, y: Seq<EntryView>)
    requires
        x.to_multiset() == y.to_multiset(),
        names_in_order(x),
        names_in_order(y),
        names_differ(x),
    ensures
        x == y,
    decreases x.len(),
{
    broadcast use vstd::seq_lib::group_to_multiset_ensures;

    assert(x.to_multiset().len() == x.len());
    assert(y.to_multiset().len() == y.len());
    if x.len() > 0 {
        let e = x.last();
        let n = x.len() - 1;
        assert(x.contains(e));
        assert(x.to_multiset().count(e) > 0);
        assert(y.contains(e));
        let k = choose|k: int| 0 <= k < y.len() && y[k] == e;
        if k != n {
            // The last of `y` stands somewhere in `x`, before its last.
            let z = y.last();
            assert(y.contains(z));
            assert(y.to_multiset().count(z) > 0);
            assert(x.contains(z));
            let m = choose|m: int| 0 <= m < x.len() && x[m] == z;
            assert(!text::text_lt(y[n].name, y[k].name));
            if m < n {
                assert(!text::text_lt(x[n].name, x[m].name));
                text::text_lt_total(x[n].name, x[m].name);
            }
            assert(z == e);
        }
        assert(y.last() == e);
        assert(x.drop_last() =~= x.remove(n));
        assert(y.drop_last() =~= y.remove(n));
        assert(x.drop_last().to_multiset() =~= x.to_multiset().remove(e));
        assert(y.drop_last().to_multiset() =~= y.to_multiset().remove(e));
        assert forall|i: int, j: int| 0 <= i < j < n implies !text::text_lt(
            (#[trigger] x.drop_last()[j]).name,
            (#[trigger] x.drop_last()[i]).name,
        ) by {
            assert(!text::text_lt(x[j].name, x[i].name));
        }
        assert forall|i: int, j: int| 0 <= i < j < n implies !text::text_lt(
            (#[trigger] y.drop_last()[j]).name,
            (#[trigger] y.drop_last()[i]).name,
        ) by {
            assert(!text::text_lt(y[j].name, y[i].name));
        }
        assert forall|i: int, j: int| 0 <= i < n && 0 <= j < n && i != j implies (
        #[trigger] x.drop_last()[i]).name != (#[trigger] x.drop_last()[j]).name by {
            assert(x[i].name != x[j].name);
        }
        sorted_lists_agree(x.drop_last(), y.drop_last());
        assert(x =~= x.drop_last().push(e));
        assert(y =~= y.drop_last().push(e));
    } else {
        assert(x =~= y);
    }
}

// ---------------------------------------------------------------------------
// Whole walks
// ---------------------------------------------------------------------------

/// What the directories on a disk hold, by path; `None` for one that cannot be read.
pub type Disk = spec_fn(Seq<char>) -> Option<Seq<EntryView>>;

/// What comes of reading a directory in time.
pub open spec fn read_dir(disk: Disk, dir: Seq<char>) -> ListingView {
    match disk(dir) {
        Some(es) => ListingView::Entries(es),
        None => ListingView::Unreadable,
    }
}

/// A walk that is handed every directory it asks for, `n` of them at most, and whether
/// it has ended by then.
pub open spec fn ran(s: WalkView, b: WalkBudget, disk: Disk, n: nat) -> (WalkView, bool)
    decreases n,
{
    if n == 0 {
        (s, false)
    } else {
        match advanced(s, b) {
            (t, None) => (t, true),
            (t, Some(dir)) => ran(entered(t, read_dir(disk, dir)), b, disk, (n - 1) as nat),
        }
    }
}

/// A walk from its first directory on.
pub open spec fn walked(root: Seq<char>, b: WalkBudget, disk: Disk, n: nat) -> (WalkView, bool) {
    ran(entered(unbegun(), read_dir(disk, root)), b, disk, n)
}

/// A directory that a walk goes into.
pub open spec fn is_open(e: EntryView) -> bool {
    e.kind == EntryKind::Dir && !ignored_dirs().contains(e.name)
}

/// The entries of a directory in the order of their names; none where it cannot be read.
pub open spec fn listed(disk: Disk, dir: Seq<char>) -> Seq<EntryView> {
    match disk(dir) {
        Some(es) => by_name(es),
        None => Seq::empty(),
    }
}

/// The files among entries and below them, depth first, where `depth` levels of
/// directories may be opened.
pub open spec fn files_among(es: Seq<EntryView>, disk: Disk, depth: nat) -> Seq<Seq<char>>
    decreases depth, es.len(),
{
    if es.len() == 0 {
        Seq::empty()
    } else {
        let e = es[0];
        let rest = files_among(es.skip(1), disk, depth);
        if e.kind == EntryKind::File {
            seq![e.path] + rest
        } else if is_open(e) && depth > 0 {
            files_among(listed(disk, e.path), disk, (depth - 1) as nat) + rest
        } else {
            rest
        }
    }
}

/// How many entries there are among entries and below them.
pub open spec fn entries_among(es: Seq<EntryView>, disk: Disk, depth: nat) -> nat
    decreases depth, es.len(),
{
    if es.len() == 0 {
        0
    } else {
        let rest = entries_among(es.skip(1), disk, depth);
        if is_open(es[0]) && depth > 0 {
            1 + entries_among(listed(disk, es[0].path), disk, (depth - 1) as nat) + rest
        } else {
            1 + rest
        }
    }
}

/// The directories among entries and below them are nested no deeper than `depth`.
pub open spec fn is_shallow(es: Seq<EntryView>, disk: Disk, depth: nat) -> bool
    decreases depth, es.len(),
{
    es.len() == 0 || {
        &&& is_open(es[0]) ==> depth > 0 && is_shallow(
            listed(disk, es[0].path),
            disk,
            (depth - 1) as nat,
        )
        &&& is_shallow(es.skip(1), disk, depth)
    }
}

/// The tree below a directory stays within a budget.
pub open spec fn tree_fits(root: Seq<char>, disk: Disk, b: WalkBudget) -> bool {
    &&& is_shallow(listed(disk, root), disk, b.max_depth as nat)
    &&& entries_among(listed(disk, root), disk, b.max_depth as nat) <= b.max_entries
}

/// A directory lists an entry.
pub open spec fn lists(disk: Disk, dir: Seq<char>, e: EntryView) -> bool {
    disk(dir) matches Some(es) && es.contains(e)
}

/// `way` leads from a directory to a file: each entry but the last is a directory that
/// a walk goes into, and lists the next one.
pub open spec fn is_way(disk: Disk, dir: Seq<char>, way: Seq<EntryView>) -> bool {
    &&& way.len() > 0
    &&& lists(disk, dir, way[0])
    &&& way.last().kind == EntryKind::File
    &&& forall|i: int|
        0 <= i < way.len() - 1 ==> is_open(#[trigger] way[i]) && lists(
            disk,
            way[i].path,
            way[i + 1],
        )
}

/// A file lies below a directory, with no directory that is ignored or unreadable
/// between them.
pub open spec fn lies_below(disk: Disk, dir: Seq<char>, path: Seq<char>) -> bool {
    exists|way: Seq<EntryView>| #[trigger] is_way(disk, dir, way) && way.last().path == path
}

/// The entries are those of a directory: each has a name of its own and stands at that
/// name in the directory.
pub open spec fn are_children(es: Seq<EntryView>, dir: Seq<char>) -> bool {
    &&& forall|i: int|
        0 <= i < es.len() ==> (#[trigger] es[i]).path == child(dir, es[i].name)
            && es[i].name.len() > 0 && !es[i].name.contains('/')
    &&& forall|i: int, j: int|
        0 <= i < es.len() && 0 <= j < es.len() && i != j ==> (#[trigger] es[i]).name != (
        #[trigger] es[j]).name
}

/// A disk as a file system shows it.
pub open spec fn is_file_system(disk: Disk) -> bool {
    forall|dir: Seq<char>| (#[trigger] disk(dir)) matches Some(es) ==> are_children(es, dir)
}

/// Below a directory whose tree stays within the budget, a walk that is not out of time
/// ends by itself and finds every file that lies there, each exactly once, depth first
/// and in the order of the names in each directory.
pub proof fn walks_find_every_file(root: Seq<char>, b: WalkBudget, disk: Disk, n: nat)
    requires
        tree_fits(root, disk, b),
        is_file_system(disk),
        n > b.max_entries,
    ensures
        walked(root, b, disk, n).1,
        walked(root, b, disk, n).0.stopped is None,
        walked(root, b, disk, n).0.files == files_among(
            listed(disk, root),
            disk,
            b.max_depth as nat,
        ),
        walked(root, b, disk, n).0.files.no_duplicates(),
        forall|path: Seq<char>| #[trigger]
            walked(root, b, disk, n).0.files.contains(path) <==> lies_below(disk, root, path),
{
    let s = entered(unbegun(), read_dir(disk, root));
    let es = listed(disk, root);
    let max = b.max_depth as nat;
    let files = files_among(es, disk, max);
    if disk(root) is Some {
        assert(s.levels =~= seq![es]);
        assert(s.levels.drop_last() =~= Seq::empty());
        assert(s.levels.last() == es);
        assert(depth_left(s.levels, b) == max);
        assert(files_ahead(s.levels.drop_last(), disk, b) =~= Seq::empty());
        assert(entries_ahead(s.levels.drop_last(), disk, b) == 0);
        assert(shallow_ahead(s.levels.drop_last(), disk, b));
        assert(files_ahead(s.levels, disk, b) =~= files);
    } else {
        assert(files_ahead(s.levels, disk, b) =~= files);
    }
    runs_find_files_ahead(s, b, disk, n);
    assert(s.files + files =~= files);
    listed_children(disk, root);
    files_do_not_repeat(es, disk, max, root);
    assert forall|path: Seq<char>| #[trigger] files.contains(path) <==> lies_below(
        disk,
        root,
        path,
    ) by {
        if files.contains(path) {
            let way = way_to(es, disk, max, path);
            listed_members(disk, root, way[0]);
            assert(is_way(disk, root, way));
        }
        if lies_below(disk, root, path) {
            let way = choose|way: Seq<EntryView>|
                #[trigger] is_way(disk, root, way) && way.last().path == path;
            listed_members(disk, root, way[0]);
            way_is_found(es, disk, max, way);
        }
    }
}

/// Two walks over the same tree go the same way, in whatever order the directories list
/// their entries.
pub proof fn walks_repeat(root: Seq<char>, b: WalkBudget, disk: Disk, other: Disk, n: nat)
    requires
        is_file_system(disk),
        forall|dir: Seq<char>|
            match (#[trigger] disk(dir), other(dir)) {
                (Some(x), Some(y)) => x.to_multiset() == y.to_multiset(),
                (None, None) => true,
                _ => false,
            },
    ensures
        walked(root, b, disk, n) == walked(root, b, other, n),
{
    same_entry(unbegun(), disk, other, root);
    runs_repeat(entered(unbegun(), read_dir(disk, root)), b, disk, other, n);
}

proof fn same_entry(s: WalkView, disk: Disk, other: Disk, dir: Seq<char>)
    requires
        is_file_system(disk),
        forall|dir: Seq<char>|
            match (#[trigger] disk(dir), other(dir)) {
                (Some(x), Some(y)) => x.to_multiset() == y.to_multiset(),
                (None, None) => true,
                _ => false,
            },
    ensures
        entered(s, read_dir(disk, dir)) == entered(s, read_dir(other, dir)),
{
    if disk(dir) is Some {
        listing_order_is_irrelevant(disk(dir)->0, other(dir)->0);
    }
}

proof fn runs_repeat(s: WalkView, b: WalkBudget, disk: Disk, other: Disk, n: nat)
    requires
        is_file_system(disk),
        forall|dir: Seq<char>|
            match (#[trigger] disk(dir), other(dir)) {
                (Some(x), Some(y)) => x.to_multiset() == y.to_multiset(),
                (None, None) => true,
                _ => false,
            },
    ensures
        ran(s, b, disk, n) == ran(s, b, other, n),
    decreases n,
{
    if n > 0 {
        let (t, next) = advanced(s, b);
        if next is Some {
            same_entry(t, disk, other, next->0);
            runs_repeat(
                entered(t, read_dir(disk, next->0)),
                b,
                disk,
                other,
                (n - 1) as nat,
            );
        }
    }
}

/// How many levels of directories may be opened below a level.
spec fn depth_left(levels: Seq<Seq<EntryView>>, b: WalkBudget) -> nat {
    if levels.len() <= b.max_depth + 1 {
        (b.max_depth + 1 - levels.len()) as nat
    } else {
        0
    }
}

/// The files that a walk still comes by.
spec fn files_ahead(levels: Seq<Seq<EntryView>>, disk: Disk, b: WalkBudget) -> Seq<Seq<char>>
    decreases levels.len(),
{
    if levels.len() == 0 {
        Seq::empty()
    } else {
        files_among(levels.last(), disk, depth_left(levels, b)) + files_ahead(
            levels.drop_last(),
            disk,
            b,
        )
    }
}

spec fn entries_ahead(levels: Seq<Seq<EntryView>>, disk: Disk, b: WalkBudget) -> nat
    decreases levels.len(),
{
    if levels.len() == 0 {
        0
    } else {
        entries_among(levels.last(), disk, depth_left(levels, b)) + entries_ahead(
            levels.drop_last(),
            disk,
            b,
        )
    }
}

spec fn shallow_ahead(levels: Seq<Seq<EntryView>>, disk: Disk, b: WalkBudget) -> bool
    decreases levels.len(),
{
    levels.len() == 0 || {
        &&& is_shallow(levels.last(), disk, depth_left(levels, b))
        &&& shallow_ahead(levels.drop_last(), disk, b)
    }
}

/// What is ahead of a walk can be walked within the budget.
spec fn fits_ahead(s: WalkView, b: WalkBudget, disk: Disk) -> bool {
    &&& s.stopped is None
    &&& s.levels.len() <= b.max_depth + 1
    &&& shallow_ahead(s.levels, disk, b)
    &&& s.visited + entries_ahead(s.levels, disk, b) <= b.max_entries
}

/// Going on until a directory is to be read, and reading it, takes nothing away from
/// what is found in the end.
proof fn advancing_keeps_files(s: WalkView, b: WalkBudget, disk: Disk)
    requires
        fits_ahead(s, b, disk),
    ensures
        match advanced(s, b) {
            (t, None) => t.stopped is None && t.files == s.files + files_ahead(s.levels, disk, b),
            (t, Some(dir)) => {
                let u = entered(t, read_dir(disk, dir));
                &&& fits_ahead(u, b, disk)
                &&& u.files + files_ahead(u.levels, disk, b) == s.files + files_ahead(
                    s.levels,
                    disk,
                    b,
                )
                &&& u.visited + entries_ahead(u.levels, disk, b) == s.visited + entries_ahead(
                    s.levels,
                    disk,
                    b,
                )
                &&& u.visited > s.visited
            },
        },
    decreases s.levels.len(), s.levels.last().len(),
{
    if s.levels.len() == 0 {
        assert(s.files + files_ahead(s.levels, disk, b) =~= s.files);
    } else if s.levels.last().len() == 0 {
        let t = WalkView { levels: s.levels.drop_last(), ..s };
        assert(files_ahead(s.levels, disk, b) =~= files_ahead(t.levels, disk, b));
        advancing_keeps_files(t, b, disk);
    } else {
        let last = s.levels.last();
        let e = last[0];
        let t = visiting(s);
        let left = depth_left(s.levels, b);
        assert(t.levels.last() == last.skip(1));
        assert(t.levels.drop_last() =~= s.levels.drop_last());
        assert(depth_left(t.levels, b) == left);
        assert(entries_among(last, disk, left) >= 1);
        let below = files_ahead(s.levels.drop_last(), disk, b);
        if e.kind == EntryKind::File {
            let u = WalkView { files: t.files.push(e.path), ..t };
            assert(u.files + files_ahead(u.levels, disk, b) =~= s.files + files_ahead(
                s.levels,
                disk,
                b,
            ));
            advancing_keeps_files(u, b, disk);
        } else if is_open(e) {
            assert(left > 0);
            let u = entered(t, read_dir(disk, e.path));
            let found = files_among(listed(disk, e.path), disk, (left - 1) as nat);
            assert(advanced(s, b) == (t, Some(e.path)));
            assert(files_ahead(t.levels, disk, b) == files_among(last.skip(1), disk, left)
                + below);
            if disk(e.path) is Some {
                assert(u.levels.drop_last() =~= t.levels);
                assert(u.levels.last() == listed(disk, e.path));
                assert(depth_left(u.levels, b) == left - 1);
                assert(files_ahead(u.levels, disk, b) == found + files_ahead(t.levels, disk, b));
                assert(shallow_ahead(t.levels, disk, b));
                assert(shallow_ahead(u.levels, disk, b));
                assert(entries_ahead(u.levels, disk, b) == entries_among(
                    listed(disk, e.path),
                    disk,
                    (left - 1) as nat,
                ) + entries_ahead(t.levels, disk, b));
            } else {
                assert(entries_among(listed(disk, e.path), disk, (left - 1) as nat) == 0);
            }
            assert(entries_ahead(t.levels, disk, b) == entries_among(last.skip(1), disk, left)
                + entries_ahead(s.levels.drop_last(), disk, b));
            assert(files_ahead(u.levels, disk, b) =~= files_ahead(s.levels, disk, b));
            assert(u.visited + entries_ahead(u.levels, disk, b) == s.visited + entries_ahead(
                s.levels,
                disk,
                b,
            ));
        } else {
            assert(advanced(s, b) == advanced(t, b));
            advancing_keeps_files(t, b, disk);
        }
    }
}

proof fn runs_find_files_ahead(s: WalkView, b: WalkBudget, disk: Disk, n: nat)
    requires
        fits_ahead(s, b, disk),
        n > b.max_entries - s.visited,
    ensures
        ran(s, b, disk, n).1,
        ran(s, b, disk, n).0.stopped is None,
        ran(s, b, disk, n).0.files == s.files + files_ahead(s.levels, disk, b),
    decreases n,
{
    advancing_keeps_files(s, b, disk);
    let (t, next) = advanced(s, b);
    if next is Some {
        runs_find_files_ahead(
            entered(t, read_dir(disk, next->0)),
            b,
            disk,
            (n - 1) as nat,
        );
    }
}

/// Sorting keeps the entries of a directory.
proof fn listed_members(disk: Disk, dir: Seq<char>, e: EntryView)
    ensures
        listed(disk, dir).contains(e) <==> lists(disk, dir, e),
{
    broadcast use vstd::seq_lib::group_to_multiset_ensures;

    if disk(dir) is Some {
        let es = disk(dir)->0;
        order::ordered_seconds_permutation(with_names(es));
        assert(order::seconds(with_names(es)) =~= es);
        assert(by_name(es).to_multiset().count(e) == es.to_multiset().count(e));
    }
}

proof fn listed_children(disk: Disk, dir: Seq<char>)
    requires
        is_file_system(disk),
    ensures
        are_children(listed(disk, dir), dir),
{
    if disk(dir) is Some {
        let es = disk(dir)->0;
        let found = by_name(es);
        assert(are_children(es, dir));
        order::ordered_seconds_permutation(with_names(es));
        assert(order::seconds(with_names(es)) =~= es);
        distinct_names_permuted(es, found);
        assert forall|i: int| 0 <= i < found.len() implies (#[trigger] found[i]).path == child(
            dir,
            found[i].name,
        ) && found[i].name.len() > 0 && !found[i].name.contains('/') by {
            listed_members(disk, dir, found[i]);
            assert(found.contains(found[i]));
            let k = choose|k: int| 0 <= k < es.len() && es[k] == found[i];
            assert(es[k].path == child(dir, es[k].name));
        }
    }
}

/// `way` leads from one of the entries to a file.
spec fn is_way_from(es: Seq<EntryView>, disk: Disk, way: Seq<EntryView>) -> bool {
    &&& way.len() > 0
    &&& es.contains(way[0])
    &&& way.last().kind == EntryKind::File
    &&& forall|i: int|
        0 <= i < way.len() - 1 ==> is_open(#[trigger] way[i]) && lists(
            disk,
            way[i].path,
            way[i + 1],
        )
}

/// The way to a file that is found.
proof fn way_to(es: Seq<EntryView>, disk: Disk, depth: nat, path: Seq<char>) -> (way: Seq<EntryView>)
    requires
        files_among(es, disk, depth).contains(path),
    ensures
        is_way_from(es, disk, way),
        way.last().path == path,
    decreases depth, es.len(),
{
    let e = es[0];
    let rest = files_among(es.skip(1), disk, depth);
    let all = files_among(es, disk, depth);
    let k = choose|k: int| 0 <= k < all.len() && all[k] == path;
    if e.kind == EntryKind::File && k == 0 {
        seq![e]
    } else {
        let inner = files_among(listed(disk, e.path), disk, (depth - 1) as nat);
        let first: int = if e.kind == EntryKind::File {
            1
        } else if is_open(e) && depth > 0 {
            inner.len() as int
        } else {
            0
        };
        if k < first {
            assert(inner[k] == path);
            let tail = way_to(listed(disk, e.path), disk, (depth - 1) as nat, path);
            let way = seq![e] + tail;
            listed_members(disk, e.path, tail[0]);
            assert forall|i: int| 0 <= i < way.len() - 1 implies is_open(#[trigger] way[i])
                && lists(disk, way[i].path, way[i + 1]) by {
                if i > 0 {
                    assert(way[i] == tail[i - 1] && way[i + 1] == tail[i]);
                } else {
                    assert(way[1] == tail[0]);
                }
            }
            assert(way.last() == tail.last());
            assert(es.contains(way[0]));
            way
        } else {
            assert(rest[k - first] == path);
            let way = way_to(es.skip(1), disk, depth, path);
            let j = choose|j: int| 0 <= j < es.skip(1).len() && es.skip(1)[j] == way[0];
            assert(es[j + 1] == way[0]);
            way
        }
    }
}

/// The file at the end of a way is found.
proof fn way_is_found(es: Seq<EntryView>, disk: Disk, depth: nat, way: Seq<EntryView>)
    requires
        is_way_from(es, disk, way),
        is_shallow(es, disk, depth),
    ensures
        files_among(es, disk, depth).contains(way.last().path),
    decreases depth, es.len(),
{
    let e = es[0];
    let rest = files_among(es.skip(1), disk, depth);
    let all = files_among(es, disk, depth);
    let path = way.last().path;
    if e == way[0] {
        if way.len() == 1 {
            assert(all[0] == path);
        } else {
            let tail = way.skip(1);
            let below = listed(disk, e.path);
            assert(is_open(way[0]) && lists(disk, way[0].path, way[1]));
            listed_members(disk, e.path, tail[0]);
            assert forall|i: int| 0 <= i < tail.len() - 1 implies is_open(#[trigger] tail[i])
                && lists(disk, tail[i].path, tail[i + 1]) by {
                assert(is_open(way[i + 1]) && lists(disk, way[i + 1].path, way[i + 1 + 1]));
            }
            way_is_found(below, disk, (depth - 1) as nat, tail);
            let inner = files_among(below, disk, (depth - 1) as nat);
            let k = choose|k: int| 0 <= k < inner.len() && inner[k] == path;
            assert(all[k] == path);
        }
    } else {
        let j = choose|j: int| 0 <= j < es.len() && es[j] == way[0];
        assert(es.skip(1)[j - 1] == way[0]);
        way_is_found(es.skip(1), disk, depth, way);
        let k = choose|k: int| 0 <= k < rest.len() && rest[k] == path;
        assert(all[all.len() - rest.len() + k] == path);
    }
}

/// A path is another one or lies below it.
spec fn within(path: Seq<char>, top: Seq<char>) -> bool {
    path == top || (path.len() > top.len() && path.take(top.len() as int) == top
        && path[top.len() as int] == '/')
}

/// What is found lies within one of the entries.
proof fn found_within(
    es: Seq<EntryView>,
    disk: Disk,
    depth: nat,
    dir: Seq<char>,
    path: Seq<char>,
) -> (k: int)
    requires
        is_file_system(disk),
        are_children(es, dir),
        files_among(es, disk, depth).contains(path),
    ensures
        0 <= k < es.len(),
        within(path, es[k].path),
    decreases depth, es.len(),
{
    let e = es[0];
    let rest = files_among(es.skip(1), disk, depth);
    let all = files_among(es, disk, depth);
    let at = choose|k: int| 0 <= k < all.len() && all[k] == path;
    if rest.contains(path) {
        children_skip(es, dir);
        let j = found_within(es.skip(1), disk, depth, dir, path);
        j + 1
    } else {
        if at >= all.len() - rest.len() {
            assert(rest[at - (all.len() - rest.len())] == path);
        }
        if e.kind != EntryKind::File {
            let inner = files_among(listed(disk, e.path), disk, (depth - 1) as nat);
            assert(inner[at] == path);
            listed_children(disk, e.path);
            let j = found_within(
                listed(disk, e.path),
                disk,
                (depth - 1) as nat,
                e.path,
                path,
            );
            let below = listed(disk, e.path)[j];
            assert(e.path.last() == e.name.last());
            assert(e.name.contains(e.name.last()));
            assert(below.path == e.path.push('/') + below.name);
            assert(path.take(e.path.len() as int) =~= e.path);
            assert(path[e.path.len() as int] == below.path[e.path.len() as int]) by {
                assert(path.take(below.path.len() as int) == below.path || path == below.path);
                assert(path.take(below.path.len() as int)[e.path.len() as int]
                    == path[e.path.len() as int]);
                assert(path.take(below.path.len() as int) =~= below.path);
            }
        }
        0
    }
}

proof fn children_skip(es: Seq<EntryView>, dir: Seq<char>)
    requires
        are_children(es, dir),
        es.len() > 0,
    ensures
        are_children(es.skip(1), dir),
{
    let tail = es.skip(1);
    assert forall|i: int| 0 <= i < tail.len() implies (#[trigger] tail[i]).path == child(
        dir,
        tail[i].name,
    ) && tail[i].name.len() > 0 && !tail[i].name.contains('/') by {
        assert(es[i + 1].path == child(dir, es[i + 1].name));
    }
    assert forall|i: int, j: int|
        0 <= i < tail.len() && 0 <= j < tail.len() && i != j implies (#[trigger] tail[i]).name != (
    #[trigger] tail[j]).name by {
        assert(es[i + 1].name != es[j + 1].name);
    }
}

/// A path lies within one entry of a directory only.
proof fn within_one(path: Seq<char>, dir: Seq<char>, a: Seq<char>, c: Seq<char>)
    requires
        within(path, child(dir, a)),
        within(path, child(dir, c)),
        !a.contains('/'),
        !c.contains('/'),
        a.len() <= c.len(),
    ensures
        a == c,
{
    let x = child(dir, a);
    let y = child(dir, c);
    let n = x.len() - a.len();
    assert(path.take(x.len() as int) =~= x);
    assert(path.take(y.len() as int) =~= y);
    if a.len() < c.len() {
        assert(path.take(y.len() as int)[x.len() as int] == path[x.len() as int]);
        assert(y[x.len() as int] == c[a.len() as int]);
        assert(c.contains(c[a.len() as int]));
    } else {
        assert forall|i: int| 0 <= i < a.len() implies a[i] == c[i] by {
            assert(x[n + i] == a[i] && y[n + i] == c[i]);
            assert(x[n + i] == path[n + i] && y[n + i] == path[n + i]);
        }
        assert(a =~= c);
    }
}

/// No file is found twice.
proof fn files_do_not_repeat(es: Seq<EntryView>, disk: Disk, depth: nat, dir: Seq<char>)
    requires
        is_file_system(disk),
        are_children(es, dir),
    ensures
        files_among(es, disk, depth).no_duplicates(),
    decreases depth, es.len(),
{
    if es.len() > 0 {
        let e = es[0];
        let tail = es.skip(1);
        let rest = files_among(tail, disk, depth);
        let all = files_among(es, disk, depth);
        let first = all.take(all.len() - rest.len());
        children_skip(es, dir);
        files_do_not_repeat(tail, disk, depth, dir);
        if is_open(e) && depth > 0 {
            let below = listed(disk, e.path);
            listed_children(disk, e.path);
            files_do_not_repeat(below, disk, (depth - 1) as nat, e.path);
            assert(first =~= files_among(below, disk, (depth - 1) as nat));
        } else if e.kind == EntryKind::File {
            assert(first =~= seq![e.path]);
        } else {
            assert(first =~= Seq::empty());
        }
        assert(all =~= first + rest);
        assert(first.no_duplicates());
        assert forall|i: int, j: int| 0 <= i < first.len() && 0 <= j < rest.len() implies first[i]
            != rest[j] by {
            if first[i] == rest[j] {
                let path = rest[j];
                assert(rest.contains(path));
                let k = found_within(tail, disk, depth, dir, path);
                assert(tail[k] == es[k + 1]);
                let only = seq![e];
                assert(only.skip(1) =~= Seq::empty());
                assert(files_among(only.skip(1), disk, depth) =~= Seq::empty());
                assert(files_among(only, disk, depth) =~= first);
                assert(files_among(only, disk, depth)[i] == path);
                assert(are_children(only, dir));
                let z = found_within(only, disk, depth, dir, path);
                assert(es[0].name != es[k + 1].name);
                assert(es[0].path == child(dir, es[0].name));
                assert(es[k + 1].path == child(dir, es[k + 1].name));
                if e.name.len() <= tail[k].name.len() {
                    within_one(path, dir, e.name, tail[k].name);
                } else {
                    within_one(path, dir, tail[k].name, e.name);
                }
            }
        }
        assert forall|i: int, j: int|
            0 <= i < all.len() && 0 <= j < all.len() && i != j implies all[i] != all[j] by {
            let m = first.len() as int;
            if i < m && j < m {
                assert(first[i] != first[j]);
            } else if i < m {
                assert(first[i] != rest[j - m]);
            } else if j < m {
                assert(first[j] != rest[i - m]);
            } else {
                assert(rest[i - m] != rest[j - m]);
            }
        }
    }
}

/// A walk goes around the directories of version control, builds, dependencies, caches and
/// editors, and around no other.
pub proof fn ignored_directories(name: Seq<char>)
    ensures
        ignored_dirs().contains(name) <==> {
            ||| name == ".git"@
            ||| name == "target"@
            ||| name == "node_modules"@
            ||| name == "dist"@
            ||| name == "build"@
            ||| name == ".next"@
            ||| name == ".cache"@
            ||| name == ".vscode"@
            ||| name == ".idea"@
            ||| name == "coverage"@
            ||| name == "__pycache__"@
            ||| name == ".venv"@
            ||| name == "venv"@
            ||| name == ".mypy_cache"@
            ||| name == ".pytest_cache"@
            ||| name == ".eggs"@
            ||| name == "vendor"@
        },
{
    let all = ignored_dirs();
    assert(all[0] == ".git"@);
    assert(all[1] == "target"@);
    assert(all[2] == "node_modules"@);
    assert(all[3] == "dist"@);
    assert(all[4] == "build"@);
    assert(all[5] == ".next"@);
    assert(all[6] == ".cache"@);
    assert(all[7] == ".vscode"@);
    assert(all[8] == ".idea"@);
    assert(all[9] == "coverage"@);
    assert(all[10] == "__pycache__"@);
    assert(all[11] == ".venv"@);
    assert(all[12] == "venv"@);
    assert(all[13] == ".mypy_cache"@);
    assert(all[14] == ".pytest_cache"@);
    assert(all[15] == ".eggs"@);
    assert(all[16] == "vendor"@);
}

} // verus!
