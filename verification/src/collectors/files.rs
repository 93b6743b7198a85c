//! Paths and contents of the files that are collected.
use crate::text;
use vstd::prelude::*;

verus! {

// ---------------------------------------------------------------------------
// Paths
// ---------------------------------------------------------------------------

/// The last position of a character.
pub open spec fn last_index(s: Seq<char>, c: char) -> Option<int>
    decreases s.len(),
{
    if s.len() == 0 {
        None
    } else if s.last() == c {
        Some(s.len() - 1)
    } else {
        last_index(s.drop_last(), c)
    }
}

/// A part of a path that names nothing: an empty one, or the current directory.
pub open spec fn is_void(part: Seq<char>) -> bool {
    part.len() == 0 || part == "."@
}

/// The parts of a path without those at its end that name nothing.
pub open spec fn settled(parts: Seq<Seq<char>>) -> Seq<Seq<char>>
    decreases parts.len(),
{
    if parts.len() > 0 && is_void(parts.last()) {
        settled(parts.drop_last())
    } else {
        parts
    }
}

/// The name that a path ends in; none where it ends in nothing or in `..`.
pub open spec fn final_name(path: Seq<char>) -> Option<Seq<char>> {
    let parts = settled(text::split(path, '/'));
    if parts.len() == 0 || parts.last() == ".."@ {
        None
    } else {
        Some(parts.last())
    }
}

/// The name that a path ends in; empty where there is none.
pub open spec fn base_name(path: Seq<char>) -> Seq<char> {
    match final_name(path) {
        Some(name) => name,
        None => Seq::empty(),
    }
}

/// What follows the last dot of a file name; empty where there is no dot but a
/// leading one.
pub open spec fn extension(name: Seq<char>) -> Seq<char> {
    match last_index(name, '.') {
        Some(i) => if i == 0 {
            Seq::empty()
        } else {
            name.skip(i + 1)
        },
        None => Seq::empty(),
    }
}

/// A directory without the slash at its end.
pub open spec fn bare_dir(root: Seq<char>) -> Seq<char> {
    if root.len() > 0 && root.last() == '/' {
        root.drop_last()
    } else {
        root
    }
}

/// What a path starts with: the root, the current directory, or neither.
pub open spec fn lead(path: Seq<char>) -> Option<char> {
    if path.len() > 0 && path[0] == '/' {
        Some('/')
    } else if text::split(path, '/')[0] == "."@ {
        Some('.')
    } else {
        None
    }
}

/// The parts of a path behind its lead.
pub open spec fn body(path: Seq<char>) -> Seq<Seq<char>> {
    match lead(path) {
        Some(_) => text::split(path, '/').skip(1),
        None => text::split(path, '/'),
    }
}

/// The parts that name something.
pub open spec fn named(parts: Seq<Seq<char>>) -> Seq<Seq<char>>
    decreases parts.len(),
{
    if parts.len() == 0 {
        Seq::empty()
    } else if is_void(parts[0]) {
        named(parts.skip(1))
    } else {
        seq![parts[0]] + named(parts.skip(1))
    }
}

/// The components of a path: its lead, and the parts that name something.
pub open spec fn components(path: Seq<char>) -> Seq<Seq<char>> {
    match lead(path) {
        Some(c) => seq![seq![c]] + named(body(path)),
        None => named(body(path)),
    }
}

/// The parts behind the first `k` that name something.
pub open spec fn behind(parts: Seq<Seq<char>>, k: nat) -> Seq<Seq<char>>
    decreases parts.len(),
{
    if k == 0 || parts.len() == 0 {
        parts
    } else if is_void(parts[0]) {
        behind(parts.skip(1), k)
    } else {
        behind(parts.skip(1), (k - 1) as nat)
    }
}

/// The parts from the first that names something on.
pub open spec fn unled(parts: Seq<Seq<char>>) -> Seq<Seq<char>>
    decreases parts.len(),
{
    if parts.len() > 0 && is_void(parts[0]) {
        unled(parts.skip(1))
    } else {
        parts
    }
}

/// A path from its component `n` to its last one, as it is written.
pub open spec fn from_component(path: Seq<char>, n: nat) -> Seq<char> {
    match lead(path) {
        Some(c) => if n == 0 {
            let rest = settled(body(path));
            if c == '.' && rest.len() > 0 {
                "./"@ + text::joined(rest, "/"@)
            } else {
                seq![c] + text::joined(rest, "/"@)
            }
        } else {
            text::joined(settled(unled(behind(body(path), (n - 1) as nat))), "/"@)
        },
        None => text::joined(settled(unled(behind(body(path), n))), "/"@),
    }
}

/// A path relative to a directory: what follows the components of the directory where
/// the path starts with them, else the path itself.
pub open spec fn relative(path: Seq<char>, root: Seq<char>) -> Seq<char> {
    if components(root).is_prefix_of(components(path)) {
        from_component(path, components(root).len())
    } else {
        path
    }
}

fn find_last(v: &Vec<char>, c: char) -> (r: Option<usize>)
    ensures
        match r {
            Some(i) => last_index(v@, c) == Some(i as int) && i < v@.len(),
            None => last_index(v@, c) is None,
        },
{
    let mut i: usize = v.len();
    assert(v@.take(i as int) =~= v@);
    while i > 0
        invariant
            i <= v@.len(),
            last_index(v@, c) == last_index(v@.take(i as int), c),
        decreases i,
    {
        if v[i - 1] == c {
            return Some(i - 1);
        }
        assert(v@.take(i as int).drop_last() =~= v@.take(i - 1));
        i = i - 1;
    }
    None
}

fn void(part: &str) -> (r: bool)
    ensures
        r == is_void(part@),
{
    part.is_empty() || text::same(part, ".")
}

/// The name that a path ends in.
fn last_name(path: &str) -> (r: Option<String>)
    ensures
        text::opt_text(r) == final_name(path@),
{
    let parts = text::split_at_char(path, '/');
    let ghost all = text::texts(parts@);
    let n: usize = settled_end(&parts, 0);
    assert(all.subrange(0, n as int) =~= settled(all)) by {
        assert(all.skip(0) =~= all);
    }
    if n == 0 {
        return None;
    }
    let name = parts[n - 1].as_str();
    assert(settled(all).last() == name@);
    if text::same(name, "..") {
        None
    } else {
        Some(name.to_owned())
    }
}

/// Where the parts from `from` on end, those at the end left out that name nothing.
fn settled_end(parts: &Vec<String>, from: usize) -> (n: usize)
    requires
        from <= parts@.len(),
    ensures
        from <= n <= parts@.len(),
        settled(text::texts(parts@).skip(from as int)) == text::texts(parts@).subrange(
            from as int,
            n as int,
        ),
{
    let ghost all = text::texts(parts@);
    let mut n: usize = parts.len();
    assert(all.subrange(from as int, n as int) =~= all.skip(from as int));
    while n > from && void(parts[n - 1].as_str())
        invariant
            from <= n <= parts@.len(),
            all == text::texts(parts@),
            settled(all.subrange(from as int, n as int)) == settled(all.skip(from as int)),
        ensures
            n == from || !is_void(all[n - 1]),
        decreases n,
    {
        assert(all.subrange(from as int, n as int).last() == parts@[n - 1]@);
        assert(all.subrange(from as int, n as int).drop_last() =~= all.subrange(
            from as int,
            n - 1,
        ));
        n = n - 1;
    }
    if n > from {
        assert(all.subrange(from as int, n as int).last() == all[n - 1]);
    }
    n
}

pub fn file_name(path: &str) -> (r: String)
    ensures
        r@ == base_name(path@),
{
    match last_name(path) {
        Some(name) => name,
        None => String::new(),
    }
}

pub fn file_extension(name: &str) -> (r: String)
    ensures
        r@ == extension(name@),
{
    let v = text::chars_of(name);
    let n: usize = v.len();
    match find_last(&v, '.') {
        Some(i) => {
            if i == 0 {
                String::new()
            } else {
                let s = text::piece(&v, i + 1, n);
                assert(s@ =~= v@.skip(i + 1));
                s
            }
        },
        None => String::new(),
    }
}

/// A file name without its extension.
pub open spec fn stem(name: Seq<char>) -> Seq<char> {
    match last_index(name, '.') {
        Some(i) => if i == 0 {
            name
        } else {
            name.take(i)
        },
        None => name,
    }
}

/// The file name of a path without its extension.
pub fn file_stem(path: &str) -> (r: Option<String>)
    ensures
        text::opt_text(r) == match final_name(path@) {
            Some(name) => Some(stem(name)),
            None => None,
        },
{
    let found = match last_name(path) {
        Some(name) => name,
        None => {
            return None;
        },
    };
    let name = found.as_str();
    let v = text::chars_of(name);
    match find_last(&v, '.') {
        Some(i) => {
            if i == 0 {
                Some(name.to_owned())
            } else {
                let s = text::piece(&v, 0, i);
                assert(s@ =~= v@.take(i as int));
                Some(s)
            }
        },
        None => Some(name.to_owned()),
    }
}

fn lead_of(path: &str) -> (r: Option<char>)
    ensures
        r == lead(path@),
{
    let v = text::chars_of(path);
    if v.len() > 0 && v[0] == '/' {
        return Some('/');
    }
    let parts = text::split_at_char(path, '/');
    proof {
        text::split_is_not_empty(path@, '/');
    }
    assert(text::texts(parts@)[0] == parts@[0]@);
    if text::same(parts[0].as_str(), ".") {
        Some('.')
    } else {
        None
    }
}

fn body_of(path: &str) -> (r: Vec<String>)
    ensures
        text::texts(r@) == body(path@),
{
    let mut parts = text::split_at_char(path, '/');
    proof {
        text::split_is_not_empty(path@, '/');
    }
    match lead_of(path) {
        Some(_) => {
            let ghost all = text::texts(parts@);
            parts.remove(0);
            assert(text::texts(parts@) =~= all.skip(1));
            parts
        },
        None => parts,
    }
}

fn component_list(path: &str) -> (r: Vec<String>)
    ensures
        text::texts(r@) == components(path@),
{
    let mut r: Vec<String> = Vec::new();
    match lead_of(path) {
        Some(c) => {
            let mut first = String::new();
            first.push(c);
            assert(first@ =~= seq![c]);
            r.push(first);
            assert(text::texts(r@) =~= seq![seq![c]]);
        },
        None => {},
    }
    let parts = body_of(path);
    let ghost all = text::texts(parts@);
    let mut i: usize = 0;
    assert(all.skip(0) =~= all);
    assert(text::texts(r@) + named(all.skip(0)) =~= components(path@));
    while i < parts.len()
        invariant
            i <= parts@.len(),
            all == text::texts(parts@),
            text::texts(r@) + named(all.skip(i as int)) == components(path@),
        decreases parts@.len() - i,
    {
        assert(all.skip(i as int)[0] == parts@[i as int]@);
        assert(all.skip(i as int).skip(1) =~= all.skip(i + 1));
        if !void(parts[i].as_str()) {
            let ghost before = text::texts(r@);
            r.push(parts[i].clone());
            assert(text::texts(r@) =~= before.push(all[i as int]));
            assert(text::texts(r@) + named(all.skip(i + 1)) =~= before + named(
                all.skip(i as int),
            ));
        }
        i = i + 1;
    }
    assert(all.skip(i as int) =~= Seq::empty());
    assert(text::texts(r@) + named(all.skip(i as int)) =~= text::texts(r@));
    r
}

/// The parts from `from` on, joined, without those at the end that name nothing.
fn join_settled(parts: &Vec<String>, from: usize) -> (r: String)
    requires
        from <= parts@.len(),
    ensures
        r@ == text::joined(settled(text::texts(parts@).skip(from as int)), "/"@),
{
    let n: usize = settled_end(parts, from);
    let ghost want = text::texts(parts@).subrange(from as int, n as int);
    let mut kept: Vec<String> = Vec::new();
    let mut i: usize = from;
    assert(text::texts(kept@) =~= want.take(0));
    while i < n
        invariant
            from <= i <= n <= parts@.len(),
            want == text::texts(parts@).subrange(from as int, n as int),
            text::texts(kept@) == want.take(i - from),
        decreases n - i,
    {
        let ghost before = text::texts(kept@);
        kept.push(parts[i].clone());
        assert(text::texts(kept@) =~= before.push(want[i - from]));
        i = i + 1;
        assert(want.take(i - from) =~= before.push(want[i - 1 - from]));
    }
    assert(want.take(i - from) =~= want);
    text::join(&kept, "/")
}

/// What stands behind the first `k` parts that name something.
fn join_behind(parts: &Vec<String>, k: usize) -> (r: String)
    ensures
        r@ == text::joined(settled(unled(behind(text::texts(parts@), k as nat))), "/"@),
{
    let ghost all = text::texts(parts@);
    let mut i: usize = 0;
    let mut left: usize = k;
    assert(all.skip(0) =~= all);
    while i < parts.len() && left > 0
        invariant
            i <= parts@.len(),
            all == text::texts(parts@),
            behind(all.skip(i as int), left as nat) == behind(all, k as nat),
        decreases parts@.len() - i,
    {
        assert(all.skip(i as int)[0] == parts@[i as int]@);
        assert(all.skip(i as int).skip(1) =~= all.skip(i + 1));
        if !void(parts[i].as_str()) {
            left = left - 1;
        }
        i = i + 1;
    }
    assert(behind(all, k as nat) == all.skip(i as int));
    let ghost rest = all.skip(i as int);
    while i < parts.len() && void(parts[i].as_str())
        invariant
            i <= parts@.len(),
            all == text::texts(parts@),
            unled(all.skip(i as int)) == unled(rest),
        ensures
            i <= parts@.len(),
            unled(all.skip(i as int)) == unled(rest),
            i == parts@.len() || !is_void(all[i as int]),
        decreases parts@.len() - i,
    {
        assert(all.skip(i as int)[0] == parts@[i as int]@);
        assert(all.skip(i as int).skip(1) =~= all.skip(i + 1));
        i = i + 1;
    }
    assert(unled(rest) == all.skip(i as int)) by {
        if i < parts@.len() {
            assert(all.skip(i as int)[0] == all[i as int]);
        }
    }
    join_settled(parts, i)
}

fn starts_with_all(list: &Vec<String>, first: &Vec<String>) -> (r: bool)
    ensures
        r == text::texts(first@).is_prefix_of(text::texts(list@)),
{
    let ghost a = text::texts(first@);
    let ghost b = text::texts(list@);
    if first.len() > list.len() {
        return false;
    }
    let mut i: usize = 0;
    while i < first.len()
        invariant
            i <= first@.len() <= list@.len(),
            a == text::texts(first@),
            b == text::texts(list@),
            forall|k: int| 0 <= k < i ==> a[k] == b[k],
        decreases first@.len() - i,
    {
        if !text::same(first[i].as_str(), list[i].as_str()) {
            assert(a[i as int] != b[i as int]);
            assert(b.subrange(0, a.len() as int)[i as int] == b[i as int]);
            return false;
        }
        i = i + 1;
    }
    assert(a =~= b.subrange(0, a.len() as int));
    true
}

/// Render `path` relative to `root` for compact provenance that holds in any
/// checkout.
pub fn relpath(path: &str, root: &str) -> (r: String)
    ensures
        r@ == relative(path@, root@),
{
    let whole = component_list(path);
    let first = component_list(root);
    if !starts_with_all(&whole, &first) {
        return path.to_owned();
    }
    let parts = body_of(path);
    let n: usize = first.len();
    assert(components(root@).len() == n);
    match lead_of(path) {
        Some(c) => {
            if n == 0 {
                let ghost all = text::texts(parts@);
                assert(all.skip(0) =~= all);
                let rest = join_settled(&parts, 0);
                let mut r = String::new();
                if c == '.' && settled_end(&parts, 0) > 0 {
                    r.append("./");
                    assert(r@ =~= "./"@);
                } else {
                    r.push(c);
                    assert(r@ =~= seq![c]);
                }
                r.append(rest.as_str());
                r
            } else {
                join_behind(&parts, n - 1)
            }
        },
        None => join_behind(&parts, n),
    }
}

proof fn last_index_in_range(s: Seq<char>, c: char)
    ensures
        last_index(s, c) matches Some(i) ==> 0 <= i < s.len(),
    decreases s.len(),
{
    if s.len() > 0 && s.last() != c {
        last_index_in_range(s.drop_last(), c);
    }
}

proof fn settled_is_start(parts: Seq<Seq<char>>)
    ensures
        settled(parts).len() <= parts.len(),
        settled(parts) == parts.take(settled(parts).len() as int),
    decreases parts.len(),
{
    if parts.len() > 0 && is_void(parts.last()) {
        settled_is_start(parts.drop_last());
        assert(parts.drop_last().take(settled(parts).len() as int) =~= parts.take(
            settled(parts).len() as int,
        ));
    } else {
        assert(parts.take(parts.len() as int) =~= parts);
    }
}

/// The name and the extension of an ASCII path are ASCII.
pub proof fn names_keep_ascii(path: Seq<char>)
    requires
        text::is_ascii(path),
    ensures
        text::is_ascii(base_name(path)),
        text::is_ascii(extension(base_name(path))),
{
    let parts = text::split(path, '/');
    text::split_keeps_ascii(path, '/');
    settled_is_start(parts);
    let n = settled(parts).len();
    if n > 0 {
        assert(settled(parts).last() == parts[n - 1]);
    }
    last_index_in_range(base_name(path), '.');
}

/// The path of what stands at a relative path in a directory.
pub open spec fn child(dir: Seq<char>, rest: Seq<char>) -> Seq<char> {
    if dir.len() > 0 && dir.last() == '/' {
        dir + rest
    } else {
        dir.push('/') + rest
    }
}

/// A relative path begins and ends with a part that names something.
pub open spec fn is_tidy(rest: Seq<char>) -> bool {
    let parts = text::split(rest, '/');
    !is_void(parts[0]) && !is_void(parts.last())
}

/// A path put together from a directory and a relative path is taken apart again.
pub proof fn relative_undoes_join(root: Seq<char>, rest: Seq<char>)
    requires
        root.len() > 0,
        is_tidy(rest),
    ensures
        relative(child(root, rest), root) == rest,
{
    reveal_strlit(".");
    let path = child(root, rest);
    let q = if root.last() == '/' {
        root
    } else {
        root.push('/')
    };
    assert(path =~= q + rest);
    text::split_behind_separator(q, rest, '/');
    text::split_is_not_empty(root, '/');
    text::split_is_not_empty(root.drop_last(), '/');
    text::split_is_not_empty(rest, '/');
    let a = text::split(q, '/').drop_last();
    let b = text::split(rest, '/');
    if root.last() == '/' {
        assert(text::split(root, '/') =~= a.push(Seq::empty()));
    } else {
        assert(root.push('/').drop_last() =~= root);
        assert(text::split(root, '/') =~= a);
    }
    assert(text::split(path, '/') == a + b);
    assert(path[0] == root[0]);
    assert(a.len() >= 1);
    assert((a + b)[0] == a[0]);
    assert(text::split(root, '/')[0] == a[0]);
    assert(lead(path) == lead(root));
    let l: int = if lead(path) is Some {
        1
    } else {
        0
    };
    let front = a.skip(l);
    assert(body(path) =~= front + b);
    if root.last() == '/' {
        assert(body(root) =~= front + seq![Seq::empty()]);
        named_of_both(front, seq![Seq::empty()]);
        assert(named(seq![Seq::<char>::empty()]) =~= Seq::empty()) by {
            let last = seq![Seq::<char>::empty()];
            assert(last.skip(1) =~= Seq::empty());
            assert(named(last.skip(1)) =~= Seq::empty());
            assert(named(last) == named(last.skip(1)));
        }
    } else {
        assert(body(root) =~= front);
    }
    assert(named(body(root)) =~= named(front));
    named_of_both(front, b);
    assert(components(path) =~= components(root) + named(b));
    assert(components(path).subrange(0, components(root).len() as int) =~= components(root));
    assert(components(root).is_prefix_of(components(path)));
    if lead(path) is None {
        first_part_named(root);
        assert(front[0] == a[0]);
    }
    behind_first(front, b);
    assert(settled(b) == b);
    text::split_joined(rest, '/');
    assert(seq!['/'] =~= "/"@) by {
        reveal_strlit("/");
    }
}

proof fn named_of_both(a: Seq<Seq<char>>, b: Seq<Seq<char>>)
    ensures
        named(a + b) == named(a) + named(b),
    decreases a.len(),
{
    if a.len() == 0 {
        assert(a + b =~= b);
        assert(named(a) + named(b) =~= named(b));
    } else {
        named_of_both(a.skip(1), b);
        assert((a + b).skip(1) =~= a.skip(1) + b);
        assert(named(a + b) =~= named(a) + named(b));
    }
}

/// Behind the named parts of `a` comes `b`.
proof fn behind_first(a: Seq<Seq<char>>, b: Seq<Seq<char>>)
    requires
        b.len() > 0,
        !is_void(b[0]),
    ensures
        unled(behind(a + b, named(a).len())) == b,
    decreases a.len(),
{
    if a.len() == 0 {
        assert(a + b =~= b);
    } else {
        behind_first(a.skip(1), b);
        assert((a + b).skip(1) =~= a.skip(1) + b);
    }
}

/// A path that starts with neither the root nor the current directory starts with a
/// part that names something.
proof fn first_part_named(path: Seq<char>)
    requires
        path.len() > 0,
        lead(path) is None,
    ensures
        !is_void(text::split(path, '/')[0]),
{
    text::split_first_part(path, '/');
}

// ---------------------------------------------------------------------------
// Contents
// ---------------------------------------------------------------------------

/// The text that `String::from_utf8_lossy` makes of bytes.
pub uninterp spec fn lossy_text(b: Seq<u8>) -> Seq<char>;

/// Calls `String::from_utf8_lossy`. The result is named by `lossy_text`; of bytes that
/// are valid UTF-8 it is said that the result is the text that they encode.
#[verifier::external_body]
fn from_utf8_lossy(b: &[u8]) -> (r: String)
    ensures
        r@ == lossy_text(b@),
        vstd::utf8::valid_utf8(b@) ==> r@ == vstd::utf8::decode_utf8(b@),
{
    String::from_utf8_lossy(b).into_owned()
}

/// Calls `String::from_utf8`: the text that the bytes encode, and an error exactly
/// where they are not valid UTF-8.
#[verifier::external_body]
fn from_utf8(b: Vec<u8>) -> (r: Option<String>)
    ensures
        text::opt_text(r) == strict_text(b@),
{
    String::from_utf8(b).ok()
}

/// The text of bytes that are valid UTF-8.
pub open spec fn strict_text(b: Seq<u8>) -> Option<Seq<char>> {
    if vstd::utf8::valid_utf8(b) {
        Some(vstd::utf8::decode_utf8(b))
    } else {
        None
    }
}

/// The text of a file that was read whole; `None` for one that is not UTF-8.
pub fn whole_text(b: Vec<u8>) -> (r: Option<String>)
    ensures
        text::opt_text(r) == strict_text(b@),
{
    from_utf8(b)
}

/// No more than the first `max` bytes.
pub open spec fn capped(b: Seq<u8>, max: int) -> Seq<u8> {
    if b.len() > max {
        b.take(max)
    } else {
        b
    }
}

/// A text with the mark of truncation where something was cut off.
pub open spec fn marked(s: Seq<char>, truncated: bool) -> Seq<char> {
    if truncated {
        s + "\n…[truncated]"@
    } else {
        s
    }
}

/// The text of what was read of a file, cut to `max` bytes.
pub open spec fn bounded_text(raw: Seq<u8>, max: int) -> Seq<char> {
    marked(lossy_text(capped(raw, max)), raw.len() > max)
}

/// Decode no more than the first `max` bytes.
pub fn decode_capped(raw: Vec<u8>, max: usize) -> (r: String)
    ensures
        r@ == lossy_text(capped(raw@, max as int)),
        vstd::utf8::valid_utf8(capped(raw@, max as int)) ==> r@ == vstd::utf8::decode_utf8(
            capped(raw@, max as int),
        ),
{
    let mut b = raw;
    if b.len() > max {
        b.truncate(max);
    }
    assert(b@ =~= capped(raw@, max as int));
    from_utf8_lossy(b.as_slice())
}

/// Put the mark of truncation behind a text.
pub fn mark_truncated(s: String, truncated: bool) -> (r: String)
    ensures
        r@ == marked(s@, truncated),
{
    if truncated {
        let mut s = s;
        s.append("\n…[truncated]");
        s
    } else {
        s
    }
}

/// The text of what was read of a file, truncated to `max_bytes` with a marker. No
/// more than one byte beyond the cap needs to have been read.
pub fn read_bounded(raw: Vec<u8>, max_bytes: usize) -> (r: String)
    ensures
        r@ == bounded_text(raw@, max_bytes as int),
{
    let truncated = raw.len() > max_bytes;
    mark_truncated(decode_capped(raw, max_bytes), truncated)
}

/// A captured file's path and (possibly truncated) content.
#[derive(Clone, Debug)]
pub struct FileSource {
    pub path: String,
    pub content: String,
    pub truncated: bool,
    pub bytes: usize,
}

/// A captured file as a mathematical value.
pub struct SourceView {
    pub path: Seq<char>,
    pub content: Seq<char>,
    pub truncated: bool,
    pub bytes: int,
}

impl View for FileSource {
    type V = SourceView;

    open spec fn view(&self) -> SourceView {
        SourceView {
            path: self.path@,
            content: self.content@,
            truncated: self.truncated,
            bytes: self.bytes as int,
        }
    }
}

pub open spec fn source_views(v: Seq<FileSource>) -> Seq<SourceView> {
    Seq::new(v.len(), |i: int| v[i]@)
}

/// What is captured of a file of which `raw` was read.
pub open spec fn captured(path: Seq<char>, root: Seq<char>, raw: Seq<u8>, max: int) -> SourceView {
    SourceView {
        path: relative(path, root),
        content: bounded_text(raw, max),
        truncated: raw.len() > max,
        bytes: raw.len() as int,
    }
}

impl FileSource {
    /// Capture a file from what was read of it: at most one byte beyond the cap.
    /// `bytes` is the length of what was read.
    pub fn from_path(path: &str, root: &str, raw: Vec<u8>, max_bytes: usize) -> (r: Self)
        ensures
            r@ == captured(path@, root@, raw@, max_bytes as int),
    {
        let truncated = raw.len() > max_bytes;
        let bytes: usize = raw.len();
        FileSource {
            path: relpath(path, root),
            content: read_bounded(raw, max_bytes),
            truncated,
            bytes,
        }
    }
}

/// What became of an attempt to read a file: nothing, or its bytes.
#[derive(Debug)]
pub struct WalkedFile {
    pub path: String,
    pub read: Option<Vec<u8>>,
}

/// A file as it was walked and read.
pub struct FileView {
    pub path: Seq<char>,
    pub read: Option<Seq<u8>>,
}

impl View for WalkedFile {
    type V = FileView;

    open spec fn view(&self) -> FileView {
        FileView {
            path: self.path@,
            read: match self.read {
                Some(b) => Some(b@),
                None => None,
            },
        }
    }
}

pub open spec fn walked_views(v: Seq<WalkedFile>) -> Seq<FileView> {
    Seq::new(v.len(), |i: int| v[i]@)
}

/// The text of a file that was read and is UTF-8.
pub open spec fn text_read(f: FileView) -> Option<Seq<char>> {
    match f.read {
        Some(b) => strict_text(b),
        None => None,
    }
}

// ---------------------------------------------------------------------------
// Laws
// ---------------------------------------------------------------------------

/// A file that fits is captured whole under its own path; of a larger one the first bytes
/// are, with a mark behind them.
pub proof fn files_are_captured_up_to_the_cap(
    path: Seq<char>,
    root: Seq<char>,
    raw: Seq<u8>,
    max: int,
)
    requires
        0 <= max,
    ensures
        raw.len() <= max ==> captured(path, root, raw, max).content == lossy_text(raw)
            && !captured(path, root, raw, max).truncated,
        raw.len() > max ==> captured(path, root, raw, max).content == lossy_text(raw.take(max))
            + "\n…[truncated]"@ && captured(path, root, raw, max).truncated,
        captured(path, root, raw, max).path == relative(path, root),
        captured(path, root, raw, max).bytes == raw.len(),
{
}

/// What stands in a directory under a name has that name, and a name parts into what
/// stands before its last dot and the extension behind it.
pub proof fn names_and_extensions(
    dir: Seq<char>,
    name: Seq<char>,
    before: Seq<char>,
    ext: Seq<char>,
)
    requires
        name.len() > 0,
        !name.contains('/'),
        name != "."@,
        name != ".."@,
        before.len() > 0,
        !ext.contains('.'),
    ensures
        final_name(child(dir, name)) == Some(name),
        base_name(child(dir, name)) == name,
        extension(before + seq!['.'] + ext) == ext,
        stem(before + seq!['.'] + ext) == before,
        !ext.contains('.') ==> extension(ext) == Seq::<char>::empty() && stem(ext) == ext,
{
    let q = if dir.len() > 0 && dir.last() == '/' {
        dir
    } else {
        dir.push('/')
    };
    assert(child(dir, name) =~= q + name);
    text::split_behind_separator(q, name, '/');
    text::split_without_separator(name, '/');
    let parts = text::split(child(dir, name), '/');
    assert(parts.last() == name);
    assert(settled(parts) == parts);
    let s = before + seq!['.'] + ext;
    last_dot(before, ext);
    assert(s.skip(before.len() as int + 1) =~= ext);
    assert(s.take(before.len() as int) =~= before);
    no_dot(ext);
}

proof fn last_dot(before: Seq<char>, ext: Seq<char>)
    requires
        !ext.contains('.'),
    ensures
        last_index(before + seq!['.'] + ext, '.') == Some(before.len() as int),
    decreases ext.len(),
{
    let s = before + seq!['.'] + ext;
    if ext.len() == 0 {
        assert(s.last() == '.');
    } else {
        let rest = ext.drop_last();
        assert(ext.contains(ext[ext.len() - 1]));
        assert(s.last() == ext.last());
        assert(s.drop_last() =~= before + seq!['.'] + rest);
        assert(!rest.contains('.')) by {
            if rest.contains('.') {
                let i = choose|i: int| 0 <= i < rest.len() && rest[i] == '.';
                assert(ext[i] == '.');
            }
        }
        last_dot(before, rest);
    }
}

proof fn no_dot(s: Seq<char>)
    requires
        !s.contains('.'),
    ensures
        last_index(s, '.') is None,
    decreases s.len(),
{
    if s.len() > 0 {
        let rest = s.drop_last();
        assert(s.contains(s[s.len() - 1]));
        assert(!rest.contains('.')) by {
            if rest.contains('.') {
                let i = choose|i: int| 0 <= i < rest.len() && rest[i] == '.';
                assert(s[i] == '.');
            }
        }
        no_dot(rest);
    }
}

/// A path that does not start with the components of a directory is left as it is.
pub proof fn paths_elsewhere_stay(path: Seq<char>, root: Seq<char>)
    requires
        components(root).len() > components(path).len() || components(path).take(
            components(root).len() as int,
        ) != components(root),
    ensures
        relative(path, root) == path,
{
    if components(root).len() <= components(path).len() {
        assert(components(path).subrange(0, components(root).len() as int) =~= components(
            path,
        ).take(components(root).len() as int));
    }
}

} // verus!
