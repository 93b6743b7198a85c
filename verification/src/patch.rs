//! Patches to stored memories.
//!
//! A patch overwrites members that a memory has. It never touches what identifies the
//! memory, and it stamps the time of the update.
use crate::json;
use crate::json::{Json, JsonView};
use crate::text;
use vstd::prelude::*;

verus! {

/// The names of members that no patch may touch.
pub open spec fn protected_names() -> Seq<Seq<char>> {
    seq!["id"@, "project_id"@, "created_at"@, "memory_type"@]
}

pub open spec fn is_protected(key: Seq<char>) -> bool {
    protected_names().contains(key)
}

/// The value of a member.
pub open spec fn find(fields: Seq<(Seq<char>, JsonView)>, key: Seq<char>) -> Option<JsonView> {
    match json::field_index(fields, key) {
        Some(i) => Some(fields[i].1),
        None => None,
    }
}

/// The members with one of them set, added at the end where it was missing.
pub open spec fn with_field(
    fields: Seq<(Seq<char>, JsonView)>,
    key: Seq<char>,
    value: JsonView,
) -> Seq<(Seq<char>, JsonView)> {
    match json::field_index(fields, key) {
        Some(i) => fields.update(i, (key, value)),
        None => fields.push((key, value)),
    }
}

/// The members after a patch: each entry overwrites the member that it names, unless
/// that is protected or missing.
pub open spec fn patched(
    fields: Seq<(Seq<char>, JsonView)>,
    patch: Seq<(Seq<char>, JsonView)>,
) -> Seq<(Seq<char>, JsonView)>
    decreases patch.len(),
{
    if patch.len() == 0 {
        fields
    } else {
        let before = patched(fields, patch.drop_last());
        let (key, value) = patch.last();
        if is_protected(key) || find(before, key) is None {
            before
        } else {
            with_field(before, key, value)
        }
    }
}

/// The members after a patch made at a time.
pub open spec fn merged(
    fields: Seq<(Seq<char>, JsonView)>,
    patch: Seq<(Seq<char>, JsonView)>,
    now: int,
) -> Seq<(Seq<char>, JsonView)> {
    with_field(patched(fields, patch), "updated_at"@, json::integer(now))
}

/// The names in a patch that a memory does not have and that are not protected.
pub open spec fn unknown_names(
    fields: Seq<(Seq<char>, JsonView)>,
    patch: Seq<(Seq<char>, JsonView)>,
) -> Seq<Seq<char>>
    decreases patch.len(),
{
    if patch.len() == 0 {
        Seq::empty()
    } else {
        let before = unknown_names(fields, patch.drop_last());
        let key = patch.last().0;
        if !is_protected(key) && find(fields, key) is None {
            before.push(key)
        } else {
            before
        }
    }
}

/// What a patch asks for under a name: its last entry counts.
pub open spec fn last_entry(patch: Seq<(Seq<char>, JsonView)>, key: Seq<char>) -> Option<JsonView>
    decreases patch.len(),
{
    if patch.len() == 0 {
        None
    } else if patch.last().0 == key {
        Some(patch.last().1)
    } else {
        last_entry(patch.drop_last(), key)
    }
}

proof fn found_after_set(
    fields: Seq<(Seq<char>, JsonView)>,
    key: Seq<char>,
    value: JsonView,
    other: Seq<char>,
)
    ensures
        find(with_field(fields, key, value), other) == if other == key {
            Some(value)
        } else {
            find(fields, other)
        },
{
    let after = with_field(fields, key, value);
    json::field_index_found(fields, key);
    json::field_index_found(fields, other);
    json::field_index_found(after, other);
    match json::field_index(fields, key) {
        Some(i) => {
            assert(after[i].0 == key);
            assert forall|j: int| 0 <= j < fields.len() implies #[trigger] after[j].0
                == fields[j].0 by {}
            if json::field_index(fields, other) is Some {
                let k = json::field_index(fields, other)->0;
                assert(after[k].0 == other);
                let m = json::field_index(after, other)->0;
                assert(after[m].0 == fields[m].0);
                if m < k {
                    assert(fields[m].0 != other);
                } else if k < m {
                    assert(after[k].0 != other);
                }
            } else {
                if json::field_index(after, other) is Some {
                    let m = json::field_index(after, other)->0;
                    assert(after[m].0 == fields[m].0);
                }
            }
        },
        None => {
            let n = fields.len() as int;
            assert(after[n] == (key, value));
            assert forall|j: int| 0 <= j < n implies #[trigger] after[j] == fields[j] by {}
            if other == key {
                let m = json::field_index(after, other)->0;
                if m < n {
                    assert(after[m].0 == fields[m].0);
                }
            } else if json::field_index(fields, other) is Some {
                let k = json::field_index(fields, other)->0;
                assert(after[k].0 == other);
                let m = json::field_index(after, other)->0;
                if m < k {
                    assert(after[m].0 == fields[m].0);
                } else if k < m {
                    assert(after[k].0 != other);
                }
            } else if json::field_index(after, other) is Some {
                let m = json::field_index(after, other)->0;
                if m < n {
                    assert(after[m].0 == fields[m].0);
                }
            }
        },
    }
}

proof fn found_after_patch(
    fields: Seq<(Seq<char>, JsonView)>,
    patch: Seq<(Seq<char>, JsonView)>,
    key: Seq<char>,
)
    ensures
        find(patched(fields, patch), key) == if is_protected(key) || find(fields, key) is None {
            find(fields, key)
        } else {
            match last_entry(patch, key) {
                Some(v) => Some(v),
                None => find(fields, key),
            }
        },
    decreases patch.len(),
{
    if patch.len() > 0 {
        found_after_patch(fields, patch.drop_last(), key);
        let before = patched(fields, patch.drop_last());
        let (k, v) = patch.last();
        found_after_patch(fields, patch.drop_last(), k);
        found_after_set(before, k, v, key);
    }
}

/// What a memory holds after a patch. The stamp is the time of the patch; a protected
/// member, and one that the patch does not name, is as it was; a member that the memory
/// has is what the patch last asked for; nothing else is added.
pub proof fn merge_result(
    fields: Seq<(Seq<char>, JsonView)>,
    patch: Seq<(Seq<char>, JsonView)>,
    now: int,
    key: Seq<char>,
)
    ensures
        find(merged(fields, patch, now), key) == if key == "updated_at"@ {
            Some(json::integer(now))
        } else if is_protected(key) || find(fields, key) is None {
            find(fields, key)
        } else {
            match last_entry(patch, key) {
                Some(v) => Some(v),
                None => find(fields, key),
            }
        },
{
    found_after_patch(fields, patch, key);
    found_after_set(patched(fields, patch), "updated_at"@, json::integer(now), key);
}

/// Patching again with the same patch at the same time changes nothing any more.
pub proof fn merge_settles(
    fields: Seq<(Seq<char>, JsonView)>,
    patch: Seq<(Seq<char>, JsonView)>,
    now: int,
    key: Seq<char>,
)
    ensures
        find(merged(merged(fields, patch, now), patch, now), key) == find(
            merged(fields, patch, now),
            key,
        ),
{
    merge_result(fields, patch, now, key);
    merge_result(merged(fields, patch, now), patch, now, key);
}

// ---------------------------------------------------------------------------
// Execution
// ---------------------------------------------------------------------------

/// May a patch not touch this member?
pub fn protects(key: &str) -> (r: bool)
    ensures
        r == is_protected(key@),
{
    let names = vec!["id", "project_id", "created_at", "memory_type"];
    text::one_of(key, &names, Ghost(protected_names()))
}

fn position(fields: &Vec<(String, Json)>, key: &str) -> (r: Option<usize>)
    ensures
        match r {
            Some(i) => i < fields@.len() && json::field_index(json::field_views(fields@), key@)
                == Some(i as int),
            None => json::field_index(json::field_views(fields@), key@) is None,
        },
{
    let ghost all = json::field_views(fields@);
    proof {
        json::field_index_found(all, key@);
    }
    let mut i: usize = 0;
    while i < fields.len()
        invariant
            i <= fields@.len(),
            all == json::field_views(fields@),
            forall|k: int| 0 <= k < i ==> (#[trigger] all[k]).0 != key@,
        decreases fields@.len() - i,
    {
        assert(all[i as int].0 == fields@[i as int].0@);
        if text::same(fields[i].0.as_str(), key) {
            proof {
                json::field_index_found(all, key@);
                let found = json::field_index(all, key@);
                if found is Some && found->0 != i {
                    assert(found->0 < i ==> all[found->0].0 != key@);
                }
            }
            return Some(i);
        }
        i = i + 1;
    }
    None
}

fn set_field(fields: &mut Vec<(String, Json)>, key: &str, value: Json)
    ensures
        json::field_views(final(fields)@) == with_field(
            json::field_views(old(fields)@),
            key@,
            value@,
        ),
{
    let ghost before = json::field_views(fields@);
    match position(fields, key) {
        Some(i) => {
            fields.set(i, (key.to_owned(), value));
            assert(json::field_views(fields@) =~= before.update(i as int, (key@, value@)));
        },
        None => {
            json::put(fields, key, value);
        },
    }
}

/// Merge a patch into the members of a memory. Comes with the names that the memory
/// does not have.
pub fn merge_patch(fields: Vec<(String, Json)>, patch: Vec<(String, Json)>, now: i64) -> (r: (
    Vec<(String, Json)>,
    Vec<String>,
))
    ensures
        json::field_views(r.0@) == merged(
            json::field_views(fields@),
            json::field_views(patch@),
            now as int,
        ),
        text::texts(r.1@) == unknown_names(
            json::field_views(fields@),
            json::field_views(patch@),
        ),
{
    let ghost start = json::field_views(fields@);
    let ghost entries = patch@;
    let ghost asked = json::field_views(entries);
    let mut fields = fields;
    let mut rest = patch;
    let mut unknown: Vec<String> = Vec::new();
    let ghost mut done: int = 0;
    assert(asked.take(0) =~= Seq::empty());
    assert(entries.skip(0) =~= entries);
    assert(text::texts(unknown@) =~= Seq::empty());
    while rest.len() > 0
        invariant
            0 <= done <= entries.len(),
            asked == json::field_views(entries),
            rest@ == entries.skip(done),
            json::field_views(fields@) == patched(start, asked.take(done)),
            text::texts(unknown@) == unknown_names(start, asked.take(done)),
        decreases rest@.len(),
    {
        let (key, value) = rest.remove(0);
        let ghost k = key@;
        proof {
            assert((key, value) == entries[done]);
            assert(asked.take(done + 1).drop_last() =~= asked.take(done));
            assert(asked.take(done + 1).last() == (key@, value@));
            found_after_patch(start, asked.take(done), key@);
        }
        if !protects(key.as_str()) {
            if position(&fields, key.as_str()).is_some() {
                set_field(&mut fields, key.as_str(), value);
            } else {
                let ghost before = text::texts(unknown@);
                unknown.push(key);
                assert(text::texts(unknown@) =~= before.push(k));
            }
        }
        proof {
            assert(rest@ =~= entries.skip(done + 1));
            done = done + 1;
        }
    }
    assert(asked.take(done) =~= asked);
    set_field(&mut fields, "updated_at", Json::whole(now));
    (fields, unknown)
}

// ---------------------------------------------------------------------------
// Patches from the command line
// ---------------------------------------------------------------------------

/// The value that a text gives a member: the JSON that it holds, or else the text
/// itself.
pub open spec fn value_of(parsed: Result<JsonView, Seq<char>>, raw: Seq<char>) -> JsonView {
    match parsed {
        Ok(v) => v,
        Err(_) => JsonView::Str(raw),
    }
}

/// Turn the attempt to parse a value into the value.
pub fn set_value(parsed: Result<Json, String>, raw: &str) -> (r: Json)
    ensures
        r@ == value_of(json::read_view(parsed), raw@),
{
    match parsed {
        Ok(v) => v,
        Err(_) => Json::str(raw),
    }
}

/// The entry that `key=value` stands for.
pub open spec fn entry_of(kv: Seq<char>) -> Option<(Seq<char>, JsonView)> {
    match text::char_index(kv, '=') {
        Some(i) => Some(
            (kv.take(i), value_of(json::json_read(kv.skip(i + 1)), kv.skip(i + 1))),
        ),
        None => None,
    }
}

/// The patch that the arguments from position `i` on ask for with `--set key=value`,
/// or the first that is no such pair. A flag at the very end is ignored.
pub open spec fn set_entries(args: Seq<Seq<char>>, i: int) -> Result<
    Seq<(Seq<char>, JsonView)>,
    Seq<char>,
>
    decreases args.len() - i,
{
    if i < 0 || i >= args.len() {
        Ok(Seq::empty())
    } else if args[i] != "--set"@ {
        set_entries(args, i + 1)
    } else if i + 1 >= args.len() {
        Ok(Seq::empty())
    } else {
        match entry_of(args[i + 1]) {
            None => Err("--set expects key=value, got '"@ + args[i + 1] + "' (missing '=')"@),
            Some(entry) => match set_entries(args, i + 2) {
                Ok(rest) => Ok(Seq::empty().push(entry) + rest),
                Err(e) => Err(e),
            },
        }
    }
}

pub open spec fn patch_result(r: Result<Vec<(String, Json)>, String>) -> Result<
    Seq<(Seq<char>, JsonView)>,
    Seq<char>,
> {
    match r {
        Ok(v) => Ok(json::field_views(v@)),
        Err(e) => Err(e@),
    }
}

/// A patch that is put before the rest of one.
pub open spec fn put_before(
    first: Seq<(Seq<char>, JsonView)>,
    rest: Result<Seq<(Seq<char>, JsonView)>, Seq<char>>,
) -> Result<Seq<(Seq<char>, JsonView)>, Seq<char>> {
    match rest {
        Ok(r) => Ok(first + r),
        Err(e) => Err(e),
    }
}

/// Build a patch from `--set key=value` pairs. A value is read as JSON where possible
/// and is a plain text otherwise.
pub fn patch_from_args(args: &Vec<String>) -> (r: Result<Vec<(String, Json)>, String>)
    ensures
        patch_result(r) == set_entries(text::texts(args@), 0),
{
    let ghost all = text::texts(args@);
    let n: usize = args.len();
    let mut patch: Vec<(String, Json)> = Vec::new();
    let mut i: usize = 0;
    proof {
        assert(json::field_views(patch@) =~= Seq::empty());
        if set_entries(all, 0) is Ok {
            assert(Seq::empty() + set_entries(all, 0)->Ok_0 =~= set_entries(all, 0)->Ok_0);
        }
    }
    while i < n
        invariant
            i <= n,
            n == args@.len(),
            all == text::texts(args@),
            put_before(json::field_views(patch@), set_entries(all, i as int)) == set_entries(
                all,
                0,
            ),
        decreases n - i,
    {
        assert(all[i as int] == args@[i as int]@);
        if text::same(args[i].as_str(), "--set") {
            if i + 1 >= n {
                assert(json::field_views(patch@) + Seq::<(Seq<char>, JsonView)>::empty()
                    =~= json::field_views(patch@));
                return Ok(patch);
            }
            let kv = args[i + 1].as_str();
            assert(all[i + 1] == kv@);
            let v = text::chars_of(kv);
            let len: usize = v.len();
            match text::find_char(&v, '=') {
                Some(p) => {
                    let key = text::piece(&v, 0, p);
                    let raw = text::piece(&v, p + 1, len);
                    assert(key@ =~= kv@.take(p as int));
                    assert(raw@ =~= kv@.skip(p + 1));
                    let value = set_value(Json::parse(raw.as_str()), raw.as_str());
                    let ghost before = json::field_views(patch@);
                    let ghost entry = (key@, value@);
                    json::put(&mut patch, key.as_str(), value);
                    proof {
                        let rest = set_entries(all, i + 2);
                        if rest is Ok {
                            assert(before + (Seq::empty().push(entry) + rest->Ok_0)
                                =~= before.push(entry) + rest->Ok_0);
                        }
                    }
                },
                None => {
                    let mut e = "--set expects key=value, got '".to_owned();
                    e.append(kv);
                    e.append("' (missing '=')");
                    return Err(e);
                },
            }
            i = i + 2;
        } else {
            i = i + 1;
        }
    }
    assert(json::field_views(patch@) + Seq::<(Seq<char>, JsonView)>::empty() =~= json::field_views(
        patch@,
    ));
    Ok(patch)
}

/// The names that are reported are those in the patch that the memory does not have and
/// that are not protected, in the order of the patch.
pub proof fn unknown_names_are_all_reported(
    fields: Seq<(Seq<char>, JsonView)>,
    patch: Seq<(Seq<char>, JsonView)>,
)
    ensures
        unknown_names(fields, patch) == patch.filter(
            |e: (Seq<char>, JsonView)|
                e.0 != "id"@ && e.0 != "project_id"@ && e.0 != "created_at"@ && e.0
                    != "memory_type"@ && forall|i: int|
                    0 <= i < fields.len() ==> (#[trigger] fields[i]).0 != e.0,
        ).map_values(|e: (Seq<char>, JsonView)| e.0),
    decreases patch.len(),
{
    reveal(Seq::filter);
    let unknown = |e: (Seq<char>, JsonView)|
        e.0 != "id"@ && e.0 != "project_id"@ && e.0 != "created_at"@ && e.0 != "memory_type"@
            && forall|i: int| 0 <= i < fields.len() ==> (#[trigger] fields[i]).0 != e.0;
    let name = |e: (Seq<char>, JsonView)| e.0;
    if patch.len() > 0 {
        let rest = patch.drop_last();
        let e = patch.last();
        unknown_names_are_all_reported(fields, rest);
        json::field_index_found(fields, e.0);
        protected_members(e.0);
        assert(unknown(e) == (!is_protected(e.0) && find(fields, e.0) is None));
        assert(rest.filter(unknown).push(e).map_values(name) =~= rest.filter(unknown).map_values(
            name,
        ).push(e.0));
    } else {
        assert(unknown_names(fields, patch) =~= patch.filter(unknown).map_values(name));
    }
}

/// The id, the project, the time of creation and the type of a memory are protected, and
/// nothing else.
pub proof fn protected_members(key: Seq<char>)
    ensures
        is_protected(key) <==> key == "id"@ || key == "project_id"@ || key == "created_at"@ || key
            == "memory_type"@,
{
    let names = protected_names();
    assert(names[0] == "id"@ && names[1] == "project_id"@ && names[2] == "created_at"@ && names[3]
        == "memory_type"@);
}

/// A patch leaves the number and the order of members alone, but for the stamp that it may
/// add.
pub proof fn patches_keep_the_members(
    fields: Seq<(Seq<char>, JsonView)>,
    patch: Seq<(Seq<char>, JsonView)>,
)
    ensures
        patched(fields, patch).len() == fields.len(),
        forall|i: int|
            0 <= i < fields.len() ==> (#[trigger] patched(fields, patch)[i]).0 == fields[i].0,
    decreases patch.len(),
{
    if patch.len() > 0 {
        patches_keep_the_members(fields, patch.drop_last());
        let before = patched(fields, patch.drop_last());
        json::field_index_found(before, patch.last().0);
    }
}

/// The last entry under a name is the one that counts.
pub proof fn last_entries_count(
    patch: Seq<(Seq<char>, JsonView)>,
    key: Seq<char>,
    other: Seq<char>,
    value: JsonView,
)
    ensures
        last_entry(Seq::<(Seq<char>, JsonView)>::empty(), key) is None,
        last_entry(patch.push((key, value)), key) == Some(value),
        other != key ==> last_entry(patch.push((other, value)), key) == last_entry(patch, key),
{
    assert(patch.push((key, value)).drop_last() =~= patch);
    assert(patch.push((other, value)).drop_last() =~= patch);
}

/// Each `--set` makes an entry of the argument behind it, split at its first `=`; one
/// without any is an error.
pub proof fn settings_are_split_at_the_first_sign(
    args: Seq<Seq<char>>,
    i: int,
    key: Seq<char>,
    raw: Seq<char>,
)
    requires
        0 <= i < args.len() - 1,
        args[i] == "--set"@,
    ensures
        !args[i + 1].contains('=') ==> set_entries(args, i) is Err,
        !key.contains('=') && args[i + 1] == key + seq!['='] + raw && set_entries(args, i + 2) is Ok
            ==> {
            let value = match json::json_read(raw) {
                Ok(v) => v,
                Err(_) => JsonView::Str(raw),
            };
            set_entries(args, i) == Ok::<Seq<(Seq<char>, JsonView)>, Seq<char>>(
                seq![(key, value)] + set_entries(args, i + 2)->Ok_0,
            )
        },
{
    let kv = args[i + 1];
    text::char_index_is_first(kv, '=');
    if !kv.contains('=') {
        if text::char_index(kv, '=') is Some {
            let p = text::char_index(kv, '=')->0;
            assert(kv[p] == '=');
        }
    }
    if !key.contains('=') && kv == key + seq!['='] + raw {
        assert(kv[key.len() as int] == '=');
        let p = text::char_index(kv, '=')->0;
        if p < key.len() {
            assert(kv[p] == key[p]);
            assert(key.contains(key[p]));
        }
        assert(p == key.len());
        assert(kv.take(p) =~= key);
        assert(kv.skip(p + 1) =~= raw);
        if set_entries(args, i + 2) is Ok {
            let rest = set_entries(args, i + 2)->Ok_0;
            let entry = entry_of(kv)->0;
            assert(Seq::empty().push(entry) + rest =~= seq![entry] + rest);
        }
    }
}

} // verus!
