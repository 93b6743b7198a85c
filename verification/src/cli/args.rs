//! Command-line arguments.
use crate::text;
use vstd::prelude::*;

verus! {

/// The flag with a name.
pub open spec fn flag_of(name: Seq<char>) -> Seq<char> {
    "--"@ + name
}

/// The argument behind the first occurrence of a flag.
pub open spec fn option_value(args: Seq<Seq<char>>, name: Seq<char>) -> Option<Seq<char>> {
    match text::position(args, flag_of(name)) {
        Some(p) => if p + 1 < args.len() {
            Some(args[p + 1])
        } else {
            None
        },
        None => None,
    }
}

/// The value of a required option, or what is wrong with it.
pub open spec fn required_value(args: Seq<Seq<char>>, name: Seq<char>) -> Result<
    Seq<char>,
    Seq<char>,
> {
    match text::position(args, flag_of(name)) {
        None => Err("Missing required argument: --"@ + name),
        Some(_) => match option_value(args, name) {
            None => Err("--"@ + name + " requires a value"@),
            Some(value) => if text::starts_with(value, "--"@) {
                Err("--"@ + name + " requires a value, but got flag '"@ + value + "'"@)
            } else {
                Ok(value)
            },
        },
    }
}

/// The arguments behind those of the first `n` arguments that are the flag.
pub open spec fn values_before(args: Seq<Seq<char>>, flag: Seq<char>, n: int) -> Seq<Seq<char>>
    decreases n,
{
    if n <= 0 {
        Seq::empty()
    } else if args[n - 1] == flag && n < args.len() {
        values_before(args, flag, n - 1).push(args[n])
    } else {
        values_before(args, flag, n - 1)
    }
}

/// The values of an option that may be repeated.
pub open spec fn repeated_values(args: Seq<Seq<char>>, name: Seq<char>) -> Seq<Seq<char>> {
    values_before(args, flag_of(name), args.len() as int)
}

/// The parts, trimmed, without those that are then empty.
pub open spec fn trimmed_parts(parts: Seq<Seq<char>>) -> Seq<Seq<char>>
    decreases parts.len(),
{
    if parts.len() == 0 {
        Seq::empty()
    } else {
        let before = trimmed_parts(parts.drop_last());
        let last = text::trimmed(parts.last());
        if last.len() > 0 {
            before.push(last)
        } else {
            before
        }
    }
}

/// The values of an option that holds a comma-separated list.
pub open spec fn listed_values(args: Seq<Seq<char>>, name: Seq<char>) -> Seq<Seq<char>> {
    match option_value(args, name) {
        Some(s) => trimmed_parts(text::split(s, ',')),
        None => Seq::empty(),
    }
}

pub open spec fn text_result(r: Result<String, String>) -> Result<Seq<char>, Seq<char>> {
    match r {
        Ok(s) => Ok(s@),
        Err(e) => Err(e@),
    }
}

fn flag(name: &str) -> (r: String)
    ensures
        r@ == flag_of(name@),
{
    let mut r = "--".to_owned();
    r.append(name);
    r
}

/// Is a flag among the arguments?
pub fn has_flag(args: &Vec<String>, flag: &str) -> (r: bool)
    ensures
        r == text::texts(args@).contains(flag@),
{
    let ghost all = text::texts(args@);
    proof {
        text::position_is_first(all, flag@);
    }
    let found = text::find_text(args, flag);
    proof {
        if found is Some {
            assert(all[found->0 as int] == flag@);
        }
    }
    found.is_some()
}

/// Extract a required string argument by name (`--name value`). The value must not be
/// another flag.
pub fn require_str(args: &Vec<String>, name: &str) -> (r: Result<String, String>)
    ensures
        text_result(r) == required_value(text::texts(args@), name@),
{
    let ghost all = text::texts(args@);
    let f = flag(name);
    let n: usize = args.len();
    match text::find_text(args, f.as_str()) {
        None => {
            let mut e = "Missing required argument: --".to_owned();
            e.append(name);
            Err(e)
        },
        Some(p) => {
            if p + 1 >= n {
                let mut e = "--".to_owned();
                e.append(name);
                e.append(" requires a value");
                return Err(e);
            }
            let value = args[p + 1].clone();
            assert(all[p + 1] == value@);
            if text::has_prefix(value.as_str(), "--") {
                let mut e = "--".to_owned();
                e.append(name);
                e.append(" requires a value, but got flag '");
                e.append(value.as_str());
                e.append("'");
                return Err(e);
            }
            Ok(value)
        },
    }
}

/// Extract an optional string argument by name.
pub fn optional_str(args: &Vec<String>, name: &str) -> (r: Option<String>)
    ensures
        text::opt_text(r) == option_value(text::texts(args@), name@),
{
    let ghost all = text::texts(args@);
    let f = flag(name);
    let n: usize = args.len();
    match text::find_text(args, f.as_str()) {
        None => None,
        Some(p) => {
            if p + 1 >= n {
                return None;
            }
            assert(all[p + 1] == args@[p + 1]@);
            Some(args[p + 1].clone())
        },
    }
}

/// Extract a repeated argument (`--tag a --tag b`).
pub fn repeated_args(args: &Vec<String>, name: &str) -> (r: Vec<String>)
    ensures
        text::texts(r@) == repeated_values(text::texts(args@), name@),
{
    let ghost all = text::texts(args@);
    let f = flag(name);
    let n: usize = args.len();
    let mut r: Vec<String> = Vec::new();
    let mut i: usize = 0;
    assert(text::texts(r@) =~= values_before(all, f@, 0));
    while i < n
        invariant
            i <= n,
            n == args@.len(),
            all == text::texts(args@),
            text::texts(r@) == values_before(all, f@, i as int),
        decreases n - i,
    {
        assert(all[i as int] == args@[i as int]@);
        if text::same(args[i].as_str(), f.as_str()) && i + 1 < n {
            let ghost before = text::texts(r@);
            assert(all[i + 1] == args@[i + 1]@);
            r.push(args[i + 1].clone());
            assert(text::texts(r@) =~= before.push(all[i + 1]));
        }
        i = i + 1;
    }
    r
}

/// The parts of a comma-separated text, trimmed, without the empty ones.
pub fn comma_parts(s: &str) -> (r: Vec<String>)
    ensures
        text::texts(r@) == trimmed_parts(text::split(s@, ',')),
{
    let parts = text::split_at_char(s, ',');
    let ghost all = text::texts(parts@);
    let mut r: Vec<String> = Vec::new();
    let mut i: usize = 0;
    assert(all.take(0) =~= Seq::empty());
    assert(text::texts(r@) =~= trimmed_parts(all.take(0)));
    while i < parts.len()
        invariant
            i <= parts@.len(),
            all == text::texts(parts@),
            text::texts(r@) == trimmed_parts(all.take(i as int)),
        decreases parts@.len() - i,
    {
        assert(all.take(i + 1).drop_last() =~= all.take(i as int));
        assert(all.take(i + 1).last() == parts@[i as int]@);
        let part = text::trim(parts[i].as_str());
        if !part.as_str().is_empty() {
            let ghost before = text::texts(r@);
            let ghost added = part@;
            r.push(part);
            assert(text::texts(r@) =~= before.push(added));
        }
        i = i + 1;
    }
    assert(all.take(i as int) =~= all);
    r
}

/// Comma-separated list argument (`--files a.rs,b.rs`).
pub fn comma_list(args: &Vec<String>, name: &str) -> (r: Vec<String>)
    ensures
        text::texts(r@) == listed_values(text::texts(args@), name@),
{
    match optional_str(args, name) {
        Some(s) => comma_parts(s.as_str()),
        None => {
            let r: Vec<String> = Vec::new();
            assert(text::texts(r@) =~= Seq::empty());
            r
        },
    }
}

/// The value of each required option.
pub open spec fn are_values(
    args: Seq<Seq<char>>,
    names: Seq<Seq<char>>,
    values: Seq<Seq<char>>,
) -> bool {
    &&& values.len() == names.len()
    &&& forall|i: int|
        0 <= i < names.len() ==> required_value(args, #[trigger] names[i]) == Ok::<
            Seq<char>,
            Seq<char>,
        >(values[i])
}

/// `e` is what is wrong with the first required option with which something is wrong.
pub open spec fn is_first_problem(
    args: Seq<Seq<char>>,
    names: Seq<Seq<char>>,
    e: Seq<char>,
) -> bool {
    exists|i: int|
        0 <= i < names.len() && required_value(args, #[trigger] names[i]) == Err::<
            Seq<char>,
            Seq<char>,
        >(e) && forall|j: int| 0 <= j < i ==> required_value(args, #[trigger] names[j]) is Ok
}

/// Extract several required arguments, in their order.
pub(crate) fn require_all(
    args: &Vec<String>,
    names: &Vec<&str>,
    Ghost(list): Ghost<Seq<Seq<char>>>,
) -> (r: Result<Vec<String>, String>)
    requires
        list.len() == names@.len(),
        forall|i: int| 0 <= i < list.len() ==> #[trigger] list[i] == names@[i]@,
    ensures
        match r {
            Ok(v) => are_values(text::texts(args@), list, text::texts(v@)),
            Err(e) => is_first_problem(text::texts(args@), list, e@),
        },
{
    let ghost all = text::texts(args@);
    let mut r: Vec<String> = Vec::new();
    let mut i: usize = 0;
    while i < names.len()
        invariant
            i <= names@.len(),
            all == text::texts(args@),
            list.len() == names@.len(),
            forall|k: int| 0 <= k < list.len() ==> #[trigger] list[k] == names@[k]@,
            r@.len() == i,
            forall|k: int|
                0 <= k < i ==> required_value(all, #[trigger] list[k]) == Ok::<
                    Seq<char>,
                    Seq<char>,
                >(r@[k]@),
        decreases names@.len() - i,
    {
        assert(list[i as int] == names@[i as int]@);
        match require_str(args, names[i]) {
            Ok(s) => {
                r.push(s);
            },
            Err(e) => {
                assert(required_value(all, list[i as int]) == Err::<Seq<char>, Seq<char>>(e@));
                return Err(e);
            },
        }
        i = i + 1;
    }
    assert(are_values(all, list, text::texts(r@)));
    Ok(r)
}

// ---------------------------------------------------------------------------
// Laws
// ---------------------------------------------------------------------------

/// An option takes the argument behind the first place where its flag stands; without the
/// flag it has none.
pub proof fn options_take_the_next_argument(args: Seq<Seq<char>>, name: Seq<char>, p: int)
    requires
        0 <= p <= args.len(),
        p < args.len() ==> args[p] == "--"@ + name,
        forall|k: int| 0 <= k < p ==> #[trigger] args[k] != "--"@ + name,
    ensures
        p == args.len() ==> option_value(args, name) is None && required_value(args, name) is Err,
        p == args.len() - 1 ==> option_value(args, name) is None && required_value(
            args,
            name,
        ) is Err,
        p < args.len() - 1 ==> option_value(args, name) == Some(args[p + 1]),
        p < args.len() - 1 && !text::starts_with(args[p + 1], "--"@) ==> required_value(args, name)
            == Ok::<Seq<char>, Seq<char>>(args[p + 1]),
        p < args.len() - 1 && text::starts_with(args[p + 1], "--"@) ==> required_value(
            args,
            name,
        ) is Err,
{
    text::position_is_first(args, "--"@ + name);
}

/// A repeated option has a value for every place where its flag stands and an argument
/// follows: the arguments that follow, in order.
pub proof fn repeated_options_are_all_read(args: Seq<Seq<char>>, name: Seq<char>) -> (at: Seq<int>)
    ensures
        at.len() == repeated_values(args, name).len(),
        forall|i: int, j: int| 0 <= i < j < at.len() ==> #[trigger] at[i] < #[trigger] at[j],
        forall|i: int|
            0 <= i < at.len() ==> 0 <= #[trigger] at[i] < args.len() - 1 && repeated_values(
                args,
                name,
            )[i] == args[at[i] + 1],
        forall|k: int| #[trigger]
            at.contains(k) <==> 0 <= k < args.len() - 1 && args[k] == "--"@ + name,
{
    let at = values_at(args, "--"@ + name, args.len() as int);
    assert forall|k: int| #[trigger] at.contains(k) <==> 0 <= k < args.len() - 1 && args[k]
        == "--"@ + name by {}
    at
}

proof fn values_at(args: Seq<Seq<char>>, flag: Seq<char>, n: int) -> (at: Seq<int>)
    requires
        0 <= n <= args.len(),
    ensures
        at.len() == values_before(args, flag, n).len(),
        forall|i: int, j: int| 0 <= i < j < at.len() ==> #[trigger] at[i] < #[trigger] at[j],
        forall|i: int|
            0 <= i < at.len() ==> 0 <= #[trigger] at[i] < n && at[i] < args.len() - 1
                && values_before(args, flag, n)[i] == args[at[i] + 1],
        forall|k: int| #[trigger]
            at.contains(k) <==> 0 <= k < n && k < args.len() - 1 && args[k] == flag,
    decreases n,
{
    if n == 0 {
        Seq::empty()
    } else {
        let old_at = values_at(args, flag, n - 1);
        let taken = args[n - 1] == flag && n < args.len();
        let at = if taken {
            old_at.push(n - 1)
        } else {
            old_at
        };
        assert forall|k: int| #[trigger] at.contains(k) <==> 0 <= k < n && k < args.len() - 1
            && args[k] == flag by {
            if old_at.contains(k) {
                let m = choose|m: int| 0 <= m < old_at.len() && old_at[m] == k;
                assert(at[m] == k);
            }
            if at.contains(k) {
                let m = choose|m: int| 0 <= m < at.len() && at[m] == k;
                if m < old_at.len() {
                    assert(old_at[m] == k);
                    assert(old_at.contains(k));
                }
            }
            if taken && k == n - 1 {
                assert(at[old_at.len() as int] == k);
            }
        }
        at
    }
}

/// The parts of a list are trimmed and kept in their order, unless nothing is left of them.
pub proof fn parts_are_trimmed(parts: Seq<Seq<char>>)
    ensures
        trimmed_parts(parts) == parts.map_values(|p: Seq<char>| text::trimmed(p)).filter(
            |p: Seq<char>| p.len() > 0,
        ),
    decreases parts.len(),
{
    reveal(Seq::filter);
    let trim = |p: Seq<char>| text::trimmed(p);
    if parts.len() > 0 {
        parts_are_trimmed(parts.drop_last());
        assert(parts.map_values(trim).drop_last() =~= parts.drop_last().map_values(trim));
    }
}

} // verus!
