use crate::models::FailureMemory;
use crate::text;
use vstd::prelude::*;

verus! {

/// Scans active failures for recurring patterns and proposes preventive rules that
/// await confirmation: when a tag is carried by at least `min_occurrences`
/// failures, their `prevention` fields become a draft rule.
#[derive(Debug)]
pub struct ReflectionEngine {
    /// Minimum active failures sharing a tag before a rule is proposed.
    pub min_occurrences: usize,
}

/// One proposed preventive rule, distilled from the failures under a tag.
#[derive(Clone, Debug)]
pub struct SuggestedRule {
    pub pattern_tag: String,
    pub source_failure_ids: Vec<String>,
    /// The `prevention` texts of the sources, each once and in order.
    pub source_preventions: Vec<String>,
    pub occurrence_count: usize,
    pub suggested_workflow_name: String,
    /// The steps of the rule: the same texts.
    pub suggested_steps: Vec<String>,
    pub suggested_tags: Vec<String>,
}

/// Outcome of a reflection pass: what is proposed, and how much of it is new and
/// written.
#[derive(Clone, Debug)]
pub struct ReflectionPlan {
    pub suggestions: Vec<SuggestedRule>,
    pub created: usize,
}

// ---------------------------------------------------------------------------
// Tags
// ---------------------------------------------------------------------------

/// A failure carries a tag.
pub open spec fn carries(f: FailureMemory, tag: Seq<char>) -> bool {
    text::texts(f.tags@).contains(tag)
}

/// The positions of the failures that carry a tag, in order and each once.
pub open spec fn occurrences(failures: Seq<FailureMemory>, tag: Seq<char>) -> Seq<int>
    decreases failures.len(),
{
    if failures.len() == 0 {
        Seq::empty()
    } else {
        let before = occurrences(failures.drop_last(), tag);
        if carries(failures.last(), tag) {
            before.push(failures.len() - 1)
        } else {
            before
        }
    }
}

/// The occurrences of a tag are exactly the failures that carry it, in order: a failure
/// counts once, however often it lists the tag.
pub proof fn failures_count_once(failures: Seq<FailureMemory>, tag: Seq<char>)
    ensures
        forall|i: int, j: int|
            0 <= i < j < occurrences(failures, tag).len() ==> occurrences(failures, tag)[i]
                < occurrences(failures, tag)[j],
        forall|k: int| #[trigger]
            occurrences(failures, tag).contains(k) <==> 0 <= k < failures.len() && carries(
                failures[k],
                tag,
            ),
        occurrences(failures, tag).len() <= failures.len(),
    decreases failures.len(),
{
    let now = occurrences(failures, tag);
    if failures.len() > 0 {
        let init = failures.drop_last();
        let before = occurrences(init, tag);
        failures_count_once(init, tag);
        assert forall|i: int| 0 <= i < before.len() implies 0 <= #[trigger] before[i]
            < init.len() by {
            assert(before.contains(before[i]));
        }
        assert forall|k: int| #[trigger] now.contains(k) <==> 0 <= k < failures.len() && carries(
            failures[k],
            tag,
        ) by {
            if 0 <= k < init.len() {
                assert(init[k] == failures[k]);
            }
            assert(before.contains(k) <==> 0 <= k < init.len() && carries(init[k], tag));
            if carries(failures.last(), tag) {
                assert(now == before.push(failures.len() - 1));
                if before.contains(k) {
                    let i = choose|i: int| 0 <= i < before.len() && before[i] == k;
                    assert(now[i] == k);
                }
                if k == failures.len() - 1 {
                    assert(now[before.len() as int] == k);
                }
                if now.contains(k) {
                    let i = choose|i: int| 0 <= i < now.len() && now[i] == k;
                    if i < before.len() {
                        assert(before[i] == k);
                    }
                }
            }
        }
    }
}

/// The texts that are not blank.
pub open spec fn non_blank(parts: Seq<Seq<char>>) -> Seq<Seq<char>>
    decreases parts.len(),
{
    if parts.len() == 0 {
        Seq::empty()
    } else if text::is_blank(parts.last()) {
        non_blank(parts.drop_last())
    } else {
        non_blank(parts.drop_last()).push(parts.last())
    }
}

pub open spec fn ids_of(failures: Seq<FailureMemory>, at: Seq<int>) -> Seq<Seq<char>> {
    Seq::new(at.len(), |i: int| failures[at[i]].id@)
}

pub open spec fn preventions_of(failures: Seq<FailureMemory>, at: Seq<int>) -> Seq<Seq<char>> {
    Seq::new(at.len(), |i: int| failures[at[i]].prevention@)
}

/// Each text once, in the order in which it was first seen, and no blank one.
pub open spec fn distilled(parts: Seq<Seq<char>>) -> Seq<Seq<char>> {
    text::first_seen(non_blank(parts))
}

/// `rule` is the proposal for a tag.
pub open spec fn is_rule_for(
    rule: SuggestedRule,
    failures: Seq<FailureMemory>,
    tag: Seq<char>,
) -> bool {
    let at = occurrences(failures, tag);
    let steps = distilled(preventions_of(failures, at));
    &&& rule.pattern_tag@ == tag
    &&& text::texts(rule.source_failure_ids@) == ids_of(failures, at)
    &&& text::texts(rule.source_preventions@) == steps
    &&& rule.occurrence_count == at.len()
    &&& rule.suggested_workflow_name@ == "Prevent recurring "@ + tag + " failures"@
    &&& text::texts(rule.suggested_steps@) == steps
    &&& text::texts(rule.suggested_tags@) == seq![tag, "reflection"@, "auto-generated"@]
}

/// A tag recurs often enough for a rule.
pub open spec fn recurs(failures: Seq<FailureMemory>, tag: Seq<char>, min: int) -> bool {
    &&& !text::is_blank(tag)
    &&& occurrences(failures, tag).len() >= 1
    &&& occurrences(failures, tag).len() >= min
}

/// Proposals come by descending occurrence, then by tag.
pub open spec fn rule_before(a: SuggestedRule, b: SuggestedRule) -> bool {
    ||| a.occurrence_count > b.occurrence_count
    ||| a.occurrence_count == b.occurrence_count && text::text_lt(a.pattern_tag@, b.pattern_tag@)
}

pub open spec fn rules_sorted(rules: Seq<SuggestedRule>) -> bool {
    forall|i: int, j: int|
        0 <= i < j < rules.len() ==> #[trigger] rule_before(rules[i], rules[j])
}

pub open spec fn has_rule(rules: Seq<SuggestedRule>, tag: Seq<char>) -> bool {
    exists|i: int| 0 <= i < rules.len() && (#[trigger] rules[i]).pattern_tag@ == tag
}

pub open spec fn tags_of(rules: Seq<SuggestedRule>) -> Seq<Seq<char>> {
    Seq::new(rules.len(), |i: int| rules[i].pattern_tag@)
}

/// The proposals for a list of failures: one for each tag that recurs, in order.
pub open spec fn are_proposals(
    rules: Seq<SuggestedRule>,
    failures: Seq<FailureMemory>,
    min: int,
) -> bool {
    &&& rules_sorted(rules)
    &&& forall|tag: Seq<char>| #[trigger] has_rule(rules, tag) <==> recurs(failures, tag, min)
    &&& forall|i: int|
        0 <= i < rules.len() ==> is_rule_for(
            #[trigger] rules[i],
            failures,
            rules[i].pattern_tag@,
        )
}

/// The positions below `k` whose proposal is to be written: none on a dry run, else
/// those whose tag has no pending proposal.
pub open spec fn to_write(tags: Seq<Seq<char>>, pending: Seq<Seq<char>>, apply: bool, k: int) -> Seq<
    int,
>
    decreases k,
{
    if k <= 0 {
        Seq::empty()
    } else {
        let before = to_write(tags, pending, apply, k - 1);
        if apply && !pending.contains(tags[k - 1]) {
            before.push(k - 1)
        } else {
            before
        }
    }
}

pub open spec fn positions(v: Seq<usize>) -> Seq<int> {
    Seq::new(v.len(), |i: int| v[i] as int)
}

/// A dry run writes nothing.
pub proof fn dry_run_writes_nothing(tags: Seq<Seq<char>>, pending: Seq<Seq<char>>, k: int)
    ensures
        to_write(tags, pending, false, k) == Seq::<int>::empty(),
    decreases k,
{
    if k > 0 {
        dry_run_writes_nothing(tags, pending, k - 1);
    }
}

/// Once every proposal is pending, running again writes nothing.
pub proof fn running_again_writes_nothing(tags: Seq<Seq<char>>, pending: Seq<Seq<char>>, k: int)
    requires
        k <= tags.len(),
    ensures
        to_write(tags, pending + tags, true, k) == Seq::<int>::empty(),
    decreases k,
{
    if k > 0 {
        running_again_writes_nothing(tags, pending, k - 1);
        assert((pending + tags)[pending.len() + k - 1] == tags[k - 1]);
    }
}

/// The order of the proposals leaves no choice: the same tags come out in the same
/// places.
pub proof fn proposals_are_determined(
    a: Seq<SuggestedRule>,
    b: Seq<SuggestedRule>,
    failures: Seq<FailureMemory>,
    min: int,
)
    requires
        are_proposals(a, failures, min),
        are_proposals(b, failures, min),
    ensures
        tags_of(a) == tags_of(b),
    decreases a.len(),
{
    proposals_prefix(a, b, failures, min, 0);
}

/// From position `k` on, the two lists agree.
proof fn proposals_prefix(
    a: Seq<SuggestedRule>,
    b: Seq<SuggestedRule>,
    failures: Seq<FailureMemory>,
    min: int,
    k: int,
)
    requires
        are_proposals(a, failures, min),
        are_proposals(b, failures, min),
        0 <= k <= a.len(),
        k <= b.len(),
        forall|i: int| 0 <= i < k ==> (#[trigger] a[i]).pattern_tag@ == b[i].pattern_tag@,
    ensures
        tags_of(a) == tags_of(b),
    decreases a.len() - k,
{
    if k < a.len() {
        next_agrees(a, b, failures, min, k);
        proposals_prefix(a, b, failures, min, k + 1);
    } else {
        if k < b.len() {
            next_agrees(b, a, failures, min, k);
        }
        assert(tags_of(a) =~= tags_of(b));
    }
}

proof fn next_agrees(
    a: Seq<SuggestedRule>,
    b: Seq<SuggestedRule>,
    failures: Seq<FailureMemory>,
    min: int,
    k: int,
)
    requires
        are_proposals(a, failures, min),
        are_proposals(b, failures, min),
        0 <= k < a.len(),
        k <= b.len(),
        forall|i: int| 0 <= i < k ==> (#[trigger] a[i]).pattern_tag@ == b[i].pattern_tag@,
    ensures
        k < b.len(),
        a[k].pattern_tag@ == b[k].pattern_tag@,
{
    let tag = a[k].pattern_tag@;
    assert(has_rule(a, tag));
    assert(has_rule(b, tag));
    let j = choose|j: int| 0 <= j < b.len() && (#[trigger] b[j]).pattern_tag@ == tag;
    if j < k {
        assert(a[j].pattern_tag@ == b[j].pattern_tag@);
        assert(rule_before(a[j], a[k]));
        text::text_lt_asymmetric_or_equal(a[j].pattern_tag@, a[k].pattern_tag@);
    }
    if j > k {
        let other = b[k].pattern_tag@;
        assert(has_rule(b, other));
        assert(has_rule(a, other));
        let m = choose|m: int| 0 <= m < a.len() && (#[trigger] a[m]).pattern_tag@ == other;
        if m < k {
            assert(a[m].pattern_tag@ == b[m].pattern_tag@);
            assert(rule_before(b[m], b[k]));
            text::text_lt_asymmetric_or_equal(b[m].pattern_tag@, b[k].pattern_tag@);
        } else if m == k {
            assert(rule_before(b[k], b[j]));
            text::text_lt_asymmetric_or_equal(b[k].pattern_tag@, b[j].pattern_tag@);
        } else {
            assert(rule_before(a[k], a[m]));
            assert(rule_before(b[k], b[j]));
            assert(a[k].occurrence_count == b[j].occurrence_count);
            assert(a[m].occurrence_count == b[k].occurrence_count);
            text::text_lt_asymmetric_or_equal(tag, other);
        }
    }
}

impl Default for ReflectionEngine {
    fn default() -> (r: Self)
        ensures
            r.min_occurrences == 3,
    {
        Self::new()
    }
}

impl ReflectionEngine {
    /// The default threshold is 3.
    pub fn new() -> (r: Self)
        ensures
            r.min_occurrences == 3,
    {
        ReflectionEngine { min_occurrences: 3 }
    }

    pub fn with_min_occurrences(min_occurrences: usize) -> (r: Self)
        ensures
            r.min_occurrences == min_occurrences,
    {
        ReflectionEngine { min_occurrences }
    }

    /// Propose preventive rules for the tags that recur among the active failures.
    ///
    /// `pending` holds the tags with a pending proposal. The second part of the
    /// result lists the proposals to write: none on a dry run, and none for a
    /// pending tag, so that repeated runs add nothing.
    pub fn reflect(&self, failures: &Vec<FailureMemory>, pending: &Vec<String>, apply: bool) -> (r:
        (ReflectionPlan, Vec<usize>))
        ensures
            are_proposals(r.0.suggestions@, failures@, self.min_occurrences as int),
            positions(r.1@) == to_write(
                tags_of(r.0.suggestions@),
                text::texts(pending@),
                apply,
                r.0.suggestions@.len() as int,
            ),
            r.0.created == r.1@.len(),
    {
        let suggestions = self.propose(failures);
        let mut new: Vec<usize> = Vec::new();
        let ghost tags = tags_of(suggestions@);
        let mut i: usize = 0;
        assert(positions(new@) =~= to_write(tags, text::texts(pending@), apply, 0));
        while i < suggestions.len()
            invariant
                i <= suggestions@.len(),
                tags == tags_of(suggestions@),
                positions(new@) == to_write(tags, text::texts(pending@), apply, i as int),
            decreases suggestions@.len() - i,
        {
            if apply && !text::has_text(pending, suggestions[i].pattern_tag.as_str()) {
                let ghost before = positions(new@);
                new.push(i);
                assert(positions(new@) =~= before.push(i as int));
            }
            i = i + 1;
        }
        let created: usize = new.len();
        (ReflectionPlan { suggestions, created }, new)
    }

    /// The proposals for the tags that recur.
    pub fn propose(&self, failures: &Vec<FailureMemory>) -> (r: Vec<SuggestedRule>)
        ensures
            are_proposals(r@, failures@, self.min_occurrences as int),
    {
        let tags = all_tags(failures);
        let ghost seen = text::texts(tags@);
        let ghost min = self.min_occurrences as int;
        let mut rules: Vec<SuggestedRule> = Vec::new();
        let mut i: usize = 0;
        while i < tags.len()
            invariant
                i <= tags@.len(),
                seen == text::texts(tags@),
                min == self.min_occurrences,
                forall|tag: Seq<char>| #[trigger]
                    seen.contains(tag) <==> !text::is_blank(tag) && occurrences(
                        failures@,
                        tag,
                    ).len() >= 1,
                rules_sorted(rules@),
                forall|tag: Seq<char>|
                    #[trigger] has_rule(rules@, tag) <==> seen.take(i as int).contains(tag)
                        && recurs(failures@, tag, min),
                forall|k: int|
                    0 <= k < rules@.len() ==> is_rule_for(
                        #[trigger] rules@[k],
                        failures@,
                        rules@[k].pattern_tag@,
                    ),
            decreases tags@.len() - i,
        {
            let tag = tags[i].as_str();
            assert(seen[i as int] == tag@);
            assert(seen.contains(tag@));
            let at = find_occurrences(failures, tag);
            let ghost before = rules@;
            let enough = at.len() >= self.min_occurrences;
            let known = rule_known(&rules, tag);
            assert(positions(at@).len() == at@.len());
            assert(enough == recurs(failures@, tag@, min));
            if enough && !known {
                let rule = make_rule(failures, tag, &at);
                insert_rule(&mut rules, rule);
            }
            i = i + 1;
            proof {
                let now = seen.take(i as int);
                assert(now =~= seen.take(i - 1).push(tag@));
                assert forall|t: Seq<char>|
                    #[trigger] has_rule(rules@, t) <==> now.contains(t) && recurs(
                        failures@,
                        t,
                        min,
                    ) by {
                    text::push_contains(seen.take(i - 1), tag@, t);
                    assert(has_rule(before, t) <==> seen.take(i - 1).contains(t) && recurs(
                        failures@,
                        t,
                        min,
                    ));
                }
            }
        }
        assert(seen.take(i as int) =~= seen);
        assert forall|tag: Seq<char>| #[trigger] has_rule(rules@, tag) <==> recurs(
            failures@,
            tag,
            min,
        ) by {
            assert(recurs(failures@, tag, min) ==> seen.contains(tag));
        }
        rules
    }
}

/// Whether a tag has a rule already.
fn rule_known(rules: &Vec<SuggestedRule>, tag: &str) -> (r: bool)
    ensures
        r == has_rule(rules@, tag@),
{
    let mut i: usize = 0;
    while i < rules.len()
        invariant
            i <= rules@.len(),
            forall|k: int| 0 <= k < i ==> (#[trigger] rules@[k]).pattern_tag@ != tag@,
        decreases rules@.len() - i,
    {
        if text::same(rules[i].pattern_tag.as_str(), tag) {
            return true;
        }
        i = i + 1;
    }
    false
}

/// Put a rule in its place.
fn insert_rule(rules: &mut Vec<SuggestedRule>, rule: SuggestedRule)
    requires
        rules_sorted(old(rules)@),
        !has_rule(old(rules)@, rule.pattern_tag@),
    ensures
        rules_sorted(final(rules)@),
        exists|p: int|
            0 <= p <= old(rules)@.len() && final(rules)@ == old(rules)@.insert(p, rule),
        forall|tag: Seq<char>|
            #[trigger] has_rule(final(rules)@, tag) <==> has_rule(old(rules)@, tag) || tag
                == rule.pattern_tag@,
        forall|k: int|
            0 <= k < final(rules)@.len() ==> #[trigger] final(rules)@[k] == rule || exists|j: int|
                0 <= j < old(rules)@.len() && old(rules)@[j] == final(rules)@[k],
{
    let ghost before = rules@;
    let mut p: usize = 0;
    while p < rules.len() && goes_before(&rules[p], &rule)
        invariant
            p <= rules@.len(),
            forall|k: int| 0 <= k < p ==> rule_before(#[trigger] rules@[k], rule),
        decreases rules@.len() - p,
    {
        p = p + 1;
    }
    proof {
        assert forall|k: int| p <= k < before.len() implies rule_before(
            rule,
            #[trigger] before[k],
        ) by {
            assert(!has_rule(before, rule.pattern_tag@));
            assert(before[p as int].pattern_tag@ != rule.pattern_tag@);
            not_before_is_after(before[p as int], rule);
            if k > p {
                assert(rule_before(before[p as int], before[k]));
                rule_before_transitive(rule, before[p as int], before[k]);
            }
        }
    }
    rules.insert(p, rule);
    proof {
        let now = rules@;
        assert(now == before.insert(p as int, rule));
        assert forall|i: int, j: int| 0 <= i < j < now.len() implies #[trigger] rule_before(
            now[i],
            now[j],
        ) by {
            if i < p && j < p {
                assert(rule_before(before[i], before[j]));
            } else if i < p && j > p {
                assert(rule_before(before[i], before[j - 1]));
            } else if i > p {
                assert(rule_before(before[i - 1], before[j - 1]));
            }
        }
        assert forall|tag: Seq<char>|
            #[trigger] has_rule(now, tag) <==> has_rule(before, tag) || tag == rule.pattern_tag@ by {
            if has_rule(before, tag) {
                let k = choose|k: int|
                    0 <= k < before.len() && (#[trigger] before[k]).pattern_tag@ == tag;
                if k < p {
                    assert(now[k].pattern_tag@ == tag);
                } else {
                    assert(now[k + 1].pattern_tag@ == tag);
                }
            }
            if tag == rule.pattern_tag@ {
                assert(now[p as int].pattern_tag@ == tag);
            }
            if has_rule(now, tag) {
                let k = choose|k: int|
                    0 <= k < now.len() && (#[trigger] now[k]).pattern_tag@ == tag;
                if k < p {
                    assert(before[k].pattern_tag@ == tag);
                } else if k > p {
                    assert(before[k - 1].pattern_tag@ == tag);
                }
            }
        }
        assert forall|k: int| 0 <= k < now.len() implies #[trigger] now[k] == rule || exists|j: int|
            0 <= j < before.len() && before[j] == now[k] by {
            if k < p {
                assert(before[k] == now[k]);
            } else if k > p {
                assert(before[k - 1] == now[k]);
            }
        }
    }
}

fn goes_before(a: &SuggestedRule, b: &SuggestedRule) -> (r: bool)
    ensures
        r == rule_before(*a, *b),
{
    a.occurrence_count > b.occurrence_count || (a.occurrence_count == b.occurrence_count
        && text::comes_before(a.pattern_tag.as_str(), b.pattern_tag.as_str()))
}

proof fn not_before_is_after(a: SuggestedRule, b: SuggestedRule)
    requires
        !rule_before(a, b),
        a.pattern_tag@ != b.pattern_tag@,
    ensures
        rule_before(b, a),
{
    if !text::text_lt(b.pattern_tag@, a.pattern_tag@) && !text::text_lt(
        a.pattern_tag@,
        b.pattern_tag@,
    ) {
        text::text_lt_total(a.pattern_tag@, b.pattern_tag@);
    }
}

proof fn rule_before_transitive(a: SuggestedRule, b: SuggestedRule, c: SuggestedRule)
    requires
        rule_before(a, b),
        rule_before(b, c),
    ensures
        rule_before(a, c),
{
    if text::text_lt(a.pattern_tag@, b.pattern_tag@) && text::text_lt(
        b.pattern_tag@,
        c.pattern_tag@,
    ) {
        text::text_lt_transitive(a.pattern_tag@, b.pattern_tag@, c.pattern_tag@);
    }
}

/// Every tag that is not blank, as often as it occurs.
fn all_tags(failures: &Vec<FailureMemory>) -> (r: Vec<String>)
    ensures
        forall|tag: Seq<char>| #[trigger]
            text::texts(r@).contains(tag) <==> !text::is_blank(tag) && occurrences(
                failures@,
                tag,
            ).len() >= 1,
{
    let mut r: Vec<String> = Vec::new();
    let mut i: usize = 0;
    while i < failures.len()
        invariant
            i <= failures@.len(),
            forall|tag: Seq<char>|
                #[trigger] text::texts(r@).contains(tag) <==> !text::is_blank(tag) && occurrences(
                    failures@.take(i as int),
                    tag,
                ).len() >= 1,
        decreases failures@.len() - i,
    {
        let tags = &failures[i].tags;
        let ghost listed = text::texts(tags@);
        let ghost start = text::texts(r@);
        let mut k: usize = 0;
        assert(listed.take(0) =~= Seq::empty());
        while k < tags.len()
            invariant
                k <= tags@.len(),
                listed == text::texts(tags@),
                forall|tag: Seq<char>|
                    #[trigger] text::texts(r@).contains(tag) <==> start.contains(tag) || (
                    !text::is_blank(tag) && listed.take(k as int).contains(tag)),
            decreases tags@.len() - k,
        {
            let ghost before = text::texts(r@);
            let ghost tag = listed[k as int];
            let empty = text::blank(tags[k].as_str());
            if !empty {
                r.push(tags[k].clone());
                assert(text::texts(r@) =~= before.push(tag));
            }
            k = k + 1;
            assert(listed.take(k as int) =~= listed.take(k - 1).push(tag));
            assert forall|t: Seq<char>|
                #[trigger] text::texts(r@).contains(t) <==> start.contains(t) || (
                !text::is_blank(t) && listed.take(k as int).contains(t)) by {
                text::push_contains(before, tag, t);
                text::push_contains(listed.take(k - 1), tag, t);
                assert(before.contains(t) <==> start.contains(t) || (!text::is_blank(t)
                    && listed.take(k - 1).contains(t)));
                assert(empty == text::is_blank(tag));
            }
        }
        assert(listed.take(k as int) =~= listed);
        i = i + 1;
        assert(failures@.take(i as int).drop_last() =~= failures@.take(i - 1));
        assert forall|tag: Seq<char>|
            #[trigger] text::texts(r@).contains(tag) <==> !text::is_blank(tag) && occurrences(
                failures@.take(i as int),
                tag,
            ).len() >= 1 by {
            assert(start.contains(tag) <==> !text::is_blank(tag) && occurrences(
                failures@.take(i - 1),
                tag,
            ).len() >= 1);
            assert(failures@.take(i as int).last() == failures@[i - 1]);
            assert(carries(failures@[i - 1], tag) == listed.contains(tag));
        }
    }
    assert(failures@.take(i as int) =~= failures@);
    r
}

/// The positions of the failures that carry a tag.
fn find_occurrences(failures: &Vec<FailureMemory>, tag: &str) -> (r: Vec<usize>)
    ensures
        positions(r@) == occurrences(failures@, tag@),
        forall|k: int| 0 <= k < r@.len() ==> #[trigger] r@[k] < failures@.len(),
{
    let mut r: Vec<usize> = Vec::new();
    let mut i: usize = 0;
    assert(positions(r@) =~= occurrences(failures@.take(0), tag@));
    while i < failures.len()
        invariant
            i <= failures@.len(),
            positions(r@) == occurrences(failures@.take(i as int), tag@),
            forall|k: int| 0 <= k < r@.len() ==> #[trigger] r@[k] < failures@.len(),
        decreases failures@.len() - i,
    {
        let ghost before = positions(r@);
        if text::has_text(&failures[i].tags, tag) {
            r.push(i);
            assert(positions(r@) =~= before.push(i as int));
        }
        assert(failures@.take(i + 1).last() == failures@[i as int]);
        assert(failures@.take(i + 1).drop_last() =~= failures@.take(i as int));
        i = i + 1;
    }
    assert(failures@.take(i as int) =~= failures@);
    r
}

/// De-duplicate while preserving first-seen order; drop blank items.
pub fn dedup_preserve_order(items: &Vec<String>) -> (r: Vec<String>)
    ensures
        text::texts(r@) == distilled(text::texts(items@)),
{
    let mut kept: Vec<String> = Vec::new();
    let ghost all = text::texts(items@);
    let mut i: usize = 0;
    assert(text::texts(kept@) =~= non_blank(all.take(0)));
    while i < items.len()
        invariant
            i <= items@.len(),
            all == text::texts(items@),
            text::texts(kept@) == non_blank(all.take(i as int)),
        decreases items@.len() - i,
    {
        assert(all.take(i + 1).drop_last() =~= all.take(i as int));
        if !text::blank(items[i].as_str()) {
            let ghost before = text::texts(kept@);
            kept.push(items[i].clone());
            assert(text::texts(kept@) =~= before.push(all[i as int]));
        }
        i = i + 1;
    }
    assert(all.take(i as int) =~= all);
    text::distinct(&kept)
}

fn make_rule(failures: &Vec<FailureMemory>, tag: &str, at: &Vec<usize>) -> (r: SuggestedRule)
    requires
        positions(at@) == occurrences(failures@, tag@),
        forall|k: int| 0 <= k < at@.len() ==> #[trigger] at@[k] < failures@.len(),
    ensures
        is_rule_for(r, failures@, tag@),
{
    let ghost places = positions(at@);
    let mut ids: Vec<String> = Vec::new();
    let mut texts: Vec<String> = Vec::new();
    let mut k: usize = 0;
    assert(text::texts(ids@) =~= ids_of(failures@, places).take(0));
    assert(text::texts(texts@) =~= preventions_of(failures@, places).take(0));
    while k < at.len()
        invariant
            k <= at@.len(),
            places == positions(at@),
            forall|k: int| 0 <= k < at@.len() ==> #[trigger] at@[k] < failures@.len(),
            text::texts(ids@) == ids_of(failures@, places).take(k as int),
            text::texts(texts@) == preventions_of(failures@, places).take(k as int),
        decreases at@.len() - k,
    {
        let f = &failures[at[k]];
        let ghost before = text::texts(ids@);
        let ghost before_texts = text::texts(texts@);
        ids.push(f.id.clone());
        texts.push(f.prevention.clone());
        assert(text::texts(ids@) =~= before.push(f.id@));
        assert(text::texts(texts@) =~= before_texts.push(f.prevention@));
        k = k + 1;
        assert(ids_of(failures@, places).take(k as int) =~= ids_of(failures@, places).take(
            k - 1,
        ).push(f.id@));
        assert(preventions_of(failures@, places).take(k as int) =~= preventions_of(
            failures@,
            places,
        ).take(k - 1).push(f.prevention@));
    }
    assert(ids_of(failures@, places).take(k as int) =~= ids_of(failures@, places));
    assert(preventions_of(failures@, places).take(k as int) =~= preventions_of(
        failures@,
        places,
    ));
    let steps = dedup_preserve_order(&texts);
    let mut name = "Prevent recurring ".to_owned();
    name.append(tag);
    name.append(" failures");
    let tags = vec![tag.to_owned(), "reflection".to_owned(), "auto-generated".to_owned()];
    assert(text::texts(tags@) =~= seq![tag@, "reflection"@, "auto-generated"@]);
    SuggestedRule {
        pattern_tag: tag.to_owned(),
        source_failure_ids: ids,
        source_preventions: text::copy_list(&steps),
        occurrence_count: at.len(),
        suggested_workflow_name: name,
        suggested_steps: steps,
        suggested_tags: tags,
    }
}

// ---------------------------------------------------------------------------
// Laws
// ---------------------------------------------------------------------------

/// On a run that is applied, exactly the proposals whose tag has no pending one are
/// written, in their order.
pub proof fn new_proposals_are_written(tags: Seq<Seq<char>>, pending: Seq<Seq<char>>, k: int)
    requires
        0 <= k <= tags.len(),
    ensures
        forall|i: int| #[trigger]
            to_write(tags, pending, true, k).contains(i) <==> 0 <= i < k && !pending.contains(
                tags[i],
            ),
        forall|i: int, j: int|
            0 <= i < j < to_write(tags, pending, true, k).len() ==> #[trigger] to_write(
                tags,
                pending,
                true,
                k,
            )[i] < #[trigger] to_write(tags, pending, true, k)[j],
    decreases k,
{
    let now = to_write(tags, pending, true, k);
    if k > 0 {
        new_proposals_are_written(tags, pending, k - 1);
        let before = to_write(tags, pending, true, k - 1);
        assert forall|i: int| #[trigger] now.contains(i) <==> 0 <= i < k && !pending.contains(
            tags[i],
        ) by {
            if before.contains(i) {
                let m = choose|m: int| 0 <= m < before.len() && before[m] == i;
                assert(now[m] == i);
            }
            if now.contains(i) {
                let m = choose|m: int| 0 <= m < now.len() && now[m] == i;
                if m < before.len() {
                    assert(before[m] == i);
                    assert(before.contains(i));
                }
            }
            if i == k - 1 && !pending.contains(tags[i]) {
                assert(now[before.len() as int] == i);
            }
        }
        assert forall|i: int, j: int| 0 <= i < j < now.len() implies #[trigger] now[i]
            < #[trigger] now[j] by {
            assert(now[i] == before[i]);
            assert(before.contains(before[i]));
            if j < before.len() {
                assert(before[i] < before[j]);
            }
        }
    }
}

/// A rule is proposed for a tag just where enough failures carry it and it is not blank;
/// it names those failures, and its steps are their preventions.
pub proof fn rules_rest_on_enough_failures(
    rules: Seq<SuggestedRule>,
    failures: Seq<FailureMemory>,
    min: int,
    tag: Seq<char>,
)
    requires
        are_proposals(rules, failures, min),
    ensures
        (exists|i: int| 0 <= i < rules.len() && (#[trigger] rules[i]).pattern_tag@ == tag) <==> {
            let n = failures.filter(
                |f: FailureMemory| text::texts(f.tags@).contains(tag),
            ).len();
            !text::is_blank(tag) && n >= 1 && n >= min
        },
        forall|i: int|
            0 <= i < rules.len() && (#[trigger] rules[i]).pattern_tag@ == tag ==> {
                let sources = failures.filter(
                    |f: FailureMemory| text::texts(f.tags@).contains(tag),
                );
                &&& rules[i].occurrence_count == sources.len()
                &&& rules[i].source_failure_ids@.len() == sources.len()
                &&& forall|k: int|
                    0 <= k < sources.len() ==> (#[trigger] rules[i].source_failure_ids@[k])@
                        == sources[k].id@
            },
{
    occurrences_filter(failures, tag);
    let at = occurrences(failures, tag);
    let sources = failures.filter(|f: FailureMemory| text::texts(f.tags@).contains(tag));
    assert(has_rule(rules, tag) <==> recurs(failures, tag, min));
    assert forall|i: int| 0 <= i < rules.len() && (#[trigger] rules[i]).pattern_tag@ == tag implies {
        &&& rules[i].occurrence_count == sources.len()
        &&& rules[i].source_failure_ids@.len() == sources.len()
        &&& forall|k: int|
            0 <= k < sources.len() ==> (#[trigger] rules[i].source_failure_ids@[k])@
                == sources[k].id@
    } by {
        assert(is_rule_for(rules[i], failures, rules[i].pattern_tag@));
        let ids = rules[i].source_failure_ids@;
        assert(text::texts(ids).len() == ids.len());
        assert forall|k: int| 0 <= k < sources.len() implies (#[trigger] ids[k])@
            == sources[k].id@ by {
            assert(text::texts(ids)[k] == ids_of(failures, at)[k]);
            assert(sources[k] == failures[at[k]]);
        }
    }
}

proof fn occurrences_filter(failures: Seq<FailureMemory>, tag: Seq<char>)
    ensures
        ({
            let sources = failures.filter(
                |f: FailureMemory| text::texts(f.tags@).contains(tag),
            );
            &&& occurrences(failures, tag).len() == sources.len()
            &&& forall|k: int|
                0 <= k < sources.len() ==> 0 <= #[trigger] occurrences(failures, tag)[k]
                    < failures.len() && sources[k] == failures[occurrences(failures, tag)[k]]
        }),
    decreases failures.len(),
{
    reveal(Seq::filter);
    if failures.len() > 0 {
        occurrences_filter(failures.drop_last(), tag);
    }
}

/// The steps of a rule are the preventions of its failures without blank ones, each once.
pub proof fn steps_are_preventions(parts: Seq<Seq<char>>)
    ensures
        non_blank(parts) == parts.filter(|s: Seq<char>| !text::is_blank(s)),
        distilled(parts).no_duplicates(),
        forall|s: Seq<char>| #[trigger]
            distilled(parts).contains(s) <==> parts.contains(s) && !text::is_blank(s),
    decreases parts.len(),
{
    non_blank_filters(parts);
    text::first_seen_is_distinct(non_blank(parts));
    let f = |s: Seq<char>| !text::is_blank(s);
    assert forall|s: Seq<char>| #[trigger] distilled(parts).contains(s) <==> parts.contains(s)
        && !text::is_blank(s) by {
        assert(distilled(parts).contains(s) <==> non_blank(parts).contains(s));
        if non_blank(parts).contains(s) {
            parts.lemma_filter_contains_rev(f, s);
        }
        if parts.contains(s) && f(s) {
            let i = choose|i: int| 0 <= i < parts.len() && parts[i] == s;
            parts.lemma_filter_contains(f, i);
        }
    }
}

proof fn non_blank_filters(parts: Seq<Seq<char>>)
    ensures
        non_blank(parts) == parts.filter(|s: Seq<char>| !text::is_blank(s)),
    decreases parts.len(),
{
    reveal(Seq::filter);
    if parts.len() > 0 {
        non_blank_filters(parts.drop_last());
    }
}

} // verus!
