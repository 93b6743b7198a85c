use crate::order;
use crate::order::{Ranked, SortKey};
use crate::retrieval::bm25;
use crate::retrieval::bm25::{Score, SearchResult};
use crate::retrieval::reranker;
use crate::text;
use vstd::prelude::*;

verus! {

/// Context budget for controlling memory usage in a context window.
#[derive(Clone, Debug)]
pub struct ContextBudget {
    pub max_tokens: usize,
    pub reserved_for_user: usize,
    pub reserved_for_agent: usize,
    pub reserved_for_memory: usize,
}

impl ContextBudget {
    /// Give the memory its share and halve the rest.
    pub fn new(total_tokens: usize, memory_percent: u8) -> (r: Self)
        requires
            total_tokens * memory_percent <= usize::MAX,
            memory_percent <= 100,
        ensures
            r.max_tokens == total_tokens,
            r.reserved_for_memory == total_tokens * memory_percent / 100,
            r.reserved_for_user == (total_tokens - r.reserved_for_memory) / 2,
            r.reserved_for_agent == r.reserved_for_user,
            r.reserved_for_memory + r.reserved_for_user + r.reserved_for_agent <= r.max_tokens,
    {
        let memory_tokens: usize = total_tokens * memory_percent as usize / 100;
        assert(total_tokens * memory_percent <= total_tokens * 100) by (nonlinear_arith)
            requires
                memory_percent <= 100,
        ;
        let remaining: usize = total_tokens - memory_tokens;
        ContextBudget {
            max_tokens: total_tokens,
            reserved_for_user: remaining / 2,
            reserved_for_agent: remaining / 2,
            reserved_for_memory: memory_tokens,
        }
    }
}

/// Content type for token estimation.
#[derive(Clone, Copy, Debug, PartialEq, Eq, Structural)]
pub enum ContentType {
    English,
    Chinese,
    Code,
}

/// The blocks of CJK unified and compatibility ideographs.
pub open spec fn is_chinese(c: char) -> bool {
    let n = c as u32;
    ||| 0x4e00 <= n <= 0x9fff
    ||| 0x3400 <= n <= 0x4dbf
    ||| 0x20000 <= n <= 0x2a6df
    ||| 0x2a700 <= n <= 0x2b73f
    ||| 0x2b740 <= n <= 0x2b81f
    ||| 0x2b820 <= n <= 0x2ceaf
    ||| 0xf900 <= n <= 0xfaff
    ||| 0x2f800 <= n <= 0x2fa1f
}

pub open spec fn is_plain(c: char) -> bool {
    c as u32 <= 127
}

/// Neither ASCII nor Chinese.
pub open spec fn is_other(c: char) -> bool {
    !is_plain(c) && !is_chinese(c)
}

/// The number of characters of a sort.
pub open spec fn tally(s: Seq<char>, sort: spec_fn(char) -> bool) -> int
    decreases s.len(),
{
    if s.len() == 0 {
        0
    } else {
        tally(s.drop_last(), sort) + if sort(s.last()) {
            1int
        } else {
            0
        }
    }
}

/// The quotient, rounded up.
pub open spec fn ceil_div(a: int, b: int) -> int {
    (a + b - 1) / b
}

/// Four ASCII characters, two Chinese ones or three others to a token, rounded up.
pub open spec fn bare_tokens(s: Seq<char>) -> int {
    ceil_div(
        3 * tally(s, |c: char| is_plain(c)) + 6 * tally(s, |c: char| is_chinese(c)) + 4 * tally(
            s,
            |c: char| is_other(c),
        ),
        12,
    )
}

/// The estimate with a fifth added, rounded up, and at least one.
pub open spec fn token_estimate(s: Seq<char>) -> int {
    vstd::math::max(1, ceil_div(6 * bare_tokens(s), 5))
}

/// The content type that dominates a text.
pub open spec fn content_type(s: Seq<char>) -> ContentType {
    let english = tally(s, |c: char| is_plain(c));
    let chinese = tally(s, |c: char| is_chinese(c));
    if s.len() == 0 {
        ContentType::English
    } else if chinese > english / 2 {
        ContentType::Chinese
    } else if english > s.len() as int / 2 {
        ContentType::English
    } else {
        ContentType::Code
    }
}

/// Whether a character is a Chinese one.
pub fn is_chinese_char(ch: char) -> (r: bool)
    ensures
        r == is_chinese(ch),
{
    let n: u32 = ch as u32;
    (0x4e00 <= n && n <= 0x9fff) || (0x3400 <= n && n <= 0x4dbf) || (0x20000 <= n && n <= 0x2a6df)
        || (0x2a700 <= n && n <= 0x2b73f) || (0x2b740 <= n && n <= 0x2b81f) || (0x2b820 <= n && n
        <= 0x2ceaf) || (0xf900 <= n && n <= 0xfaff) || (0x2f800 <= n && n <= 0x2fa1f)
}

/// The numbers of ASCII, Chinese and other characters.
fn count_chars(s: &str) -> (r: (usize, usize, usize))
    ensures
        r.0 == tally(s@, |c: char| is_plain(c)),
        r.1 == tally(s@, |c: char| is_chinese(c)),
        r.2 == tally(s@, |c: char| is_other(c)),
        r.0 + r.1 + r.2 == s@.len(),
        s@.len() <= usize::MAX,
{
    let v = text::chars_of(s);
    let ghost plain = |c: char| is_plain(c);
    let ghost han = |c: char| is_chinese(c);
    let ghost rest = |c: char| is_other(c);
    let mut a: usize = 0;
    let mut b: usize = 0;
    let mut o: usize = 0;
    let mut i: usize = 0;
    while i < v.len()
        invariant
            i <= v@.len() == v.len(),
            a + b + o == i,
            plain == (|c: char| is_plain(c)),
            han == (|c: char| is_chinese(c)),
            rest == (|c: char| is_other(c)),
            a == tally(v@.take(i as int), plain),
            b == tally(v@.take(i as int), han),
            o == tally(v@.take(i as int), rest),
        decreases v@.len() - i,
    {
        let c = v[i];
        assert(v@.take(i + 1).drop_last() =~= v@.take(i as int));
        if c as u32 <= 127 {
            a = a + 1;
        } else if is_chinese_char(c) {
            b = b + 1;
        } else {
            o = o + 1;
        }
        i = i + 1;
    }
    assert(v@.take(i as int) =~= s@);
    (a, b, o)
}

// ---------------------------------------------------------------------------
// Order and dates
// ---------------------------------------------------------------------------

/// Failures come before decisions, these before episodes, these before procedures.
pub open spec fn priority(memory_type: Seq<char>) -> int {
    if memory_type == "failure"@ {
        0
    } else if memory_type == "decision"@ {
        1
    } else if memory_type == "episodic"@ {
        2
    } else if memory_type == "procedural"@ {
        3
    } else {
        4
    }
}

pub fn memory_type_priority(mt: &str) -> (r: u8)
    ensures
        r == priority(mt@),
{
    if text::same(mt, "failure") {
        0
    } else if text::same(mt, "decision") {
        1
    } else if text::same(mt, "episodic") {
        2
    } else if text::same(mt, "procedural") {
        3
    } else {
        4
    }
}

/// What a result is placed by: its type first, then its score, the best one first.
#[derive(Clone, Copy, Debug)]
pub struct ContextKey {
    pub priority: u8,
    pub rank: i64,
}

impl Ranked for ContextKey {
    open spec fn lt(&self, other: &Self) -> bool {
        self.priority < other.priority || (self.priority == other.priority && self.rank
            > other.rank)
    }

    proof fn lt_asymmetric(a: &Self, b: &Self) {
    }

    proof fn le_transitive(a: &Self, b: &Self, c: &Self) {
    }
}

impl SortKey for ContextKey {
    fn is_lt(&self, other: &Self) -> (r: bool) {
        self.priority < other.priority || (self.priority == other.priority && self.rank
            > other.rank)
    }
}

pub open spec fn context_key(r: SearchResult) -> ContextKey {
    ContextKey { priority: priority(r.memory_type@) as u8, rank: r.score.rank }
}

pub open spec fn keyed(s: Seq<SearchResult>) -> Seq<(ContextKey, SearchResult)> {
    Seq::new(s.len(), |i: int| (context_key(s[i]), s[i]))
}

/// The results in the order of their priority.
pub open spec fn by_priority(s: Seq<SearchResult>) -> Seq<SearchResult> {
    order::seconds(order::ordered(keyed(s)))
}

/// The date of a Unix timestamp in UTC, as `chrono` formats it by a pattern; none
/// for a time that `chrono` cannot hold.
pub uninterp spec fn utc_date(timestamp: int, pattern: Seq<char>) -> Option<Seq<char>>;

/// Calls `chrono::DateTime::from_timestamp` and formats what it returns. The pattern
/// is one that `chrono` can format.
#[verifier::external_body]
fn format_utc(timestamp: i64, pattern: &str) -> (r: Option<String>)
    requires
        pattern@ == "%Y-%m-%d"@,
    ensures
        text::opt_text(r) == utc_date(timestamp as int, pattern@),
{
    chrono::DateTime::from_timestamp(timestamp, 0).map(|t| t.format(pattern).to_string())
}

/// A date, or the number itself where it stands for no date.
pub open spec fn date_or_number(date: Option<Seq<char>>, timestamp: int) -> Seq<char> {
    match date {
        Some(d) => d,
        None => text::signed_decimal(timestamp),
    }
}

/// Format a Unix timestamp as a human-readable date.
pub fn format_timestamp(ts: i64) -> (r: String)
    ensures
        r@ == date_or_number(utc_date(ts as int, "%Y-%m-%d"@), ts as int),
{
    date_text(format_utc(ts, "%Y-%m-%d"), ts)
}

/// The text of a date that may be missing.
pub fn date_text(date: Option<String>, ts: i64) -> (r: String)
    ensures
        r@ == date_or_number(text::opt_text(date), ts as int),
{
    match date {
        Some(d) => d,
        None => text::signed_decimal_of(ts),
    }
}

// ---------------------------------------------------------------------------
// Composition
// ---------------------------------------------------------------------------

/// The score as it is shown, held between 0 and 1. What is no number is shown as it is.
pub open spec fn shown_score(s: Score) -> Seq<char> {
    if bm25::RANK_OF_ONE < s.rank <= bm25::RANK_OF_INFINITY {
        "1.00"@
    } else if -bm25::RANK_OF_INFINITY <= s.rank < 0 {
        "0.00"@
    } else {
        s.text@
    }
}

/// The line that shows a result.
pub open spec fn entry(r: SearchResult, date: Seq<char>) -> Seq<char> {
    "["@ + r.memory_type@ + "] "@ + r.summary@ + " (score: "@ + shown_score(r.score) + ", "@ + date
        + ")"@
}

pub open spec fn dated_entry(r: SearchResult) -> Seq<char> {
    entry(r, date_or_number(utc_date(r.created_at as int, "%Y-%m-%d"@), r.created_at as int))
}

pub open spec fn entries(s: Seq<SearchResult>) -> Seq<Seq<char>> {
    Seq::new(s.len(), |i: int| dated_entry(s[i]))
}

/// The tokens of several lines together.
pub open spec fn total_tokens(lines: Seq<Seq<char>>) -> int
    decreases lines.len(),
{
    if lines.len() == 0 {
        0
    } else {
        total_tokens(lines.drop_last()) + token_estimate(lines.last())
    }
}

/// The longest run of lines from the first one on that fits in the limit.
pub open spec fn fitting(lines: Seq<Seq<char>>, limit: int) -> Seq<Seq<char>>
    decreases lines.len(),
{
    if lines.len() == 0 || total_tokens(lines) <= limit {
        lines
    } else {
        fitting(lines.drop_last(), limit)
    }
}

/// The lines between the two markers; nothing where there is no line.
pub open spec fn framed(lines: Seq<Seq<char>>) -> Seq<char> {
    if lines.len() == 0 {
        Seq::empty()
    } else {
        "=== Memory Context ===\n"@ + text::joined(lines, "\n"@) + "\n=== End Memory ==="@
    }
}

/// The context that a list of results is turned into.
pub open spec fn composed(s: Seq<SearchResult>, limit: int) -> Seq<char> {
    framed(fitting(entries(reranker::deduped(by_priority(s))), limit))
}

proof fn estimate_is_positive(s: Seq<char>)
    ensures
        token_estimate(s) >= 1,
{
}

/// What is left fits in the limit.
pub proof fn fitting_fits(lines: Seq<Seq<char>>, limit: int)
    requires
        0 <= limit,
    ensures
        total_tokens(fitting(lines, limit)) <= limit,
        fitting(lines, limit).len() <= lines.len(),
        fitting(lines, limit) == lines.take(fitting(lines, limit).len() as int),
    decreases lines.len(),
{
    if lines.len() == 0 || total_tokens(lines) <= limit {
        assert(lines.take(lines.len() as int) =~= lines);
    } else {
        fitting_fits(lines.drop_last(), limit);
        let n = fitting(lines, limit).len() as int;
        assert(lines.drop_last().take(n) =~= lines.take(n));
    }
}

/// No longer run from the first line on fits.
pub proof fn fitting_is_longest(lines: Seq<Seq<char>>, limit: int, n: int)
    requires
        0 <= n <= lines.len(),
        total_tokens(lines.take(n)) <= limit,
    ensures
        n <= fitting(lines, limit).len(),
    decreases lines.len(),
{
    if lines.len() == 0 || total_tokens(lines) <= limit {
    } else if n == lines.len() {
        assert(lines.take(n) =~= lines);
    } else {
        assert(lines.drop_last().take(n) =~= lines.take(n));
        fitting_is_longest(lines.drop_last(), limit, n);
    }
}

proof fn totals_grow(lines: Seq<Seq<char>>, n: int)
    requires
        0 <= n <= lines.len(),
    ensures
        total_tokens(lines.take(n)) <= total_tokens(lines),
    decreases lines.len(),
{
    if n == lines.len() {
        assert(lines.take(n) =~= lines);
    } else {
        assert(lines.drop_last().take(n) =~= lines.take(n));
        totals_grow(lines.drop_last(), n);
        estimate_is_positive(lines.last());
    }
}

/// A run that fits, with a next line that does not, is what is taken.
proof fn fitting_stops(lines: Seq<Seq<char>>, limit: int, n: int)
    requires
        0 <= n <= lines.len(),
        0 <= limit,
        total_tokens(lines.take(n)) <= limit,
        n < lines.len() ==> total_tokens(lines.take(n + 1)) > limit,
    ensures
        fitting(lines, limit) == lines.take(n),
{
    fitting_fits(lines, limit);
    fitting_is_longest(lines, limit, n);
    let m = fitting(lines, limit).len() as int;
    if m > n {
        totals_grow(lines.take(m), n + 1);
        assert(lines.take(m).take(n + 1) =~= lines.take(n + 1));
    }
}

/// Converts retrieval results into compact context.
pub struct ContextComposer;

impl Default for ContextComposer {
    fn default() -> Self {
        Self::new()
    }
}

impl ContextComposer {
    pub fn new() -> Self {
        ContextComposer
    }

    /// Estimate the number of tokens in a string.
    pub fn estimate_tokens(text: &str) -> (r: usize)
        ensures
            r == token_estimate(text@),
    {
        let (english, chinese, other): (usize, usize, usize) = count_chars(text);
        let parts: u128 = 3 * (english as u128) + 6 * (chinese as u128) + 4 * (other as u128);
        let tokens: u128 = (parts + 11) / 12;
        let with_margin: u128 = (6 * tokens + 4) / 5;
        if with_margin < 1 {
            1
        } else {
            with_margin as usize
        }
    }

    /// Detect the dominant content type of a string; an empty one counts as English.
    pub fn detect_content_type(text: &str) -> (r: ContentType)
        ensures
            r == content_type(text@),
    {
        if text.is_empty() {
            return ContentType::English;
        }
        let (english, chinese, other): (usize, usize, usize) = count_chars(text);
        if chinese > english / 2 {
            ContentType::Chinese
        } else if english > (english + chinese + other) / 2 {
            ContentType::English
        } else {
            ContentType::Code
        }
    }

    /// Compose context from search results within the memory's share of the budget:
    /// failures first, then decisions, episodes and procedures, each once, as long
    /// as the next line fits.
    pub fn compose_context(&self, results: &[SearchResult], budget: &ContextBudget) -> (r: String)
        ensures
            r@ == composed(results@, budget.reserved_for_memory as int),
    {
        let limit: usize = budget.reserved_for_memory;
        let order = sort_by_priority(results);
        let kept = first_of_each_id(results, &order);
        let ghost lines = entries(reranker::deduped(by_priority(results@)));
        let mut parts: Vec<String> = Vec::new();
        let mut used: usize = 0;
        let mut i: usize = 0;
        assert(lines.take(0) =~= Seq::empty());
        assert(text::texts(parts@) =~= lines.take(0));
        while i < kept.len()
            invariant_except_break
                i == parts@.len(),
            invariant
                i <= kept@.len(),
                kept@.len() == lines.len(),
                lines == entries(reranker::deduped(by_priority(results@))),
                forall|k: int|
                    0 <= k < kept@.len() ==> (#[trigger] kept@[k]) < results@.len()
                        && results@[kept@[k] as int] == reranker::deduped(
                        by_priority(results@),
                    )[k],
                text::texts(parts@) == lines.take(i as int),
                used == total_tokens(lines.take(i as int)),
                used <= limit,
            ensures
                i < kept@.len() ==> total_tokens(lines.take(i + 1)) > limit,
            decreases kept@.len() - i,
        {
            let result = &results[kept[i]];
            assert(*result == reranker::deduped(by_priority(results@))[i as int]);
            let mut line = "[".to_owned();
            line.append(result.memory_type.as_str());
            line.append("] ");
            line.append(result.summary.as_str());
            line.append(" (score: ");
            line.append(score_text(&result.score));
            line.append(", ");
            line.append(format_timestamp(result.created_at).as_str());
            line.append(")");
            assert(line@ == lines[i as int]);
            let tokens: usize = Self::estimate_tokens(line.as_str());
            assert(lines.take(i + 1).drop_last() =~= lines.take(i as int));
            if tokens > limit - used {
                break;
            }
            used = used + tokens;
            let ghost before = text::texts(parts@);
            let ghost added = line@;
            parts.push(line);
            assert(text::texts(parts@) =~= before.push(added));
            i = i + 1;
            assert(lines.take(i as int) =~= lines.take(i - 1).push(lines[i - 1]));
        }
        proof {
            fitting_stops(lines, limit as int, i as int);
        }
        if parts.len() == 0 {
            String::new()
        } else {
            let mut s = "=== Memory Context ===\n".to_owned();
            s.append(text::join(&parts, "\n").as_str());
            s.append("\n=== End Memory ===");
            s
        }
    }
}

fn score_text(s: &Score) -> (r: &str)
    ensures
        r@ == shown_score(*s),
{
    if bm25::RANK_OF_ONE < s.rank && s.rank <= bm25::RANK_OF_INFINITY {
        "1.00"
    } else if -bm25::RANK_OF_INFINITY <= s.rank && s.rank < 0 {
        "0.00"
    } else {
        s.text.as_str()
    }
}

/// The positions of the results in the order of their priority.
pub fn sort_by_priority(results: &[SearchResult]) -> (r: Vec<usize>)
    ensures
        r@.len() == results@.len(),
        forall|i: int|
            0 <= i < r@.len() ==> (#[trigger] r@[i]) < results@.len() && results@[r@[i] as int]
                == by_priority(results@)[i],
{
    let mut pairs: Vec<(ContextKey, usize)> = Vec::new();
    let mut i: usize = 0;
    while i < results.len()
        invariant
            i <= results@.len(),
            pairs@.len() == i,
            forall|j: int|
                0 <= j < i ==> #[trigger] pairs@[j] == (context_key(results@[j]), j as usize),
        decreases results@.len() - i,
    {
        let key = ContextKey {
            priority: memory_type_priority(results[i].memory_type.as_str()),
            rank: results[i].score.rank,
        };
        pairs.push((key, i));
        i = i + 1;
    }
    let ghost f = |n: usize| results@[n as int];
    proof {
        order::ordered_relabelled(pairs@, f);
        assert(order::relabelled(pairs@, f) =~= keyed(results@));
        order::ordered_is_sorted(pairs@);
        order::ordered_keeps(pairs@, |p: (ContextKey, usize)| p.1 < results@.len());
    }
    let sorted = order::sort(pairs);
    let mut r: Vec<usize> = Vec::new();
    let mut k: usize = 0;
    while k < sorted.len()
        invariant
            k <= sorted@.len(),
            r@.len() == k,
            forall|j: int| 0 <= j < k ==> #[trigger] r@[j] == sorted@[j].1,
        decreases sorted@.len() - k,
    {
        r.push(sorted[k].1);
        k = k + 1;
    }
    assert forall|i: int| 0 <= i < r@.len() implies (#[trigger] r@[i]) < results@.len()
        && results@[r@[i] as int] == by_priority(results@)[i] by {
        assert(sorted@[i].1 < results@.len());
        assert(order::relabelled(sorted@, f)[i].1 == results@[sorted@[i].1 as int]);
    }
    r
}

/// The positions in `order` whose result has an id that none before it has.
fn first_of_each_id(results: &[SearchResult], order: &Vec<usize>) -> (r: Vec<usize>)
    requires
        order@.len() == results@.len(),
        forall|i: int|
            0 <= i < order@.len() ==> (#[trigger] order@[i]) < results@.len()
                && results@[order@[i] as int] == by_priority(results@)[i],
    ensures
        r@.len() == reranker::deduped(by_priority(results@)).len(),
        forall|k: int|
            0 <= k < r@.len() ==> (#[trigger] r@[k]) < results@.len() && results@[r@[k] as int]
                == reranker::deduped(by_priority(results@))[k],
{
    let ghost all = by_priority(results@);
    proof {
        order::ordered_is_sorted(keyed(results@));
    }
    let mut r: Vec<usize> = Vec::new();
    let mut i: usize = 0;
    assert(all.take(0) =~= Seq::empty());
    while i < order.len()
        invariant
            i <= order@.len() == all.len(),
            order@.len() == results@.len(),
            all == by_priority(results@),
            forall|i: int|
                0 <= i < order@.len() ==> (#[trigger] order@[i]) < results@.len()
                    && results@[order@[i] as int] == all[i],
            r@.len() == reranker::deduped(all.take(i as int)).len(),
            forall|k: int|
                0 <= k < r@.len() ==> (#[trigger] r@[k]) < results@.len() && results@[r@[k] as int]
                    == reranker::deduped(all.take(i as int))[k],
        decreases order@.len() - i,
    {
        let ghost kept = reranker::deduped(all.take(i as int));
        let at: usize = order[i];
        let mut seen = false;
        let mut k: usize = 0;
        while k < r.len()
            invariant
                k <= r@.len() == kept.len(),
                at < results@.len(),
                forall|k: int|
                    0 <= k < r@.len() ==> (#[trigger] r@[k]) < results@.len()
                        && results@[r@[k] as int] == kept[k],
                seen <==> exists|j: int|
                    0 <= j < k && (#[trigger] kept[j]).id@ == results@[at as int].id@,
            decreases r@.len() - k,
        {
            assert(r@[k as int] < results@.len());
            if text::same(results[r[k]].id.as_str(), results[at].id.as_str()) {
                assert(kept[k as int].id@ == results@[at as int].id@);
                seen = true;
            }
            k = k + 1;
        }
        proof {
            reranker::deduped_keeps_ids(all.take(i as int));
            assert(seen == reranker::id_seen(kept, all[i as int].id@));
            assert(all.take(i + 1).drop_last() =~= all.take(i as int));
        }
        if !seen {
            r.push(at);
        }
        i = i + 1;
    }
    assert(all.take(i as int) =~= all);
    r
}

// ---------------------------------------------------------------------------
// Laws
// ---------------------------------------------------------------------------

/// The tokens of several lines are the sum of the estimates of each of them: no line
/// costs nothing, one line costs its estimate, and two runs of lines cost what each costs.
pub proof fn tokens_add_up(a: Seq<Seq<char>>, b: Seq<Seq<char>>, line: Seq<char>)
    ensures
        total_tokens(Seq::<Seq<char>>::empty()) == 0,
        total_tokens(seq![line]) == token_estimate(line),
        total_tokens(a + b) == total_tokens(a) + total_tokens(b),
    decreases b.len(),
{
    assert(seq![line].drop_last() =~= Seq::<Seq<char>>::empty());
    assert(total_tokens(seq![line].drop_last()) == 0);
    if b.len() == 0 {
        assert(a + b =~= a);
    } else {
        tokens_add_up(a, b.drop_last(), line);
        assert((a + b).drop_last() =~= a + b.drop_last());
    }
}

/// What is counted is the number of characters of the sort.
pub proof fn tally_counts(s: Seq<char>, sort: spec_fn(char) -> bool)
    ensures
        tally(s, sort) == s.filter(sort).len(),
    decreases s.len(),
{
    reveal(Seq::filter);
    if s.len() > 0 {
        tally_counts(s.drop_last(), sort);
    }
}

/// The estimate follows from how many characters are ASCII, Chinese or neither: four, two
/// or three to a token, all together rounded up, then a fifth more, rounded up again, and
/// at least one.
pub proof fn estimates_follow_the_counts(s: Seq<char>, bare: int)
    requires
        ({
            let ascii = s.filter(|c: char| c as u32 <= 127).len();
            let chinese = s.filter(|c: char| is_chinese(c)).len();
            let other = s.filter(|c: char| c as u32 > 127 && !is_chinese(c)).len();
            12 * (bare - 1) < 3 * ascii + 6 * chinese + 4 * other <= 12 * bare
        }),
    ensures
        token_estimate(s) >= 1,
        bare == 0 ==> token_estimate(s) == 1,
        bare > 0 ==> 5 * (token_estimate(s) - 1) < 6 * bare <= 5 * token_estimate(s),
{
    let plain = |c: char| is_plain(c);
    let han = |c: char| is_chinese(c);
    let rest = |c: char| is_other(c);
    tally_counts(s, plain);
    tally_counts(s, han);
    tally_counts(s, rest);
    let ascii = |c: char| c as u32 <= 127;
    let other = |c: char| c as u32 > 127 && !is_chinese(c);
    assert(plain =~= ascii);
    assert(rest =~= other);
    let parts = 3 * tally(s, plain) + 6 * tally(s, han) + 4 * tally(s, rest);
    assert(bare_tokens(s) == (parts + 11) / 12);
    assert((parts + 11) / 12 == bare) by (nonlinear_arith)
        requires
            12 * (bare - 1) < parts <= 12 * bare,
    ;
    assert(ceil_div(6 * bare, 5) == (6 * bare + 4) / 5);
}

/// The ideographs of the main block are Chinese, and no ASCII character is.
pub proof fn ideographs_are_chinese(c: char)
    ensures
        0x4e00 <= c as u32 <= 0x9fff ==> is_chinese(c),
        0x3400 <= c as u32 <= 0x4dbf ==> is_chinese(c),
        0xf900 <= c as u32 <= 0xfaff ==> is_chinese(c),
        0x20000 <= c as u32 <= 0x2a6df ==> is_chinese(c),
        0x2a700 <= c as u32 <= 0x2ceaf ==> is_chinese(c),
        0x2f800 <= c as u32 <= 0x2fa1f ==> is_chinese(c),
        (c as u32) < 0x3400 ==> !is_chinese(c),
        0xfaff < (c as u32) < 0x20000 ==> !is_chinese(c),
{
}

/// The order of priority neither drops nor adds a result. Failures come first, then
/// decisions, episodes, procedures and the rest, and within one type the higher score
/// comes first.
pub proof fn priority_orders_results(s: Seq<SearchResult>)
    ensures
        by_priority(s).len() == s.len(),
        by_priority(s).to_multiset() == s.to_multiset(),
        forall|i: int, j: int|
            0 <= i < j < s.len() ==> {
                let a = (#[trigger] by_priority(s)[i]).memory_type@;
                let b = (#[trigger] by_priority(s)[j]).memory_type@;
                &&& b == "failure"@ ==> a == "failure"@
                &&& b == "decision"@ ==> a == "failure"@ || a == "decision"@
                &&& b == "episodic"@ ==> a == "failure"@ || a == "decision"@ || a == "episodic"@
                &&& b == "procedural"@ ==> a == "failure"@ || a == "decision"@ || a == "episodic"@
                    || a == "procedural"@
                &&& a == b ==> by_priority(s)[i].score.rank >= by_priority(s)[j].score.rank
            },
{
    reveal_strlit("failure");
    reveal_strlit("decision");
    reveal_strlit("episodic");
    reveal_strlit("procedural");
    let items = keyed(s);
    let sorted = order::ordered(items);
    order::ordered_is_sorted(items);
    order::ordered_seconds_permutation(items);
    assert(order::seconds(items) =~= s);
    let by_key = |p: (ContextKey, SearchResult)| p.0 == context_key(p.1);
    order::ordered_keeps(items, by_key);
    assert("failure"@.len() == 7 && "decision"@.len() == 8 && "procedural"@.len() == 10);
    assert("episodic"@[0] == 'e' && "decision"@[0] == 'd');
    assert forall|i: int, j: int| 0 <= i < j < s.len() implies {
        let a = (#[trigger] by_priority(s)[i]).memory_type@;
        let b = (#[trigger] by_priority(s)[j]).memory_type@;
        &&& b == "failure"@ ==> a == "failure"@
        &&& b == "decision"@ ==> a == "failure"@ || a == "decision"@
        &&& b == "episodic"@ ==> a == "failure"@ || a == "decision"@ || a == "episodic"@
        &&& b == "procedural"@ ==> a == "failure"@ || a == "decision"@ || a == "episodic"@ || a
            == "procedural"@
        &&& a == b ==> by_priority(s)[i].score.rank >= by_priority(s)[j].score.rank
    } by {
        assert(!sorted[j].0.lt(&sorted[i].0));
        assert(by_key(sorted[i]) && by_key(sorted[j]));
        let a = by_priority(s)[i].memory_type@;
        let b = by_priority(s)[j].memory_type@;
        assert(priority(a) <= priority(b));
    }
}

/// A composed context holds the lines of the best results, as many as fit: it is empty or
/// frames a run of lines from the first on, whose estimates add up to no more than the
/// limit, and a longer run would not fit.
pub proof fn contexts_stay_in_budget(s: Seq<SearchResult>, limit: int) -> (n: int)
    requires
        0 <= limit,
    ensures
        0 <= n <= reranker::deduped(by_priority(s)).len(),
        ({
            let lines = entries(reranker::deduped(by_priority(s)));
            &&& total_tokens(lines.take(n)) <= limit
            &&& n < lines.len() ==> total_tokens(lines.take(n)) + token_estimate(lines[n]) > limit
            &&& n == 0 ==> composed(s, limit) == Seq::<char>::empty()
            &&& n > 0 ==> composed(s, limit) == "=== Memory Context ===\n"@ + text::joined(
                lines.take(n),
                "\n"@,
            ) + "\n=== End Memory ==="@
        }),
{
    let lines = entries(reranker::deduped(by_priority(s)));
    fitting_fits(lines, limit);
    let n = fitting(lines, limit).len() as int;
    if n < lines.len() {
        if total_tokens(lines.take(n + 1)) <= limit {
            fitting_is_longest(lines, limit, n + 1);
        }
        assert(lines.take(n + 1).drop_last() =~= lines.take(n));
    }
    n
}

/// A line shows the type and the summary of its result, a score between 0 and 1, and the
/// date.
pub proof fn lines_show_their_result(r: SearchResult, date: Seq<char>)
    ensures
        0 <= r.score.rank <= 0x3f80_0000 ==> entry(r, date) == "["@ + r.memory_type@ + "] "@
            + r.summary@ + " (score: "@ + r.score.text@ + ", "@ + date + ")"@,
        0x3f80_0000 < r.score.rank <= 0x7f80_0000 ==> entry(r, date) == "["@ + r.memory_type@
            + "] "@ + r.summary@ + " (score: "@ + "1.00"@ + ", "@ + date + ")"@,
        -0x7f80_0000 <= r.score.rank < 0 ==> entry(r, date) == "["@ + r.memory_type@ + "] "@
            + r.summary@ + " (score: "@ + "0.00"@ + ", "@ + date + ")"@,
        entries(seq![r]) == seq![
            entry(
                r,
                match utc_date(r.created_at as int, "%Y-%m-%d"@) {
                    Some(d) => d,
                    None => text::signed_decimal(r.created_at as int),
                },
            ),
        ],
{
    assert(entries(seq![r]) =~= seq![dated_entry(r)]);
}

/// The lines of two runs of results follow one another.
pub proof fn lines_follow_their_results(a: Seq<SearchResult>, b: Seq<SearchResult>)
    ensures
        entries(a + b) == entries(a) + entries(b),
{
    assert(entries(a + b) =~= entries(a) + entries(b));
}

} // verus!
