use crate::models::MemoryIntent;
use crate::text;
use vstd::prelude::*;

verus! {

/// The keywords of `MemoryIntent::Debugging`.
pub open spec fn debugging_words() -> Seq<Seq<char>> {
    seq![
        "bug"@,
        "debug"@,
        "fix"@,
        "error"@,
        "crash"@,
        "traceback"@,
        "exception"@,
        "stack trace"@,
        "segfault"@,
        "panic"@,
        "assertion"@,
        "breakpoint"@,
        "调试"@,
        "修复"@,
        "错误"@,
        "崩溃"@,
        "异常"@,
    ]
}

/// The keywords of `MemoryIntent::Architecture`.
pub open spec fn architecture_words() -> Seq<Seq<char>> {
    seq![
        "architect"@,
        "design"@,
        "decision"@,
        "structure"@,
        "pattern"@,
        "module"@,
        "component"@,
        "service"@,
        "microservice"@,
        "why"@,
        "rationale"@,
        "tradeoff"@,
        "架构"@,
        "设计"@,
        "决策"@,
        "模块"@,
    ]
}

/// The keywords of `MemoryIntent::Workflow`.
pub open spec fn workflow_words() -> Seq<Seq<char>> {
    seq![
        "workflow"@,
        "process"@,
        "procedure"@,
        "pipeline"@,
        "ci"@,
        "cd"@,
        "build"@,
        "test"@,
        "lint"@,
        "step"@,
        "工作流"@,
        "流程"@,
        "构建"@,
    ]
}

/// The keywords of `MemoryIntent::Refactor`.
pub open spec fn refactor_words() -> Seq<Seq<char>> {
    seq![
        "refactor"@,
        "rewrite"@,
        "restructure"@,
        "clean up"@,
        "simplify"@,
        "consolidate"@,
        "merge"@,
        "split"@,
        "extract"@,
        "重写"@,
        "简化"@,
        "提取"@,
    ]
}

/// The keywords of `MemoryIntent::Deployment`.
pub open spec fn deployment_words() -> Seq<Seq<char>> {
    seq![
        "deploy"@,
        "release"@,
        "rollout"@,
        "production"@,
        "staging"@,
        "rollback"@,
        "migration"@,
        "upgrade"@,
        "config change"@,
        "发布"@,
        "上线"@,
        "回滚"@,
        "迁移"@,
    ]
}

/// The keywords of `MemoryIntent::Incident`.
pub open spec fn incident_words() -> Seq<Seq<char>> {
    seq![
        "outage"@,
        "incident"@,
        "sev1"@,
        "sev2"@,
        "sev3"@,
        "p0"@,
        "p1"@,
        "p2"@,
        "downtime"@,
        "alert"@,
        "page"@,
        "post-mortem"@,
        "postmortem"@,
        "故障"@,
        "停机"@,
        "告警"@,
    ]
}

pub open spec fn tagged(words: Seq<Seq<char>>, intent: MemoryIntent) -> Seq<
    (Seq<char>, MemoryIntent),
> {
    Seq::new(words.len(), |i: int| (words[i], intent))
}

/// Every keyword with the intent that it stands for.
pub open spec fn keyword_table() -> Seq<(Seq<char>, MemoryIntent)> {
    tagged(debugging_words(), MemoryIntent::Debugging)
        + tagged(architecture_words(), MemoryIntent::Architecture)
        + tagged(workflow_words(), MemoryIntent::Workflow)
        + tagged(refactor_words(), MemoryIntent::Refactor)
        + tagged(deployment_words(), MemoryIntent::Deployment)
        + tagged(incident_words(), MemoryIntent::Incident)
}

/// Letters, digits, spaces and hyphens of ASCII only: a keyword that is matched as
/// a word.
pub open spec fn is_word_keyword(keyword: Seq<char>) -> bool {
    forall|i: int|
        0 <= i < keyword.len() ==> {
            let c = #[trigger] keyword[i];
            text::is_alnum(c) || c == ' ' || c == '-'
        }
}

/// A keyword of plain ASCII matches as a word, any other one as a substring.
pub open spec fn keyword_hits(s: Seq<char>, keyword: Seq<char>) -> bool {
    if is_word_keyword(keyword) {
        text::word_from(s, keyword, 0)
    } else {
        text::contains(s, keyword)
    }
}

/// A single token without white space that `-` or `_` joins.
pub open spec fn identifier_like(s: Seq<char>) -> bool {
    &&& forall|i: int| 0 <= i < s.len() ==> !text::is_space(#[trigger] s[i])
    &&& s.contains('-') || s.contains('_')
    &&& exists|i: int| 0 <= i < s.len() && text::is_alnum(#[trigger] s[i])
}

/// Some keyword of `intent` matches.
pub open spec fn intent_hit(
    table: Seq<(Seq<char>, MemoryIntent)>,
    s: Seq<char>,
    intent: MemoryIntent,
) -> bool {
    exists|k: int|
        0 <= k < table.len() && (#[trigger] table[k]).1 == intent && keyword_hits(s, table[k].0)
}

/// The intents of a lowercased query: those that some keyword names, each once, or
/// `General` alone where there is none or the query looks like an identifier.
pub open spec fn is_classification(
    table: Seq<(Seq<char>, MemoryIntent)>,
    s: Seq<char>,
    intents: Seq<MemoryIntent>,
) -> bool {
    if identifier_like(s) || forall|m: MemoryIntent| !intent_hit(table, s, m) {
        intents == seq![MemoryIntent::General]
    } else {
        &&& intents.no_duplicates()
        &&& forall|m: MemoryIntent| intents.contains(m) <==> intent_hit(table, s, m)
    }
}

/// Rule-based intent classifier using keyword matching. Several keywords can name
/// several intents at once.
pub struct IntentClassifier {
    keywords: Vec<(String, MemoryIntent)>,
}

pub open spec fn keyword_views(v: Seq<(String, MemoryIntent)>) -> Seq<(Seq<char>, MemoryIntent)> {
    Seq::new(v.len(), |i: int| (v[i].0@, v[i].1))
}

pub open spec fn word_views(v: Seq<&str>) -> Seq<Seq<char>> {
    Seq::new(v.len(), |i: int| v[i]@)
}

impl View for IntentClassifier {
    type V = Seq<(Seq<char>, MemoryIntent)>;

    closed spec fn view(&self) -> Seq<(Seq<char>, MemoryIntent)> {
        keyword_views(self.keywords@)
    }
}

impl Default for IntentClassifier {
    fn default() -> (r: Self)
        ensures
            r@ == keyword_table(),
    {
        Self::new()
    }
}

fn add_words(keywords: &mut Vec<(String, MemoryIntent)>, words: Vec<&str>, intent: MemoryIntent)
    ensures
        keyword_views(final(keywords)@) == keyword_views(old(keywords)@) + tagged(
            word_views(words@),
            intent,
        ),
{
    let ghost start = keyword_views(keywords@);
    let ghost all = tagged(word_views(words@), intent);
    let mut i: usize = 0;
    assert(start + all.take(0) =~= start);
    while i < words.len()
        invariant
            i <= words@.len(),
            all == tagged(word_views(words@), intent),
            keyword_views(keywords@) == start + all.take(i as int),
        decreases words@.len() - i,
    {
        let ghost before = keyword_views(keywords@);
        keywords.push((words[i].to_owned(), intent));
        assert(keyword_views(keywords@) =~= before.push((words@[i as int]@, intent)));
        i = i + 1;
        assert(start + all.take(i as int) =~= (start + all.take(i - 1)).push(all[i - 1]));
    }
    assert(all.take(i as int) =~= all);
}

/// Whether `intent` is in the list.
fn has_intent(intents: &Vec<MemoryIntent>, intent: MemoryIntent) -> (r: bool)
    ensures
        r == intents@.contains(intent),
{
    let mut i: usize = 0;
    while i < intents.len()
        invariant
            i <= intents@.len(),
            forall|j: int| 0 <= j < i ==> intents@[j] != intent,
        decreases intents@.len() - i,
    {
        if intents[i] == intent {
            return true;
        }
        i = i + 1;
    }
    false
}

impl IntentClassifier {
    /// The classifier with the fixed keyword table.
    pub fn new() -> (r: Self)
        ensures
            r@ == keyword_table(),
    {
        let mut keywords: Vec<(String, MemoryIntent)> = Vec::new();
        let words = vec![
            "bug",
            "debug",
            "fix",
            "error",
            "crash",
            "traceback",
            "exception",
            "stack trace",
            "segfault",
            "panic",
            "assertion",
            "breakpoint",
            "调试",
            "修复",
            "错误",
            "崩溃",
            "异常",
        ];
        assert(word_views(words@) =~= debugging_words());
        add_words(&mut keywords, words, MemoryIntent::Debugging);
        let words = vec![
            "architect",
            "design",
            "decision",
            "structure",
            "pattern",
            "module",
            "component",
            "service",
            "microservice",
            "why",
            "rationale",
            "tradeoff",
            "架构",
            "设计",
            "决策",
            "模块",
        ];
        assert(word_views(words@) =~= architecture_words());
        add_words(&mut keywords, words, MemoryIntent::Architecture);
        let words = vec![
            "workflow",
            "process",
            "procedure",
            "pipeline",
            "ci",
            "cd",
            "build",
            "test",
            "lint",
            "step",
            "工作流",
            "流程",
            "构建",
        ];
        assert(word_views(words@) =~= workflow_words());
        add_words(&mut keywords, words, MemoryIntent::Workflow);
        let words = vec![
            "refactor",
            "rewrite",
            "restructure",
            "clean up",
            "simplify",
            "consolidate",
            "merge",
            "split",
            "extract",
            "重写",
            "简化",
            "提取",
        ];
        assert(word_views(words@) =~= refactor_words());
        add_words(&mut keywords, words, MemoryIntent::Refactor);
        let words = vec![
            "deploy",
            "release",
            "rollout",
            "production",
            "staging",
            "rollback",
            "migration",
            "upgrade",
            "config change",
            "发布",
            "上线",
            "回滚",
            "迁移",
        ];
        assert(word_views(words@) =~= deployment_words());
        add_words(&mut keywords, words, MemoryIntent::Deployment);
        let words = vec![
            "outage",
            "incident",
            "sev1",
            "sev2",
            "sev3",
            "p0",
            "p1",
            "p2",
            "downtime",
            "alert",
            "page",
            "post-mortem",
            "postmortem",
            "故障",
            "停机",
            "告警",
        ];
        assert(word_views(words@) =~= incident_words());
        add_words(&mut keywords, words, MemoryIntent::Incident);
        assert(keyword_views(keywords@) =~= keyword_table());
        IntentClassifier { keywords }
    }

    /// Classify the query into one or more intents.
    ///
    /// The words of the query are compared in lower case. `General` stands alone where
    /// no keyword matches, and for a query that looks like an identifier.
    pub fn classify(&self, query: &str) -> (r: Vec<MemoryIntent>)
        ensures
            is_classification(self@, text::lowercase(query@), r@),
            text::is_plain(query@) ==> is_classification(
                self@,
                text::ascii_lowered(query@),
                r@,
            ),
    {
        let lower = text::to_lowercase(query);
        self.classify_lowered(lower.as_str())
    }

    /// Classify a query that is in lower case already.
    pub fn classify_lowered(&self, lower: &str) -> (r: Vec<MemoryIntent>)
        ensures
            is_classification(self@, lower@, r@),
    {
        if Self::is_identifier_like(lower) {
            let r = vec![MemoryIntent::General];
            assert(r@ =~= seq![MemoryIntent::General]);
            return r;
        }
        let mut intents: Vec<MemoryIntent> = Vec::new();
        let mut k: usize = 0;
        while k < self.keywords.len()
            invariant
                k <= self.keywords@.len(),
                intents@.no_duplicates(),
                forall|m: MemoryIntent|
                    intents@.contains(m) <==> intent_hit(self@.take(k as int), lower@, m),
            decreases self.keywords@.len() - k,
        {
            let ghost before = self@.take(k as int);
            let ghost so_far = intents@;
            let word = self.keywords[k].0.as_str();
            let intent = self.keywords[k].1;
            let hit = !word.is_empty() && Self::keyword_matches(lower, word);
            let known = has_intent(&intents, intent);
            if hit && !known {
                intents.push(intent);
            }
            k = k + 1;
            proof {
                let now = self@.take(k as int);
                assert(self@[k - 1] == (word@, intent));
                assert(hit == keyword_hits(lower@, word@));
                assert forall|m: MemoryIntent|
                    intents@.contains(m) <==> intent_hit(now, lower@, m) by {
                    assert(now[k - 1] == (word@, intent));
                    assert(so_far.contains(m) ==> intents@.contains(m)) by {
                        if so_far.contains(m) {
                            let j = choose|j: int| 0 <= j < so_far.len() && so_far[j] == m;
                            assert(intents@[j] == m);
                        }
                    }
                    if intent_hit(before, lower@, m) {
                        let j = choose|j: int|
                            0 <= j < before.len() && (#[trigger] before[j]).1 == m && keyword_hits(
                                lower@,
                                before[j].0,
                            );
                        assert(now[j] == before[j]);
                        assert(intent_hit(now, lower@, m));
                    }
                    if intent_hit(now, lower@, m) {
                        let j = choose|j: int|
                            0 <= j < now.len() && (#[trigger] now[j]).1 == m && keyword_hits(
                                lower@,
                                now[j].0,
                            );
                        if j < k - 1 {
                            assert(before[j] == now[j]);
                            assert(intent_hit(before, lower@, m));
                        } else {
                            assert(m == intent && hit);
                            if known {
                                assert(so_far.contains(m));
                            } else {
                                assert(intents@[intents@.len() - 1] == m);
                            }
                        }
                    }
                    if intents@.contains(m) && !so_far.contains(m) {
                        let j = choose|j: int| 0 <= j < intents@.len() && intents@[j] == m;
                        if j < so_far.len() {
                            assert(so_far[j] == m);
                        }
                        assert(m == intent && hit);
                    }
                }
            }
        }
        assert(self@.take(k as int) =~= self@);
        if intents.len() == 0 {
            assert forall|m: MemoryIntent| !intent_hit(self@, lower@, m) by {
                assert(!intents@.contains(m));
            }
            let r = vec![MemoryIntent::General];
            assert(r@ =~= seq![MemoryIntent::General]);
            r
        } else {
            assert(intents@.contains(intents@[0]));
            assert(intent_hit(self@, lower@, intents@[0]));
            intents
        }
    }

    /// Match `keyword` against a text in lower case.
    ///
    /// A keyword of plain ASCII needs a word boundary on both sides, so `fix` does
    /// not match `fixture`. Any other keyword matches as a substring: text without
    /// spaces between its words has no such boundaries.
    pub fn keyword_matches(text: &str, keyword: &str) -> (r: bool)
        requires
            keyword@.len() > 0,
        ensures
            r == keyword_hits(text@, keyword@),
    {
        let kw = text::chars_of(keyword);
        let mut plain = true;
        let mut i: usize = 0;
        while i < kw.len()
            invariant
                i <= kw@.len(),
                plain <==> is_word_keyword(kw@.take(i as int)),
            decreases kw@.len() - i,
        {
            let c = kw[i];
            if !(text::alnum_char(c) || c == ' ' || c == '-') {
                plain = false;
            }
            i = i + 1;
            assert(kw@.take(i as int)[i - 1] == c);
            assert(forall|j: int| 0 <= j < i - 1 ==> kw@.take(i as int)[j] == kw@.take(i - 1)[j]);
        }
        assert(kw@.take(i as int) =~= kw@);
        if !plain {
            return text::has_substring(text, keyword);
        }
        text::find_word(text, keyword)
    }

    /// Whether `s` looks like an identifier (tag, file, symbol) rather than prose.
    pub fn is_identifier_like(s: &str) -> (r: bool)
        ensures
            r == identifier_like(s@),
    {
        let v = text::chars_of(s);
        let mut joined = false;
        let mut solid = false;
        let mut i: usize = 0;
        while i < v.len()
            invariant
                v@ == s@,
                i <= v@.len(),
                forall|j: int| 0 <= j < i ==> !text::is_space(#[trigger] v@[j]),
                joined <==> exists|j: int| 0 <= j < i && (#[trigger] v@[j] == '-' || v@[j] == '_'),
                solid <==> exists|j: int| 0 <= j < i && text::is_alnum(#[trigger] v@[j]),
            decreases v@.len() - i,
        {
            let c = v[i];
            if text::space_char(c) {
                assert(text::is_space(s@[i as int]));
                return false;
            }
            if c == '-' || c == '_' {
                joined = true;
            }
            if text::alnum_char(c) {
                solid = true;
            }
            i = i + 1;
        }
        assert(joined ==> s@.contains('-') || s@.contains('_'));
        joined && solid
    }
}

// ---------------------------------------------------------------------------
// Laws
// ---------------------------------------------------------------------------

/// The intents of a query in prose are those of the keywords that match it, each once; a
/// query that matches none, or looks like an identifier, is a general one.
pub proof fn keywords_name_the_intents(
    table: Seq<(Seq<char>, MemoryIntent)>,
    s: Seq<char>,
    intents: Seq<MemoryIntent>,
    m: MemoryIntent,
)
    requires
        is_classification(table, s, intents),
    ensures
        intents.len() > 0,
        intents.no_duplicates(),
        !identifier_like(s) && m != MemoryIntent::General ==> (intents.contains(m) <==> exists|
            k: int,
        |
            0 <= k < table.len() && (#[trigger] table[k]).1 == m && keyword_hits(s, table[k].0)),
        identifier_like(s) ==> intents == seq![MemoryIntent::General],
        (forall|k: int| 0 <= k < table.len() ==> !keyword_hits(s, (#[trigger] table[k]).0))
            ==> intents == seq![MemoryIntent::General],
{
    if identifier_like(s) || forall|m: MemoryIntent| !intent_hit(table, s, m) {
        if intents.contains(m) {
            let i = choose|i: int| 0 <= i < intents.len() && intents[i] == m;
        }
        assert(!intent_hit(table, s, m) || identifier_like(s));
    } else {
        let x = choose|x: MemoryIntent| intent_hit(table, s, x);
        assert(intent_hit(table, s, x));
        assert(intents.contains(x));
        assert(intents.contains(m) <==> intent_hit(table, s, m));
    }
}

/// A keyword of small letters names its intent in every text in which it stands as a word
/// of its own, and one in another script wherever it occurs.
pub proof fn keywords_match_whole_words(s: Seq<char>, keyword: Seq<char>)
    requires
        keyword.len() > 0,
    ensures
        (forall|i: int| 0 <= i < keyword.len() ==> text::is_letter(#[trigger] keyword[i])) ==> (
        keyword_hits(s, keyword) <==> exists|i: int|
            0 <= i && #[trigger] text::occurs_at(s, keyword, i) && text::stands_alone(
                s,
                i,
                i + keyword.len(),
            )),
        (exists|i: int| 0 <= i < keyword.len() && (#[trigger] keyword[i]) as u32 > 127) ==> (
        keyword_hits(s, keyword) <==> exists|i: int| #[trigger] text::occurs_at(s, keyword, i)),
{
    if forall|i: int| 0 <= i < keyword.len() ==> text::is_letter(#[trigger] keyword[i]) {
        text::letters_match_every_word(s, keyword, 0);
        assert(is_word_keyword(keyword));
    }
    if exists|i: int| 0 <= i < keyword.len() && (#[trigger] keyword[i]) as u32 > 127 {
        let i = choose|i: int| 0 <= i < keyword.len() && (#[trigger] keyword[i]) as u32 > 127;
        assert(!text::is_alnum(keyword[i]));
        assert(!is_word_keyword(keyword));
    }
}

/// Every word of a list stands for the intent of that list, and no list lacks a word.
pub proof fn every_word_stands_for_its_intent(i: int)
    ensures
        debugging_words().len() == 17,
        0 <= i < 17 ==> keyword_table().contains((debugging_words()[i], MemoryIntent::Debugging)),
        architecture_words().len() == 16,
        0 <= i < 16 ==> keyword_table().contains((architecture_words()[i], MemoryIntent::Architecture)),
        workflow_words().len() == 13,
        0 <= i < 13 ==> keyword_table().contains((workflow_words()[i], MemoryIntent::Workflow)),
        refactor_words().len() == 12,
        0 <= i < 12 ==> keyword_table().contains((refactor_words()[i], MemoryIntent::Refactor)),
        deployment_words().len() == 13,
        0 <= i < 13 ==> keyword_table().contains((deployment_words()[i], MemoryIntent::Deployment)),
        incident_words().len() == 16,
        0 <= i < 16 ==> keyword_table().contains((incident_words()[i], MemoryIntent::Incident)),
        keyword_table().len() == 87,
{
    if 0 <= i < 17 {
        assert(keyword_table()[0 + i] == (debugging_words()[i], MemoryIntent::Debugging));
    }
    if 0 <= i < 16 {
        assert(keyword_table()[17 + i] == (architecture_words()[i], MemoryIntent::Architecture));
    }
    if 0 <= i < 13 {
        assert(keyword_table()[33 + i] == (workflow_words()[i], MemoryIntent::Workflow));
    }
    if 0 <= i < 12 {
        assert(keyword_table()[46 + i] == (refactor_words()[i], MemoryIntent::Refactor));
    }
    if 0 <= i < 13 {
        assert(keyword_table()[58 + i] == (deployment_words()[i], MemoryIntent::Deployment));
    }
    if 0 <= i < 16 {
        assert(keyword_table()[71 + i] == (incident_words()[i], MemoryIntent::Incident));
    }
}

} // verus!
