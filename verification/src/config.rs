//! Configuration of the memory runtime.
use crate::text;
use vstd::prelude::*;

verus! {

/// A number: the bits of a 32-bit IEEE 754 number, and how it is printed.
#[derive(Clone, Debug)]
pub struct Real {
    pub bits: u32,
    pub text: String,
}

impl Real {
    pub fn new(bits: u32, shown: &str) -> (r: Self)
        ensures
            r.bits == bits,
            r.text@ == shown@,
    {
        Real { bits, text: shown.to_owned() }
    }

    /// Neither infinite nor something that is no number.
    pub open spec fn finite(self) -> bool {
        self.bits < 0x7f80_0000 || 0x8000_0000 <= self.bits < 0xff80_0000
    }

    /// Below zero. There is a negative zero, which is not.
    pub open spec fn negative(self) -> bool {
        0x8000_0000 < self.bits <= 0xff80_0000
    }

    pub open spec fn zero(self) -> bool {
        self.bits == 0 || self.bits == 0x8000_0000
    }

    pub fn is_finite(&self) -> (r: bool)
        ensures
            r == self.finite(),
    {
        self.bits < 0x7f80_0000 || (0x8000_0000 <= self.bits && self.bits < 0xff80_0000)
    }

    pub fn is_negative(&self) -> (r: bool)
        ensures
            r == self.negative(),
    {
        0x8000_0000 < self.bits && self.bits <= 0xff80_0000
    }

    pub fn is_zero(&self) -> (r: bool)
        ensures
            r == self.zero(),
    {
        self.bits == 0 || self.bits == 0x8000_0000
    }
}

/// Where memories are stored.
#[derive(Clone, Debug)]
pub struct StorageConfig {
    pub database_path: String,
    /// Rows of the query log older than this many days are pruned by `maintain`.
    pub query_log_retention_days: u64,
}

#[derive(Clone, Debug)]
pub struct RetrievalConfig {
    /// The limit of a search or list tool where the caller gives none.
    pub default_limit: usize,
    pub recency_half_life_days: u64,
    /// The intents of a query adjust the weights of the ranking. Every memory type is
    /// searched all the same.
    pub intent_routing: bool,
    /// Kept for configuration files that set it; the relationship graph takes no part in
    /// search.
    pub graph_expansion: bool,
    /// Weights of the signals that results are ranked by, of any scale.
    pub weight_relevance: Real,
    pub weight_recency: Real,
    pub weight_importance: Real,
    pub weight_type: Real,
}

impl Default for RetrievalConfig {
    fn default() -> (r: Self)
        ensures
            r.default_limit == 10,
            r.recency_half_life_days == 30,
            r.intent_routing,
            r.graph_expansion,
            r.weight_relevance.bits == 0x3f00_0000 && r.weight_relevance.text@ == "0.5"@,
            r.weight_recency.bits == 0x3e19_999a && r.weight_recency.text@ == "0.15"@,
            r.weight_importance.bits == 0x3e4c_cccd && r.weight_importance.text@ == "0.2"@,
            r.weight_type.bits == 0x3e19_999a && r.weight_type.text@ == "0.15"@,
    {
        RetrievalConfig {
            default_limit: 10,
            recency_half_life_days: 30,
            intent_routing: true,
            graph_expansion: true,
            weight_relevance: Real::new(0x3f00_0000, "0.5"),
            weight_recency: Real::new(0x3e19_999a, "0.15"),
            weight_importance: Real::new(0x3e4c_cccd, "0.2"),
            weight_type: Real::new(0x3e19_999a, "0.15"),
        }
    }
}

#[derive(Clone, Debug)]
pub struct ContextConfig {
    pub context_window_tokens: usize,
    pub memory_budget_percent: u8,
}

impl Default for ContextConfig {
    fn default() -> (r: Self)
        ensures
            r.context_window_tokens == 200_000,
            r.memory_budget_percent == 15,
    {
        ContextConfig { context_window_tokens: 200_000, memory_budget_percent: 15 }
    }
}

/// Configuration of the server.
#[derive(Clone, Debug)]
pub struct McpConfig {
    pub worker_threads: usize,
}

impl Default for McpConfig {
    /// One worker: requests of a client that pipelines them are processed in order.
    fn default() -> (r: Self)
        ensures
            r.worker_threads == 1,
    {
        McpConfig { worker_threads: 1 }
    }
}

/// Configuration of semantic retrieval, which is off by default.
#[derive(Clone, Debug)]
pub struct SemanticConfig {
    pub enabled: bool,
    pub model_id: String,
    /// Where the model lies; without it the model is fetched on first use.
    pub model_path: Option<String>,
    pub rrf_k: Real,
    pub top_k: usize,
}

impl Default for SemanticConfig {
    fn default() -> (r: Self)
        ensures
            !r.enabled,
            r.model_id@ == "sentence-transformers/all-MiniLM-L6-v2"@,
            r.model_path is None,
            r.rrf_k.bits == 0x4270_0000 && r.rrf_k.text@ == "60"@,
            r.top_k == 50,
    {
        SemanticConfig {
            enabled: false,
            model_id: "sentence-transformers/all-MiniLM-L6-v2".to_owned(),
            model_path: None,
            rrf_k: Real::new(0x4270_0000, "60"),
            top_k: 50,
        }
    }
}

#[derive(Clone, Debug)]
pub struct ReflectionConfig {
    /// Minimum active failures sharing a tag before a preventive rule is proposed.
    pub min_occurrences: usize,
}

impl Default for ReflectionConfig {
    fn default() -> (r: Self)
        ensures
            r.min_occurrences == 3,
    {
        ReflectionConfig { min_occurrences: 3 }
    }
}

#[derive(Clone, Debug)]
pub struct SecurityConfig {
    /// Where it is not empty, projects must lie under one of these directories.
    pub allowed_roots: Vec<String>,
}

impl Default for SecurityConfig {
    fn default() -> (r: Self)
        ensures
            r.allowed_roots@.len() == 0,
    {
        SecurityConfig { allowed_roots: Vec::new() }
    }
}

/// Top-level configuration.
#[derive(Clone, Debug)]
pub struct Config {
    pub storage: StorageConfig,
    pub retrieval: RetrievalConfig,
    pub context: ContextConfig,
    pub mcp: McpConfig,
    pub semantic: SemanticConfig,
    pub reflection: ReflectionConfig,
    pub security: SecurityConfig,
}

// ---------------------------------------------------------------------------
// Paths
// ---------------------------------------------------------------------------

/// A path behind a directory. An absolute path stays as it is.
pub open spec fn joined_path(dir: Seq<char>, rest: Seq<char>) -> Seq<char> {
    if rest.len() > 0 && rest[0] == '/' {
        rest
    } else if dir.len() == 0 || dir.last() == '/' {
        dir + rest
    } else {
        dir + "/"@ + rest
    }
}

/// The home directory, or the current one where it is not known.
pub open spec fn home_or_here(home: Option<Seq<char>>) -> Seq<char> {
    match home {
        Some(h) => h,
        None => "."@,
    }
}

/// A path with a leading `~` expanded. Other users' homes are not.
pub open spec fn expanded(path: Seq<char>, home: Option<Seq<char>>) -> Seq<char> {
    if path == "~"@ {
        home_or_here(home)
    } else {
        match text::after_prefix(path, "~/"@) {
            Some(rest) => joined_path(home_or_here(home), rest),
            None => path,
        }
    }
}

pub open spec fn expanded_all(paths: Seq<Seq<char>>, home: Option<Seq<char>>) -> Seq<Seq<char>> {
    Seq::new(paths.len(), |i: int| expanded(paths[i], home))
}

pub(crate) fn join_path(dir: &str, rest: &str) -> (r: String)
    ensures
        r@ == joined_path(dir@, rest@),
{
    let d = text::chars_of(dir);
    let v = text::chars_of(rest);
    let n: usize = d.len();
    if v.len() > 0 && v[0] == '/' {
        return rest.to_owned();
    }
    let mut r = dir.to_owned();
    if n > 0 && d[n - 1] != '/' {
        r.append("/");
    }
    r.append(rest);
    r
}

/// Expand a leading `~` to the user's home directory: `~` and `~/path`; any other
/// path is returned unchanged.
pub fn expand_tilde(path: &str, home: Option<&str>) -> (r: String)
    ensures
        r@ == expanded(path@, text::opt_str(home)),
{
    let base = match home {
        Some(h) => h,
        None => ".",
    };
    if text::same(path, "~") {
        return base.to_owned();
    }
    match text::strip_prefix(path, "~/") {
        Some(rest) => join_path(base, rest.as_str()),
        None => path.to_owned(),
    }
}

/// A path that is expanded already is not changed by expanding it again, as long as the
/// home directory is an absolute path.
pub proof fn expansion_settles(path: Seq<char>, home: Seq<char>)
    requires
        home.len() > 0,
        home[0] == '/',
    ensures
        expanded(expanded(path, Some(home)), Some(home)) == expanded(path, Some(home)),
{
    reveal_strlit("~");
    reveal_strlit("~/");
    reveal_strlit("/");
    let e = expanded(path, Some(home));
    if path == "~"@ || text::after_prefix(path, "~/"@) is Some {
        assert(e.len() > 0 && e[0] == '/');
        assert(e != "~"@);
        assert(text::after_prefix(e, "~/"@) is None) by {
            if e.len() >= 2 {
                assert(e.subrange(0, 2)[0] == '/');
                assert("~/"@[0] == '~');
            }
        }
    }
}

// ---------------------------------------------------------------------------
// Defaults
// ---------------------------------------------------------------------------

impl StorageConfig {
    /// The default: a database below the home directory.
    pub fn default_in(home: Option<&str>) -> (r: Self)
        ensures
            r.database_path@ == joined_path(
                joined_path(home_or_here(text::opt_str(home)), ".engram"@),
                "memory.db"@,
            ),
            r.query_log_retention_days == 90,
    {
        let base = match home {
            Some(h) => h,
            None => ".",
        };
        let dir = join_path(base, ".engram");
        StorageConfig {
            database_path: join_path(dir.as_str(), "memory.db"),
            query_log_retention_days: 90,
        }
    }
}

/// `c` is what holds where there is no configuration file.
pub open spec fn is_default(c: Config, home: Option<Seq<char>>) -> bool {
    &&& c.storage.database_path@ == joined_path(
        joined_path(home_or_here(home), ".engram"@),
        "memory.db"@,
    )
    &&& c.storage.query_log_retention_days == 90
    &&& c.retrieval.default_limit == 10
    &&& c.retrieval.recency_half_life_days == 30
    &&& c.retrieval.intent_routing
    &&& c.retrieval.graph_expansion
    &&& c.retrieval.weight_relevance.bits == 0x3f00_0000
    &&& c.retrieval.weight_recency.bits == 0x3e19_999a
    &&& c.retrieval.weight_importance.bits == 0x3e4c_cccd
    &&& c.retrieval.weight_type.bits == 0x3e19_999a
    &&& c.context.context_window_tokens == 200_000
    &&& c.context.memory_budget_percent == 15
    &&& c.mcp.worker_threads == 1
    &&& !c.semantic.enabled
    &&& c.semantic.model_id@ == "sentence-transformers/all-MiniLM-L6-v2"@
    &&& c.semantic.model_path is None
    &&& c.semantic.rrf_k.bits == 0x4270_0000
    &&& c.semantic.top_k == 50
    &&& c.reflection.min_occurrences == 3
    &&& c.security.allowed_roots@.len() == 0
}

impl Config {
    /// What holds where there is no configuration file.
    pub fn default_in(home: Option<&str>) -> (r: Self)
        ensures
            is_default(r, text::opt_str(home)),
    {
        Config {
            storage: StorageConfig::default_in(home),
            retrieval: RetrievalConfig::default(),
            context: ContextConfig::default(),
            mcp: McpConfig::default(),
            semantic: SemanticConfig::default(),
            reflection: ReflectionConfig::default(),
            security: SecurityConfig::default(),
        }
    }
}

// ---------------------------------------------------------------------------
// Validation
// ---------------------------------------------------------------------------

/// What is wrong with a weight, if anything: it must be a finite number, and not
/// negative.
pub open spec fn weight_problem(name: Seq<char>, w: Real) -> Option<Seq<char>> {
    if !w.finite() {
        Some("retrieval."@ + name + " must be a finite number, got "@ + w.text@)
    } else if w.negative() {
        Some("retrieval."@ + name + " must be >= 0, got "@ + w.text@)
    } else {
        None
    }
}

/// What is wrong with the weights, if anything: they must not all be zero either.
pub open spec fn weights_problem(r: RetrievalConfig) -> Option<Seq<char>> {
    if weight_problem("weight_relevance"@, r.weight_relevance) is Some {
        weight_problem("weight_relevance"@, r.weight_relevance)
    } else if weight_problem("weight_recency"@, r.weight_recency) is Some {
        weight_problem("weight_recency"@, r.weight_recency)
    } else if weight_problem("weight_importance"@, r.weight_importance) is Some {
        weight_problem("weight_importance"@, r.weight_importance)
    } else if weight_problem("weight_type"@, r.weight_type) is Some {
        weight_problem("weight_type"@, r.weight_type)
    } else if r.weight_relevance.zero() && r.weight_recency.zero() && r.weight_importance.zero()
        && r.weight_type.zero() {
        Some(
            "retrieval weight_* must not all be zero (sum = "@ + zero_sum(r) + ")"@,
        )
    } else {
        None
    }
}

/// How the sum of four zeros is printed: negative only where each of them is.
pub open spec fn zero_sum(r: RetrievalConfig) -> Seq<char> {
    if r.weight_relevance.bits != 0 && r.weight_recency.bits != 0 && r.weight_importance.bits != 0
        && r.weight_type.bits != 0 {
        "-0"@
    } else {
        "0"@
    }
}

/// What is wrong with the configuration of semantic retrieval, if anything.
pub open spec fn semantic_problem(s: SemanticConfig) -> Option<Seq<char>> {
    if !s.rrf_k.finite() || s.rrf_k.negative() || s.rrf_k.zero() {
        Some("semantic.rrf_k must be a positive number, got "@ + s.rrf_k.text@)
    } else if s.top_k == 0 {
        Some("semantic.top_k must be >= 1, got 0"@)
    } else {
        None
    }
}

/// What is wrong with a configuration, if anything. Semantic retrieval is looked at
/// where it is enabled or built in.
pub open spec fn problem(c: Config, semantic_build: bool) -> Option<Seq<char>> {
    if c.context.memory_budget_percent == 0 || c.context.memory_budget_percent > 50 {
        Some(
            "context.memory_budget_percent must be between 1 and 50, got "@ + text::decimal(
                c.context.memory_budget_percent as nat,
            ),
        )
    } else if c.context.context_window_tokens < 1000 {
        Some(
            "context.context_window_tokens must be >= 1000, got "@ + text::decimal(
                c.context.context_window_tokens as nat,
            ),
        )
    } else if c.retrieval.default_limit == 0 || c.retrieval.default_limit > 1000 {
        Some(
            "retrieval.default_limit must be between 1 and 1000, got "@ + text::decimal(
                c.retrieval.default_limit as nat,
            ),
        )
    } else if weights_problem(c.retrieval) is Some {
        weights_problem(c.retrieval)
    } else if c.mcp.worker_threads == 0 || c.mcp.worker_threads > 64 {
        Some(
            "mcp.worker_threads must be between 1 and 64, got "@ + text::decimal(
                c.mcp.worker_threads as nat,
            ),
        )
    } else if c.reflection.min_occurrences == 0 {
        Some("reflection.min_occurrences must be >= 1, got 0"@)
    } else if c.semantic.enabled || semantic_build {
        semantic_problem(c.semantic)
    } else {
        None
    }
}

fn counted(what: &str, n: u64) -> (r: String)
    ensures
        r@ == what@ + text::decimal(n as nat),
{
    let mut r = what.to_owned();
    r.append(text::decimal_of(n).as_str());
    r
}

fn check_weight(name: &str, w: &Real) -> (r: Option<String>)
    ensures
        text::opt_text(r) == weight_problem(name@, *w),
{
    if !w.is_finite() {
        let mut e = "retrieval.".to_owned();
        e.append(name);
        e.append(" must be a finite number, got ");
        e.append(w.text.as_str());
        Some(e)
    } else if w.is_negative() {
        let mut e = "retrieval.".to_owned();
        e.append(name);
        e.append(" must be >= 0, got ");
        e.append(w.text.as_str());
        Some(e)
    } else {
        None
    }
}

fn check_weights(r: &RetrievalConfig) -> (p: Option<String>)
    ensures
        text::opt_text(p) == weights_problem(*r),
{
    let p = check_weight("weight_relevance", &r.weight_relevance);
    if p.is_some() {
        return p;
    }
    let p = check_weight("weight_recency", &r.weight_recency);
    if p.is_some() {
        return p;
    }
    let p = check_weight("weight_importance", &r.weight_importance);
    if p.is_some() {
        return p;
    }
    let p = check_weight("weight_type", &r.weight_type);
    if p.is_some() {
        return p;
    }
    if r.weight_relevance.is_zero() && r.weight_recency.is_zero() && r.weight_importance.is_zero()
        && r.weight_type.is_zero() {
        let sum = if r.weight_relevance.bits != 0 && r.weight_recency.bits != 0
            && r.weight_importance.bits != 0 && r.weight_type.bits != 0 {
            "-0"
        } else {
            "0"
        };
        let mut e = "retrieval weight_* must not all be zero (sum = ".to_owned();
        e.append(sum);
        e.append(")");
        return Some(e);
    }
    None
}

impl Config {
    /// Check that all fields are within their ranges.
    pub fn validate(&self, semantic_build: bool) -> (r: Result<(), String>)
        ensures
            match r {
                Ok(_) => problem(*self, semantic_build) is None,
                Err(e) => problem(*self, semantic_build) == Some(e@),
            },
    {
        let percent = self.context.memory_budget_percent;
        if percent == 0 || percent > 50 {
            return Err(
                counted(
                    "context.memory_budget_percent must be between 1 and 50, got ",
                    percent as u64,
                ),
            );
        }
        if self.context.context_window_tokens < 1000 {
            return Err(
                counted(
                    "context.context_window_tokens must be >= 1000, got ",
                    self.context.context_window_tokens as u64,
                ),
            );
        }
        let limit: usize = self.retrieval.default_limit;
        if limit == 0 || limit > 1000 {
            return Err(
                counted("retrieval.default_limit must be between 1 and 1000, got ", limit as u64),
            );
        }
        match check_weights(&self.retrieval) {
            Some(e) => {
                return Err(e);
            },
            None => {},
        }
        let workers: usize = self.mcp.worker_threads;
        if workers == 0 || workers > 64 {
            return Err(
                counted("mcp.worker_threads must be between 1 and 64, got ", workers as u64),
            );
        }
        if self.reflection.min_occurrences == 0 {
            return Err("reflection.min_occurrences must be >= 1, got 0".to_owned());
        }
        if self.semantic.enabled || semantic_build {
            let k = &self.semantic.rrf_k;
            if !k.is_finite() || k.is_negative() || k.is_zero() {
                let mut e = "semantic.rrf_k must be a positive number, got ".to_owned();
                e.append(k.text.as_str());
                return Err(e);
            }
            if self.semantic.top_k == 0 {
                return Err("semantic.top_k must be >= 1, got 0".to_owned());
            }
        }
        Ok(())
    }

    /// Settle a configuration that was read from a file: expand the home shorthand in
    /// its paths, then validate it, so that no way of loading one gets around the
    /// ranges.
    pub fn settle(self, home: Option<&str>, semantic_build: bool) -> (r: Result<Config, String>)
        ensures
            match r {
                Ok(c) => is_settled(c, self, text::opt_str(home)) && problem(self, semantic_build)
                    is None,
                Err(e) => problem(self, semantic_build) == Some(e@),
            },
    {
        let mut c = self;
        let ghost roots = text::texts(self.security.allowed_roots@);
        let ghost want = expanded_all(roots, text::opt_str(home));
        let path = expand_tilde(c.storage.database_path.as_str(), home);
        let mut expanded_roots: Vec<String> = Vec::new();
        let mut i: usize = 0;
        assert(text::texts(expanded_roots@) =~= want.take(0));
        while i < c.security.allowed_roots.len()
            invariant
                c == self,
                i <= c.security.allowed_roots@.len(),
                roots == text::texts(self.security.allowed_roots@),
                want == expanded_all(roots, text::opt_str(home)),
                text::texts(expanded_roots@) == want.take(i as int),
            decreases c.security.allowed_roots@.len() - i,
        {
            let ghost before = text::texts(expanded_roots@);
            expanded_roots.push(expand_tilde(c.security.allowed_roots[i].as_str(), home));
            assert(text::texts(expanded_roots@) =~= before.push(want[i as int]));
            i = i + 1;
            assert(want.take(i as int) =~= want.take(i - 1).push(want[i - 1]));
        }
        assert(want.take(i as int) =~= want);
        c.storage.database_path = path;
        c.security.allowed_roots = expanded_roots;
        match c.validate(semantic_build) {
            Ok(_) => Ok(c),
            Err(e) => Err(e),
        }
    }
}

/// `c` is `from` with its paths expanded and nothing else changed.
pub open spec fn is_settled(c: Config, from: Config, home: Option<Seq<char>>) -> bool {
    &&& c.storage.database_path@ == expanded(from.storage.database_path@, home)
    &&& c.storage.query_log_retention_days == from.storage.query_log_retention_days
    &&& c.retrieval == from.retrieval
    &&& c.context == from.context
    &&& c.mcp == from.mcp
    &&& c.semantic == from.semantic
    &&& c.reflection == from.reflection
    &&& text::texts(c.security.allowed_roots@) == expanded_all(
        text::texts(from.security.allowed_roots@),
        home,
    )
}

/// What holds without a configuration file is valid, in every build.
pub proof fn defaults_are_valid(c: Config, home: Option<Seq<char>>, semantic_build: bool)
    requires
        is_default(c, home),
    ensures
        problem(c, semantic_build) is None,
{
}

/// A configuration is in order just where every field is within its range.
pub proof fn ranges_of_a_configuration(c: Config, semantic_build: bool)
    ensures
        problem(c, semantic_build) is None <==> {
            &&& 1 <= c.context.memory_budget_percent <= 50
            &&& c.context.context_window_tokens >= 1000
            &&& 1 <= c.retrieval.default_limit <= 1000
            &&& c.retrieval.weight_relevance.finite() && !c.retrieval.weight_relevance.negative()
            &&& c.retrieval.weight_recency.finite() && !c.retrieval.weight_recency.negative()
            &&& c.retrieval.weight_importance.finite() && !c.retrieval.weight_importance.negative()
            &&& c.retrieval.weight_type.finite() && !c.retrieval.weight_type.negative()
            &&& !(c.retrieval.weight_relevance.zero() && c.retrieval.weight_recency.zero()
                && c.retrieval.weight_importance.zero() && c.retrieval.weight_type.zero())
            &&& 1 <= c.mcp.worker_threads <= 64
            &&& c.reflection.min_occurrences >= 1
            &&& c.semantic.enabled || semantic_build ==> c.semantic.rrf_k.finite()
                && !c.semantic.rrf_k.negative() && !c.semantic.rrf_k.zero() && c.semantic.top_k >= 1
        },
{
}

/// A path below the home directory starts with it; a path without the sign stays.
pub proof fn home_paths_start_with_home(rest: Seq<char>, home: Seq<char>, path: Seq<char>)
    requires
        home.len() > 0,
        home.last() != '/',
        rest.len() > 0,
        rest[0] != '/',
        path.len() > 0,
        path[0] != '~',
    ensures
        expanded("~/"@ + rest, Some(home)) == home + "/"@ + rest,
        expanded("~"@, Some(home)) == home,
        expanded(path, Some(home)) == path,
{
    reveal_strlit("~/");
    reveal_strlit("~");
    let p = "~/"@ + rest;
    assert(p.len() > 1);
    assert("~"@.len() == 1);
    assert(p.subrange(0, 2) =~= "~/"@);
    assert(text::starts_with(p, "~/"@));
    assert(p.skip(2) =~= rest);
    assert("~"@[0] == '~' && "~/"@[0] == '~');
    if text::starts_with(path, "~/"@) {
        assert(path.subrange(0, 2)[0] == path[0]);
    }
}

} // verus!
