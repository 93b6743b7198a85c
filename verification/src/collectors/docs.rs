//! Architecture-decisions collector: documents, annotations and dependencies.
use crate::collectors::files;
use crate::collectors::files::{FileSource, FileView, WalkedFile};
use crate::collectors::CollectOptions;
use crate::json;
use crate::json::{Json, JsonView};
use crate::text;
use crate::toml_doc;
use crate::toml_doc::{TomlDoc, TomlView};
use vstd::prelude::*;

verus! {

/// Evidence for architectural and design decisions.
#[derive(Clone, Debug)]
pub struct DocsCollection {
    pub documents: Vec<DocumentExcerpt>,
    pub annotations: Vec<CodeAnnotation>,
    pub dependencies: Vec<DependencyManifest>,
}

impl DocsCollection {
    pub fn item_count(&self) -> (r: usize)
        ensures
            r == text::tallied(
                self.documents@.len() + self.annotations@.len() + self.dependencies@.len(),
            ),
    {
        text::tally(
            text::tally(self.documents.len(), self.annotations.len()),
            self.dependencies.len(),
        )
    }
}

/// A documentation file captured to be mined for rationale.
#[derive(Clone, Debug)]
pub struct DocumentExcerpt {
    pub path: String,
    pub content: String,
    pub truncated: bool,
    pub bytes: usize,
    /// Why this document was selected: `readme`, `decision-record`, `agent-guidelines`,
    /// `docs` or `markdown`.
    pub kind: String,
}

/// A single decision-flavored comment line with its location.
#[derive(Clone, Debug)]
pub struct CodeAnnotation {
    pub file: String,
    pub line: usize,
    pub kind: String,
    pub text: String,
}

/// Parsed dependencies from one manifest file.
#[derive(Clone, Debug)]
pub struct DependencyManifest {
    pub manifest: String,
    pub manager: String,
    pub dependencies: Vec<Dependency>,
}

#[derive(Clone, Debug)]
pub struct Dependency {
    pub name: String,
    pub version: String,
}

/// A document as a mathematical value.
pub struct DocumentView {
    pub path: Seq<char>,
    pub content: Seq<char>,
    pub truncated: bool,
    pub bytes: int,
    pub kind: Seq<char>,
}

impl View for DocumentExcerpt {
    type V = DocumentView;

    open spec fn view(&self) -> DocumentView {
        DocumentView {
            path: self.path@,
            content: self.content@,
            truncated: self.truncated,
            bytes: self.bytes as int,
            kind: self.kind@,
        }
    }
}

pub open spec fn document_views(v: Seq<DocumentExcerpt>) -> Seq<DocumentView> {
    Seq::new(v.len(), |i: int| v[i]@)
}

/// An annotation as a mathematical value.
pub struct AnnotationView {
    pub file: Seq<char>,
    pub line: int,
    pub kind: Seq<char>,
    pub text: Seq<char>,
}

impl View for CodeAnnotation {
    type V = AnnotationView;

    open spec fn view(&self) -> AnnotationView {
        AnnotationView {
            file: self.file@,
            line: self.line as int,
            kind: self.kind@,
            text: self.text@,
        }
    }
}

pub open spec fn annotation_views(v: Seq<CodeAnnotation>) -> Seq<AnnotationView> {
    Seq::new(v.len(), |i: int| v[i]@)
}

/// The name and version of a dependency.
pub open spec fn dependency_views(v: Seq<Dependency>) -> Seq<(Seq<char>, Seq<char>)> {
    Seq::new(v.len(), |i: int| (v[i].name@, v[i].version@))
}

/// A manifest as a mathematical value.
pub struct ManifestView {
    pub manifest: Seq<char>,
    pub manager: Seq<char>,
    pub dependencies: Seq<(Seq<char>, Seq<char>)>,
}

impl View for DependencyManifest {
    type V = ManifestView;

    open spec fn view(&self) -> ManifestView {
        ManifestView {
            manifest: self.manifest@,
            manager: self.manager@,
            dependencies: dependency_views(self.dependencies@),
        }
    }
}

pub open spec fn manifest_views(v: Seq<DependencyManifest>) -> Seq<ManifestView> {
    Seq::new(v.len(), |i: int| v[i]@)
}

/// The most documents that are captured.
pub const MAX_DOCUMENTS: usize = 40;

/// The most annotations that are collected.
pub const MAX_ANNOTATIONS: usize = 200;

// ---------------------------------------------------------------------------
// Kinds of documents
// ---------------------------------------------------------------------------

/// The kinds of documents.
pub open spec fn is_document_kind(kind: Seq<char>) -> bool {
    kind == "readme"@ || kind == "decision-record"@ || kind == "agent-guidelines"@ || kind
        == "docs"@ || kind == "markdown"@
}

/// The role of a markdown file. `rules_file` names a file that agents take their rules
/// from, besides the ones that are always known.
pub open spec fn document_kind(path: Seq<char>, rules_file: Option<Seq<char>>) -> Seq<char> {
    let name = files::base_name(path);
    if name == "README.md"@ || name == "README.markdown"@ {
        "readme"@
    } else if Some(name) == rules_file || name == "AGENTS.md"@ || name == "GEMINI.md"@ || name
        == "COPILOT.md"@ {
        "agent-guidelines"@
    } else if name == "DECISIONS.md"@ || name == "DECISION.md"@ {
        "decision-record"@
    } else if text::contains(path, "/ADR/"@) || text::contains(path, "/adr/"@) || text::contains(
        path,
        "/decisions/"@,
    ) {
        "decision-record"@
    } else if text::contains(path, "/docs/"@) {
        "docs"@
    } else {
        "markdown"@
    }
}

/// Classify a markdown file by its role.
pub fn doc_kind(path: &str, rules_file: Option<&str>) -> (r: &'static str)
    ensures
        r@ == document_kind(path@, text::opt_str(rules_file)),
        is_document_kind(r@),
{
    let name = files::file_name(path);
    let n = name.as_str();
    let is_rules = match rules_file {
        Some(rules) => text::same(n, rules),
        None => false,
    };
    if text::same(n, "README.md") || text::same(n, "README.markdown") {
        "readme"
    } else if is_rules || text::same(n, "AGENTS.md") || text::same(
        n,
        "GEMINI.md",
    ) || text::same(n, "COPILOT.md") {
        "agent-guidelines"
    } else if text::same(n, "DECISIONS.md") || text::same(n, "DECISION.md") {
        "decision-record"
    } else if text::has_substring(path, "/ADR/") || text::has_substring(path, "/adr/")
        || text::has_substring(path, "/decisions/") {
        "decision-record"
    } else if text::has_substring(path, "/docs/") {
        "docs"
    } else {
        "markdown"
    }
}

// ---------------------------------------------------------------------------
// Annotations
// ---------------------------------------------------------------------------

/// The keywords that mark a note.
#[derive(Clone, Copy, Debug, PartialEq, Eq, Structural)]
pub enum Keyword {
    Why,
    Note,
    Hack,
    Decision,
    Reason,
    Warning,
    Xxx,
    Todo,
}

/// A keyword as it is written.
pub open spec fn keyword_text(k: Keyword) -> Seq<char> {
    match k {
        Keyword::Why => "WHY"@,
        Keyword::Note => "NOTE"@,
        Keyword::Hack => "HACK"@,
        Keyword::Decision => "DECISION"@,
        Keyword::Reason => "REASON"@,
        Keyword::Warning => "WARNING"@,
        Keyword::Xxx => "XXX"@,
        Keyword::Todo => "TODO"@,
    }
}

/// The kind that a note is filed under.
pub open spec fn keyword_kind(kw: Seq<char>) -> Seq<char> {
    if kw == "WHY"@ {
        "why"@
    } else if kw == "NOTE"@ {
        "note"@
    } else if kw == "HACK"@ {
        "hack"@
    } else if kw == "DECISION"@ {
        "decision"@
    } else if kw == "REASON"@ {
        "reason"@
    } else if kw == "WARNING"@ {
        "warning"@
    } else if kw == "XXX"@ {
        "xxx"@
    } else if kw == "TODO"@ {
        "todo"@
    } else {
        "note"@
    }
}

/// The order in which the keywords are tried.
pub open spec fn keywords() -> Seq<Keyword> {
    seq![
        Keyword::Why,
        Keyword::Note,
        Keyword::Hack,
        Keyword::Decision,
        Keyword::Reason,
        Keyword::Warning,
        Keyword::Xxx,
        Keyword::Todo,
    ]
}

/// The kind of a keyword, in lower case.
pub fn kw_lower(kw: &str) -> (r: &'static str)
    ensures
        r@ == keyword_kind(kw@),
{
    if text::same(kw, "WHY") {
        "why"
    } else if text::same(kw, "NOTE") {
        "note"
    } else if text::same(kw, "HACK") {
        "hack"
    } else if text::same(kw, "DECISION") {
        "decision"
    } else if text::same(kw, "REASON") {
        "reason"
    } else if text::same(kw, "WARNING") {
        "warning"
    } else if text::same(kw, "XXX") {
        "xxx"
    } else if text::same(kw, "TODO") {
        "todo"
    } else {
        "note"
    }
}

/// The note that a comment makes with one keyword: the keyword must be followed by a
/// colon, a space or the end, and something must be said.
pub open spec fn note_with(comment: Seq<char>, kw: Seq<char>) -> Option<Seq<char>> {
    match text::after_prefix(comment, kw) {
        None => None,
        Some(after) => {
            let said = text::trimmed(text::trim_start_char(after, ':'));
            if (after.len() == 0 || after[0] == ':' || after[0] == ' ') && said.len() > 0 {
                Some(said)
            } else {
                None
            }
        },
    }
}

/// The first keyword of the list under which a comment makes a note.
pub open spec fn first_note(comment: Seq<char>, kws: Seq<Keyword>) -> Option<
    (Seq<char>, Seq<char>),
>
    decreases kws.len(),
{
    if kws.len() == 0 {
        None
    } else {
        match note_with(comment, keyword_text(kws[0])) {
            Some(said) => Some((keyword_kind(keyword_text(kws[0])), said)),
            None => first_note(comment, kws.skip(1)),
        }
    }
}

/// The kind and text of a module doc or a labeled note; nothing for any other line.
pub open spec fn comment_note(line: Seq<char>) -> Option<(Seq<char>, Seq<char>)> {
    let t = text::trim_start(line);
    match text::after_prefix(t, "//!"@) {
        Some(rest) => {
            let said = text::trimmed(text::trim_start_char(rest, '/'));
            if said.len() > 0 {
                Some(("module-doc"@, said))
            } else {
                None
            }
        },
        None => match text::after_prefix(t, "//"@) {
            Some(rest) => first_note(text::trim_start(rest), keywords()),
            None => None,
        },
    }
}

pub open spec fn note_view(n: Option<(&'static str, String)>) -> Option<(Seq<char>, Seq<char>)> {
    match n {
        Some((k, s)) => Some((k@, s@)),
        None => None,
    }
}

fn keyword_str(k: Keyword) -> (r: &'static str)
    ensures
        r@ == keyword_text(k),
{
    match k {
        Keyword::Why => "WHY",
        Keyword::Note => "NOTE",
        Keyword::Hack => "HACK",
        Keyword::Decision => "DECISION",
        Keyword::Reason => "REASON",
        Keyword::Warning => "WARNING",
        Keyword::Xxx => "XXX",
        Keyword::Todo => "TODO",
    }
}

fn note_under(comment: &str, kw: &str) -> (r: Option<String>)
    ensures
        text::opt_text(r) == note_with(comment@, kw@),
{
    match text::strip_prefix(comment, kw) {
        None => None,
        Some(after) => {
            let v = text::chars_of(after.as_str());
            let said = text::trim(text::strip_leading(after.as_str(), ':').as_str());
            if (v.len() == 0 || v[0] == ':' || v[0] == ' ') && !said.as_str().is_empty() {
                Some(said)
            } else {
                None
            }
        },
    }
}

/// Return the kind and text of a line that is a module doc or a labeled note.
pub fn classify_comment_line(line: &str) -> (r: Option<(&'static str, String)>)
    ensures
        note_view(r) == comment_note(line@),
{
    let t = text::trim_left(line);
    match text::strip_prefix(t.as_str(), "//!") {
        Some(rest) => {
            let said = text::trim(text::strip_leading(rest.as_str(), '/').as_str());
            if !said.as_str().is_empty() {
                return Some(("module-doc", said));
            }
            return None;
        },
        None => {},
    }
    let rest = match text::strip_prefix(t.as_str(), "//") {
        Some(rest) => text::trim_left(rest.as_str()),
        None => {
            return None;
        },
    };
    let kws = vec![
        Keyword::Why,
        Keyword::Note,
        Keyword::Hack,
        Keyword::Decision,
        Keyword::Reason,
        Keyword::Warning,
        Keyword::Xxx,
        Keyword::Todo,
    ];
    assert(kws@ =~= keywords());
    let mut i: usize = 0;
    assert(kws@.skip(0) =~= kws@);
    while i < kws.len()
        invariant
            i <= kws@.len(),
            comment_note(line@) == first_note(rest@, kws@.skip(i as int)),
        decreases kws@.len() - i,
    {
        let kw = keyword_str(kws[i]);
        assert(kws@.skip(i as int).skip(1) =~= kws@.skip(i + 1));
        match note_under(rest.as_str(), kw) {
            Some(said) => {
                return Some((kw_lower(kw), said));
            },
            None => {},
        }
        i = i + 1;
    }
    None
}

/// The annotations found in the lines of a file, added to those found before, up to
/// the most that are collected.
pub open spec fn annotated(
    before: Seq<AnnotationView>,
    lines: Seq<Seq<char>>,
    file: Seq<char>,
) -> Seq<AnnotationView>
    decreases lines.len(),
{
    if lines.len() == 0 {
        before
    } else {
        let so_far = annotated(before, lines.drop_last(), file);
        match comment_note(lines.last()) {
            Some((kind, said)) => if so_far.len() < MAX_ANNOTATIONS {
                so_far.push(
                    AnnotationView { file, line: lines.len() as int, kind, text: said },
                )
            } else {
                so_far
            },
            None => so_far,
        }
    }
}

/// Scan the text of a source file for decision-flavored comments and module docs.
pub fn scan_annotations(source: &str, file: &str, out: &mut Vec<CodeAnnotation>)
    ensures
        annotation_views(final(out)@) == annotated(
            annotation_views(old(out)@),
            text::lines(source@),
            file@,
        ),
{
    let lines = text::line_list(source);
    let ghost all = text::texts(lines@);
    let ghost start = annotation_views(out@);
    let mut i: usize = 0;
    assert(all.take(0) =~= Seq::empty());
    while i < lines.len()
        invariant
            i <= lines@.len(),
            all == text::texts(lines@),
            annotation_views(out@) == annotated(start, all.take(i as int), file@),
        decreases lines@.len() - i,
    {
        assert(all.take(i + 1).drop_last() =~= all.take(i as int));
        assert(all.take(i + 1).last() == lines@[i as int]@);
        match classify_comment_line(lines[i].as_str()) {
            Some((kind, said)) => {
                if out.len() < MAX_ANNOTATIONS {
                    let ghost before = annotation_views(out@);
                    let found = CodeAnnotation {
                        file: file.to_owned(),
                        line: i + 1,
                        kind: kind.to_owned(),
                        text: said,
                    };
                    let ghost seen = found@;
                    out.push(found);
                    assert(annotation_views(out@) =~= before.push(seen));
                }
            },
            None => {},
        }
        i = i + 1;
    }
    assert(all.take(i as int) =~= all);
}

// ---------------------------------------------------------------------------
// Manifests
// ---------------------------------------------------------------------------

/// The version that a dependency of a Cargo manifest asks for.
pub open spec fn cargo_version(spec_value: TomlView) -> Seq<char> {
    match spec_value {
        TomlView::Text(s) => s,
        TomlView::Table(_) => match toml_doc::entry(spec_value, "version"@) {
            Some(TomlView::Text(s)) => s,
            _ => Seq::empty(),
        },
        TomlView::Other => Seq::empty(),
    }
}

pub open spec fn cargo_entries(entries: Seq<(Seq<char>, TomlView)>) -> Seq<
    (Seq<char>, Seq<char>),
> {
    Seq::new(entries.len(), |i: int| (entries[i].0, cargo_version(entries[i].1)))
}

/// The dependencies in one section of a Cargo manifest.
pub open spec fn cargo_section(doc: TomlView, section: Seq<char>) -> Seq<(Seq<char>, Seq<char>)> {
    match toml_doc::entry(doc, section) {
        Some(TomlView::Table(entries)) => cargo_entries(entries),
        _ => Seq::empty(),
    }
}

/// The dependencies of a Cargo manifest; none where it could not be parsed.
pub open spec fn cargo_dependencies(doc: Option<TomlView>) -> Seq<(Seq<char>, Seq<char>)> {
    match doc {
        Some(d) => cargo_section(d, "dependencies"@) + cargo_section(d, "dev-dependencies"@),
        None => Seq::empty(),
    }
}

fn cargo_dep_version(spec_value: &TomlDoc) -> (r: String)
    ensures
        r@ == cargo_version(spec_value@),
{
    match spec_value {
        TomlDoc::Text(s) => s.clone(),
        TomlDoc::Table(entries) => {
            proof {
                TomlDoc::table_view(*entries);
            }
            match spec_value.get("version") {
                Some(d) => match d {
                    TomlDoc::Text(s) => s.clone(),
                    TomlDoc::Table(inner) => {
                        proof {
                            TomlDoc::table_view(*inner);
                        }
                        String::new()
                    },
                    TomlDoc::Other => String::new(),
                },
                None => String::new(),
            }
        },
        TomlDoc::Other => String::new(),
    }
}

fn add_cargo_section(doc: &TomlDoc, section: &str, deps: &mut Vec<Dependency>)
    ensures
        dependency_views(final(deps)@) == dependency_views(old(deps)@) + cargo_section(
            doc@,
            section@,
        ),
{
    let ghost start = dependency_views(deps@);
    match doc.get(section) {
        Some(table) => match table {
            TomlDoc::Table(entries) => {
                proof {
                    TomlDoc::table_view(*entries);
                }
                let ghost all = cargo_entries(toml_doc::entry_views(entries@));
                let mut i: usize = 0;
                assert(start + all.take(0) =~= start);
                while i < entries.len()
                    invariant
                        i <= entries@.len(),
                        all == cargo_entries(toml_doc::entry_views(entries@)),
                        dependency_views(deps@) == start + all.take(i as int),
                    decreases entries@.len() - i,
                {
                    let ghost before = dependency_views(deps@);
                    deps.push(
                        Dependency {
                            name: entries[i].0.clone(),
                            version: cargo_dep_version(&entries[i].1),
                        },
                    );
                    assert(dependency_views(deps@) =~= before.push(all[i as int]));
                    i = i + 1;
                    assert(start + all.take(i as int) =~= (start + all.take(i - 1)).push(
                        all[i - 1],
                    ));
                }
                assert(all.take(i as int) =~= all);
            },
            TomlDoc::Text(_) => {
                assert(start + Seq::<(Seq<char>, Seq<char>)>::empty() =~= start);
            },
            TomlDoc::Other => {
                assert(start + Seq::<(Seq<char>, Seq<char>)>::empty() =~= start);
            },
        },
        None => {
            assert(start + Seq::<(Seq<char>, Seq<char>)>::empty() =~= start);
        },
    }
}

/// The manifest that a parsed Cargo file makes.
pub fn cargo_manifest(doc: Option<TomlDoc>, manifest: &str) -> (r: DependencyManifest)
    ensures
        r@ == (ManifestView {
            manifest: manifest@,
            manager: "cargo"@,
            dependencies: cargo_dependencies(toml_doc::opt_toml(doc)),
        }),
{
    let mut deps: Vec<Dependency> = Vec::new();
    match &doc {
        Some(d) => {
            add_cargo_section(d, "dependencies", &mut deps);
            assert(dependency_views(deps@) =~= cargo_section(d@, "dependencies"@));
            add_cargo_section(d, "dev-dependencies", &mut deps);
        },
        None => {
            assert(dependency_views(deps@) =~= Seq::empty());
        },
    }
    DependencyManifest {
        manifest: manifest.to_owned(),
        manager: "cargo".to_owned(),
        dependencies: deps,
    }
}

/// Parse a Cargo manifest. One that is not TOML has no dependencies.
pub fn parse_cargo_toml(source: &str, manifest: &str) -> (r: DependencyManifest)
    ensures
        r@ == (ManifestView {
            manifest: manifest@,
            manager: "cargo"@,
            dependencies: cargo_dependencies(toml_doc::toml_read(source@)),
        }),
{
    cargo_manifest(TomlDoc::parse(source), manifest)
}

pub open spec fn npm_entries(fields: Seq<(Seq<char>, JsonView)>) -> Seq<(Seq<char>, Seq<char>)> {
    Seq::new(
        fields.len(),
        |i: int|
            (
                fields[i].0,
                match json::string_value(fields[i].1) {
                    Some(s) => s,
                    None => Seq::empty(),
                },
            ),
    )
}

/// The entries of one section of a package manifest, names with texts.
pub open spec fn npm_section(doc: JsonView, section: Seq<char>) -> Seq<(Seq<char>, Seq<char>)> {
    match json::member(doc, section) {
        Some(JsonView::Object(fields)) => npm_entries(fields),
        _ => Seq::empty(),
    }
}

/// The dependencies of a package manifest; none where it could not be parsed.
pub open spec fn npm_dependencies(doc: Result<JsonView, Seq<char>>) -> Seq<
    (Seq<char>, Seq<char>),
> {
    match doc {
        Ok(d) => npm_section(d, "dependencies"@) + npm_section(d, "devDependencies"@),
        Err(_) => Seq::empty(),
    }
}

/// The entries of one section of a package manifest.
pub(crate) fn section_entries(doc: &Json, section: &str) -> (r: Vec<Dependency>)
    ensures
        dependency_views(r@) == npm_section(doc@, section@),
{
    let mut deps: Vec<Dependency> = Vec::new();
    match doc.get(section) {
        Some(j) => match j {
            Json::Object(fields) => {
                proof {
                    Json::object_view(*fields);
                }
                let ghost all = npm_entries(json::field_views(fields@));
                let mut i: usize = 0;
                assert(dependency_views(deps@) =~= all.take(0));
                while i < fields.len()
                    invariant
                        i <= fields@.len(),
                        all == npm_entries(json::field_views(fields@)),
                        dependency_views(deps@) == all.take(i as int),
                    decreases fields@.len() - i,
                {
                    let ghost before = dependency_views(deps@);
                    let version = match fields[i].1.as_str() {
                        Some(s) => s.to_owned(),
                        None => String::new(),
                    };
                    deps.push(Dependency { name: fields[i].0.clone(), version });
                    assert(dependency_views(deps@) =~= before.push(all[i as int]));
                    i = i + 1;
                    assert(all.take(i as int) =~= all.take(i - 1).push(all[i - 1]));
                }
                assert(all.take(i as int) =~= all);
            },
            Json::Array(v) => {
                proof {
                    Json::array_view(*v);
                }
                assert(dependency_views(deps@) =~= Seq::empty());
            },
            _ => {
                assert(dependency_views(deps@) =~= Seq::empty());
            },
        },
        None => {
            assert(dependency_views(deps@) =~= Seq::empty());
        },
    }
    deps
}

/// The manifest that a parsed package file makes.
pub fn npm_manifest(doc: Result<Json, String>, manifest: &str) -> (r: DependencyManifest)
    ensures
        r@ == (ManifestView {
            manifest: manifest@,
            manager: "npm"@,
            dependencies: npm_dependencies(json::read_view(doc)),
        }),
{
    let deps = match &doc {
        Ok(d) => {
            let mut deps = section_entries(d, "dependencies");
            let mut dev = section_entries(d, "devDependencies");
            let ghost first = dependency_views(deps@);
            let ghost second = dependency_views(dev@);
            deps.append(&mut dev);
            assert(dependency_views(deps@) =~= first + second);
            deps
        },
        Err(_) => {
            let deps: Vec<Dependency> = Vec::new();
            assert(dependency_views(deps@) =~= Seq::empty());
            deps
        },
    };
    DependencyManifest {
        manifest: manifest.to_owned(),
        manager: "npm".to_owned(),
        dependencies: deps,
    }
}

/// Parse a package manifest. One that is not JSON has no dependencies.
pub fn parse_package_json(source: &str, manifest: &str) -> (r: DependencyManifest)
    ensures
        r@ == (ManifestView {
            manifest: manifest@,
            manager: "npm"@,
            dependencies: npm_dependencies(json::json_read(source@)),
        }),
{
    npm_manifest(Json::parse(source), manifest)
}

/// The requirement that a line of a module file states; empty where it states none.
pub open spec fn go_requirement(line: Seq<char>) -> Seq<char> {
    let t = text::trimmed(line);
    match text::after_prefix(t, "require "@) {
        Some(rest) => text::trimmed(rest),
        None => if text::starts_with(t, "github.com/"@) || text::starts_with(t, "golang.org/"@)
            || text::starts_with(t, "gopkg.in/"@) {
            t
        } else {
            Seq::empty()
        },
    }
}

/// The dependencies that the lines of a module file state: those with a path and a
/// version.
pub open spec fn go_dependencies(lines: Seq<Seq<char>>) -> Seq<(Seq<char>, Seq<char>)>
    decreases lines.len(),
{
    if lines.len() == 0 {
        Seq::empty()
    } else {
        let before = go_dependencies(lines.drop_last());
        let parts = text::words(go_requirement(lines.last()));
        if parts.len() >= 2 {
            before.push((parts[0], parts[1]))
        } else {
            before
        }
    }
}

/// Parse a Go module file, single-line requirements and blocks alike.
pub fn parse_go_mod(source: &str, manifest: &str) -> (r: DependencyManifest)
    ensures
        r@ == (ManifestView {
            manifest: manifest@,
            manager: "go"@,
            dependencies: go_dependencies(text::lines(source@)),
        }),
{
    let lines = text::line_list(source);
    let ghost all = text::texts(lines@);
    let mut deps: Vec<Dependency> = Vec::new();
    let mut i: usize = 0;
    assert(all.take(0) =~= Seq::empty());
    assert(dependency_views(deps@) =~= go_dependencies(all.take(0)));
    while i < lines.len()
        invariant
            i <= lines@.len(),
            all == text::texts(lines@),
            dependency_views(deps@) == go_dependencies(all.take(i as int)),
        decreases lines@.len() - i,
    {
        assert(all.take(i + 1).drop_last() =~= all.take(i as int));
        assert(all.take(i + 1).last() == lines@[i as int]@);
        let t = text::trim(lines[i].as_str());
        let r = match text::strip_prefix(t.as_str(), "require ") {
            Some(rest) => text::trim(rest.as_str()),
            None => {
                if text::has_prefix(t.as_str(), "github.com/") || text::has_prefix(
                    t.as_str(),
                    "golang.org/",
                ) || text::has_prefix(t.as_str(), "gopkg.in/") {
                    t
                } else {
                    String::new()
                }
            },
        };
        assert(r@ == go_requirement(all[i as int]));
        let parts = text::word_list(r.as_str());
        assert(text::texts(parts@).len() == parts@.len());
        if parts.len() >= 2 {
            let ghost before = dependency_views(deps@);
            deps.push(Dependency { name: parts[0].clone(), version: parts[1].clone() });
            assert(text::texts(parts@)[0] == parts@[0]@);
            assert(text::texts(parts@)[1] == parts@[1]@);
            assert(dependency_views(deps@) =~= before.push((parts@[0]@, parts@[1]@)));
        }
        i = i + 1;
    }
    assert(all.take(i as int) =~= all);
    DependencyManifest {
        manifest: manifest.to_owned(),
        manager: "go".to_owned(),
        dependencies: deps,
    }
}

// ---------------------------------------------------------------------------
// Collection
// ---------------------------------------------------------------------------

/// What a file is to this collector.
#[derive(Clone, Copy, Debug, PartialEq, Eq, Structural)]
pub enum DocRole {
    CargoManifest,
    NpmManifest,
    GoManifest,
    Document,
    Source,
    Other,
}

/// The extensions of source files whose comments may carry annotations.
pub open spec fn source_extensions() -> Seq<Seq<char>> {
    seq![
        "rs"@, "ts"@, "tsx"@, "js"@, "jsx"@, "go"@, "py"@, "java"@, "kt"@, "rb"@, "c"@, "cpp"@,
        "h"@, "hpp"@, "swift"@, "m"@, "mm"@, "scala"@, "clj"@, "ex"@, "exs"@, "erl"@, "hs"@,
        "lua"@, "php"@, "sql"@, "sh"@, "vim"@, "elm"@,
    ]
}

/// The role of a file, by its name and extension.
pub open spec fn role_of(path: Seq<char>) -> DocRole {
    let name = files::base_name(path);
    let ext = files::extension(name);
    if name == "Cargo.toml"@ {
        DocRole::CargoManifest
    } else if name == "package.json"@ {
        DocRole::NpmManifest
    } else if name == "go.mod"@ {
        DocRole::GoManifest
    } else if ext == "md"@ || ext == "markdown"@ {
        DocRole::Document
    } else if source_extensions().contains(ext) {
        DocRole::Source
    } else {
        DocRole::Other
    }
}

/// The role of a file. Manifests and source files are to be read whole, documents up
/// to one byte beyond the cap, other files not at all.
pub fn doc_role(path: &str) -> (r: DocRole)
    ensures
        r == role_of(path@),
{
    let name = files::file_name(path);
    let ext = files::file_extension(name.as_str());
    if text::same(name.as_str(), "Cargo.toml") {
        DocRole::CargoManifest
    } else if text::same(name.as_str(), "package.json") {
        DocRole::NpmManifest
    } else if text::same(name.as_str(), "go.mod") {
        DocRole::GoManifest
    } else if text::same(ext.as_str(), "md") || text::same(ext.as_str(), "markdown") {
        DocRole::Document
    } else {
        let known = vec![
            "rs", "ts", "tsx", "js", "jsx", "go", "py", "java", "kt", "rb", "c", "cpp", "h", "hpp",
            "swift", "m", "mm", "scala", "clj", "ex", "exs", "erl", "hs", "lua", "php", "sql",
            "sh", "vim", "elm",
        ];
        if text::one_of(ext.as_str(), &known, Ghost(source_extensions())) {
            DocRole::Source
        } else {
            DocRole::Other
        }
    }
}

/// What has been collected so far.
pub struct DocsView {
    pub documents: Seq<DocumentView>,
    pub annotations: Seq<AnnotationView>,
    pub dependencies: Seq<ManifestView>,
}

impl View for DocsCollection {
    type V = DocsView;

    open spec fn view(&self) -> DocsView {
        DocsView {
            documents: document_views(self.documents@),
            annotations: annotation_views(self.annotations@),
            dependencies: manifest_views(self.dependencies@),
        }
    }
}

pub open spec fn no_docs() -> DocsView {
    DocsView {
        documents: Seq::empty(),
        annotations: Seq::empty(),
        dependencies: Seq::empty(),
    }
}

/// The manifest that a file holds, if it can be read as text.
pub open spec fn manifest_in(f: FileView, root: Seq<char>) -> Option<ManifestView> {
    let manifest = files::relative(f.path, root);
    match (files::text_read(f), role_of(f.path)) {
        (Some(source), DocRole::CargoManifest) => Some(
            ManifestView {
                manifest,
                manager: "cargo"@,
                dependencies: cargo_dependencies(toml_doc::toml_read(source)),
            },
        ),
        (Some(source), DocRole::NpmManifest) => Some(
            ManifestView {
                manifest,
                manager: "npm"@,
                dependencies: npm_dependencies(json::json_read(source)),
            },
        ),
        (Some(source), DocRole::GoManifest) => Some(
            ManifestView {
                manifest,
                manager: "go"@,
                dependencies: go_dependencies(text::lines(source)),
            },
        ),
        _ => None,
    }
}

/// One more file.
pub open spec fn docs_step(
    s: DocsView,
    f: FileView,
    root: Seq<char>,
    max: int,
    rules_file: Option<Seq<char>>,
) -> DocsView {
    match role_of(f.path) {
        DocRole::Document => match f.read {
            Some(raw) => if s.documents.len() < MAX_DOCUMENTS {
                DocsView {
                    documents: s.documents.push(
                        DocumentView {
                            path: files::relative(f.path, root),
                            content: files::bounded_text(raw, max),
                            truncated: raw.len() > max,
                            bytes: raw.len() as int,
                            kind: document_kind(f.path, rules_file),
                        },
                    ),
                    annotations: s.annotations,
                    dependencies: s.dependencies,
                }
            } else {
                s
            },
            None => s,
        },
        DocRole::Source => match f.read {
            Some(raw) => DocsView {
                documents: s.documents,
                annotations: annotated(
                    s.annotations,
                    text::lines(files::lossy_text(files::capped(raw, max))),
                    files::relative(f.path, root),
                ),
                dependencies: s.dependencies,
            },
            None => s,
        },
        DocRole::Other => s,
        _ => match manifest_in(f, root) {
            Some(m) => DocsView {
                documents: s.documents,
                annotations: s.annotations,
                dependencies: s.dependencies.push(m),
            },
            None => s,
        },
    }
}

/// What a list of files yields.
pub open spec fn docs_of(
    fs: Seq<FileView>,
    root: Seq<char>,
    max: int,
    rules_file: Option<Seq<char>>,
) -> DocsView
    decreases fs.len(),
{
    if fs.len() == 0 {
        no_docs()
    } else {
        docs_step(
            docs_of(fs.drop_last(), root, max, rules_file),
            fs.last(),
            root,
            max,
            rules_file,
        )
    }
}

/// Neither the documents nor the annotations exceed their cap.
pub proof fn docs_stay_bounded(
    fs: Seq<FileView>,
    root: Seq<char>,
    max: int,
    rules_file: Option<Seq<char>>,
)
    ensures
        docs_of(fs, root, max, rules_file).documents.len() <= MAX_DOCUMENTS,
        docs_of(fs, root, max, rules_file).annotations.len() <= MAX_ANNOTATIONS,
    decreases fs.len(),
{
    if fs.len() > 0 {
        docs_stay_bounded(fs.drop_last(), root, max, rules_file);
        let f = fs.last();
        if f.read is Some {
            annotated_stays_bounded(
                docs_of(fs.drop_last(), root, max, rules_file).annotations,
                text::lines(files::lossy_text(files::capped(f.read->0, max))),
                files::relative(f.path, root),
            );
        }
    }
}

proof fn annotated_stays_bounded(
    before: Seq<AnnotationView>,
    lines: Seq<Seq<char>>,
    file: Seq<char>,
)
    requires
        before.len() <= MAX_ANNOTATIONS,
    ensures
        annotated(before, lines, file).len() <= MAX_ANNOTATIONS,
    decreases lines.len(),
{
    if lines.len() > 0 {
        annotated_stays_bounded(before, lines.drop_last(), file);
    }
}

impl DocsCollection {
    /// Nothing collected yet.
    pub fn empty() -> (r: Self)
        ensures
            r@ == no_docs(),
    {
        let r = DocsCollection {
            documents: Vec::new(),
            annotations: Vec::new(),
            dependencies: Vec::new(),
        };
        assert(r@.documents =~= no_docs().documents);
        assert(r@.annotations =~= no_docs().annotations);
        assert(r@.dependencies =~= no_docs().dependencies);
        r
    }

    /// Take in one more file.
    pub fn absorb(
        &mut self,
        f: WalkedFile,
        repo_path: &str,
        max_bytes: usize,
        rules_file: Option<&str>,
    )
        ensures
            final(self)@ == docs_step(
                old(self)@,
                f@,
                repo_path@,
                max_bytes as int,
                text::opt_str(rules_file),
            ),
    {
        let role = doc_role(f.path.as_str());
        let rel = files::relpath(f.path.as_str(), repo_path);
        let raw = match f.read {
            Some(raw) => raw,
            None => {
                return;
            },
        };
        match role {
            DocRole::Document => {
                if self.documents.len() < MAX_DOCUMENTS {
                    let kind = doc_kind(f.path.as_str(), rules_file);
                    let src = FileSource::from_path(f.path.as_str(), repo_path, raw, max_bytes);
                    let ghost before = document_views(self.documents@);
                    let doc = DocumentExcerpt {
                        kind: kind.to_owned(),
                        path: src.path,
                        content: src.content,
                        truncated: src.truncated,
                        bytes: src.bytes,
                    };
                    let ghost seen = doc@;
                    self.documents.push(doc);
                    assert(document_views(self.documents@) =~= before.push(seen));
                }
            },
            DocRole::Source => {
                let source = files::decode_capped(raw, max_bytes);
                scan_annotations(source.as_str(), rel.as_str(), &mut self.annotations);
            },
            DocRole::Other => {},
            _ => {
                match files::whole_text(raw) {
                    Some(source) => {
                        let m = match role {
                            DocRole::CargoManifest => parse_cargo_toml(
                                source.as_str(),
                                rel.as_str(),
                            ),
                            DocRole::NpmManifest => parse_package_json(
                                source.as_str(),
                                rel.as_str(),
                            ),
                            _ => parse_go_mod(source.as_str(), rel.as_str()),
                        };
                        let ghost before = manifest_views(self.dependencies@);
                        let ghost seen = m@;
                        self.dependencies.push(m);
                        assert(manifest_views(self.dependencies@) =~= before.push(seen));
                    },
                    None => {},
                }
            },
        }
    }
}

/// Collect evidence of decisions from the files that were walked.
pub fn collect(repo_path: &str, walked: Vec<WalkedFile>, opts: &CollectOptions) -> (r:
    DocsCollection)
    ensures
        r@ == docs_of(
            files::walked_views(walked@),
            repo_path@,
            opts.max_file_bytes as int,
            text::opt_text(opts.rules_file),
        ),
{
    let ghost all = walked@;
    let ghost fs = files::walked_views(all);
    let ghost max = opts.max_file_bytes as int;
    let rules_file: Option<&str> = match &opts.rules_file {
        Some(name) => Some(name.as_str()),
        None => None,
    };
    let ghost rules = text::opt_text(opts.rules_file);
    let mut rest = walked;
    let mut r = DocsCollection::empty();
    let ghost mut done: int = 0;
    assert(all.skip(0) =~= all);
    assert(fs.take(0) =~= Seq::empty());
    while rest.len() > 0
        invariant
            0 <= done <= all.len(),
            fs == files::walked_views(all),
            max == opts.max_file_bytes,
            rules == text::opt_str(rules_file),
            rest@ == all.skip(done),
            r@ == docs_of(fs.take(done), repo_path@, max, rules),
        decreases rest@.len(),
    {
        let f = rest.remove(0);
        proof {
            assert(f == all[done]);
            assert(fs.take(done + 1).drop_last() =~= fs.take(done));
            assert(fs.take(done + 1).last() == f@);
        }
        r.absorb(f, repo_path, opts.max_file_bytes, rules_file);
        proof {
            assert(rest@ =~= all.skip(done + 1));
            done = done + 1;
        }
    }
    assert(fs.take(done) =~= fs);
    r
}

// ---------------------------------------------------------------------------
// Laws
// ---------------------------------------------------------------------------

/// A note as it is filed.
pub open spec fn filed_note(file: Seq<char>, line: int, note: (Seq<char>, Seq<char>)) -> AnnotationView {
    AnnotationView { file, line, kind: note.0, text: note.1 }
}

/// Scanning keeps what was found before and files every note of the lines under its own
/// line number, as long as there is room; it files nothing else.
pub proof fn every_note_is_filed(
    before: Seq<AnnotationView>,
    lines: Seq<Seq<char>>,
    file: Seq<char>,
)
    requires
        before.len() + lines.len() <= 200,
    ensures
        before.len() <= annotated(before, lines, file).len() <= before.len() + lines.len(),
        annotated(before, lines, file).take(before.len() as int) == before,
        forall|k: int|
            0 <= k < lines.len() && comment_note(#[trigger] lines[k]) is Some ==> annotated(
                before,
                lines,
                file,
            ).skip(before.len() as int).contains(
                filed_note(file, k + 1, comment_note(lines[k])->0),
            ),
        forall|i: int|
            before.len() <= i < annotated(before, lines, file).len() ==> {
                let a = #[trigger] annotated(before, lines, file)[i];
                &&& a.file == file
                &&& 1 <= a.line <= lines.len()
                &&& comment_note(lines[a.line - 1]) == Some((a.kind, a.text))
            },
    decreases lines.len(),
{
    let now = annotated(before, lines, file);
    let n = before.len() as int;
    if lines.len() > 0 {
        let rest = lines.drop_last();
        every_note_is_filed(before, rest, file);
        let old_now = annotated(before, rest, file);
        assert(now.take(n) =~= old_now.take(n));
        assert forall|k: int|
            0 <= k < lines.len() && comment_note(#[trigger] lines[k]) is Some implies now.skip(
            n,
        ).contains(
            filed_note(file, k + 1, comment_note(lines[k])->0),
        ) by {
            let a = filed_note(file, k + 1, comment_note(lines[k])->0);
            if k < rest.len() {
                assert(rest[k] == lines[k]);
                assert(old_now.skip(n).contains(a));
                let m = choose|m: int| 0 <= m < old_now.skip(n).len() && old_now.skip(n)[m] == a;
                assert(now.skip(n)[m] == a);
            } else {
                assert(now.last() == a);
                assert(now.skip(n)[now.len() - 1 - n] == a);
            }
        }
        assert forall|i: int| n <= i < now.len() implies {
            let a = #[trigger] now[i];
            &&& a.file == file
            &&& 1 <= a.line <= lines.len()
            &&& comment_note(lines[a.line - 1]) == Some((a.kind, a.text))
        } by {
            if i < old_now.len() {
                assert(now[i] == old_now[i]);
                assert(rest[old_now[i].line - 1] == lines[old_now[i].line - 1]);
            }
        }
    } else {
        assert(now.take(n) =~= before);
    }
}

/// The requirements of a module file are those of each of its lines: what the line states
/// behind `require`, or the line itself where it starts with a known host; it counts where
/// it has a path and a version.
pub proof fn every_requirement_counts(a: Seq<Seq<char>>, line: Seq<char>)
    ensures
        go_dependencies(Seq::<Seq<char>>::empty()) == Seq::<(Seq<char>, Seq<char>)>::empty(),
        ({
            let words = text::words(go_requirement(line));
            go_dependencies(a.push(line)) == if words.len() >= 2 {
                go_dependencies(a).push((words[0], words[1]))
            } else {
                go_dependencies(a)
            }
        }),
        ({
            let t = text::trimmed(line);
            &&& text::starts_with(t, "require "@) ==> go_requirement(line) == text::trimmed(
                t.skip("require "@.len() as int),
            )
            &&& !text::starts_with(t, "require "@) && (text::starts_with(t, "github.com/"@)
                || text::starts_with(t, "golang.org/"@) || text::starts_with(t, "gopkg.in/"@))
                ==> go_requirement(line) == t
        }),
{
    assert(a.push(line).drop_last() =~= a);
}

/// Every entry of the two sections of a manifest is a dependency under its own name, with
/// its version where one is stated.
pub proof fn every_section_entry_is_a_dependency(
    doc: TomlView,
    section: Seq<char>,
    entries: Seq<(Seq<char>, TomlView)>,
    i: int,
)
    requires
        section == "dependencies"@ || section == "dev-dependencies"@,
        toml_doc::entry(doc, section) == Some(TomlView::Table(entries)),
        0 <= i < entries.len(),
    ensures
        cargo_dependencies(Some(doc)).contains(
            (
                entries[i].0,
                match entries[i].1 {
                    TomlView::Text(s) => s,
                    TomlView::Table(_) => match toml_doc::entry(entries[i].1, "version"@) {
                        Some(TomlView::Text(s)) => s,
                        _ => Seq::empty(),
                    },
                    TomlView::Other => Seq::empty(),
                },
            ),
        ),
        cargo_dependencies(None) == Seq::<(Seq<char>, Seq<char>)>::empty(),
{
    let all = cargo_dependencies(Some(doc));
    let first = cargo_section(doc, "dependencies"@);
    if section == "dependencies"@ {
        assert(all[i] == cargo_section(doc, section)[i]);
    } else {
        assert(all[first.len() + i] == cargo_section(doc, section)[i]);
    }
}

/// Every entry of the two sections of a package manifest is a dependency under its own
/// name.
pub proof fn every_package_entry_is_a_dependency(
    doc: JsonView,
    section: Seq<char>,
    fields: Seq<(Seq<char>, JsonView)>,
    i: int,
)
    requires
        section == "dependencies"@ || section == "devDependencies"@,
        json::member(doc, section) == Some(JsonView::Object(fields)),
        0 <= i < fields.len(),
    ensures
        npm_dependencies(Ok(doc)).contains(
            (
                fields[i].0,
                match fields[i].1 {
                    JsonView::Str(s) => s,
                    _ => Seq::empty(),
                },
            ),
        ),
{
    let all = npm_dependencies(Ok(doc));
    let first = npm_section(doc, "dependencies"@);
    if section == "dependencies"@ {
        assert(all[i] == npm_section(doc, section)[i]);
    } else {
        assert(all[first.len() + i] == npm_section(doc, section)[i]);
    }
}

/// The document that a file is captured as.
pub open spec fn captured_document(
    f: FileView,
    root: Seq<char>,
    max: int,
    rules_file: Option<Seq<char>>,
) -> DocumentView {
    DocumentView {
        path: files::relative(f.path, root),
        content: files::bounded_text(f.read->0, max),
        truncated: f.read->0.len() > max,
        bytes: f.read->0.len() as int,
        kind: document_kind(f.path, rules_file),
    }
}

/// The first forty readable documents are captured, in the order of the files, and every
/// readable manifest is.
pub proof fn documents_are_captured_in_order(
    fs: Seq<FileView>,
    root: Seq<char>,
    max: int,
    rules_file: Option<Seq<char>>,
)
    ensures
        docs_of(fs, root, max, rules_file).documents == text::at_most(
            fs.filter(
                |f: FileView| role_of(f.path) == DocRole::Document && f.read is Some,
            ).map_values(|f: FileView| captured_document(f, root, max, rules_file)),
            40,
        ),
        docs_of(fs, root, max, rules_file).dependencies == fs.filter(
            |f: FileView| manifest_in(f, root) is Some,
        ).map_values(|f: FileView| manifest_in(f, root)->0),
    decreases fs.len(),
{
    reveal(Seq::filter);
    let shown = |f: FileView| role_of(f.path) == DocRole::Document && f.read is Some;
    let capture = |f: FileView| captured_document(f, root, max, rules_file);
    let holds = |f: FileView| manifest_in(f, root) is Some;
    let manifest = |f: FileView| manifest_in(f, root)->0;
    if fs.len() > 0 {
        let rest = fs.drop_last();
        let f = fs.last();
        documents_are_captured_in_order(rest, root, max, rules_file);
        let all = rest.filter(shown).map_values(capture);
        text::at_most_push(all, capture(f), 40);
        assert(rest.filter(shown).push(f).map_values(capture) =~= all.push(capture(f)));
        assert(rest.filter(holds).push(f).map_values(manifest) =~= rest.filter(holds).map_values(
            manifest,
        ).push(manifest(f)));
    } else {
        assert(docs_of(fs, root, max, rules_file).documents =~= text::at_most(
            fs.filter(shown).map_values(capture),
            40,
        ));
        assert(docs_of(fs, root, max, rules_file).dependencies =~= fs.filter(holds).map_values(
            manifest,
        ));
    }
}

/// What a document is filed as follows from its name first and from where it stands after
/// that.
pub proof fn documents_are_filed_by_name_and_place(path: Seq<char>, rules_file: Seq<char>)
    ensures
        files::base_name(path) == "README.md"@ ==> document_kind(path, None) == "readme"@,
        files::base_name(path) == "AGENTS.md"@ || files::base_name(path) == "GEMINI.md"@
            || files::base_name(path) == "COPILOT.md"@ ==> document_kind(path, None)
            == "agent-guidelines"@,
        files::base_name(path) == rules_file && rules_file != "README.md"@ && rules_file
            != "README.markdown"@ ==> document_kind(path, Some(rules_file)) == "agent-guidelines"@,
        files::base_name(path) == "DECISIONS.md"@ || files::base_name(path) == "DECISION.md"@
            ==> document_kind(path, None) == "decision-record"@,
        ({
            let name = files::base_name(path);
            name != "README.md"@ && name != "README.markdown"@ && name != "AGENTS.md"@ && name
                != "GEMINI.md"@ && name != "COPILOT.md"@ && name != "DECISIONS.md"@ && name
                != "DECISION.md"@
        }) ==> document_kind(path, None) == if text::contains(path, "/ADR/"@) || text::contains(
            path,
            "/adr/"@,
        ) || text::contains(path, "/decisions/"@) {
            "decision-record"@
        } else if text::contains(path, "/docs/"@) {
            "docs"@
        } else {
            "markdown"@
        },
{
    reveal_strlit("README.md");
    reveal_strlit("README.markdown");
    reveal_strlit("AGENTS.md");
    reveal_strlit("GEMINI.md");
    reveal_strlit("COPILOT.md");
    reveal_strlit("DECISIONS.md");
    reveal_strlit("DECISION.md");
    assert("README.md"@[0] == 'R' && "README.markdown"@[0] == 'R');
    assert("AGENTS.md"@[0] == 'A' && "GEMINI.md"@[0] == 'G' && "COPILOT.md"@[0] == 'C');
    assert("DECISIONS.md"@[0] == 'D' && "DECISION.md"@[0] == 'D');
}

/// A module comment, and a comment that a keyword and a colon start, is a note of what it
/// says.
pub proof fn comments_make_notes(said: Seq<char>)
    requires
        said.len() > 0,
        !text::is_space(said[0]),
        !text::is_space(said.last()),
        said[0] != '/',
        said[0] != ':',
    ensures
        comment_note("//! "@ + said) == Some(("module-doc"@, said)),
        comment_note("// WHY: "@ + said) == Some(("why"@, said)),
{
    reveal_strlit("//! ");
    reveal_strlit("//!");
    reveal_strlit("// WHY: ");
    reveal_strlit("//");
    reveal_strlit("WHY");
    let line = "//! "@ + said;
    let rest = seq![' '] + said;
    assert(text::trim_start(line) == line);
    assert(line.subrange(0, 3) =~= "//!"@);
    assert(text::starts_with(line, "//!"@));
    assert(line.skip(3) =~= rest);
    assert(text::trim_start_char(rest, '/') == rest);
    assert(rest.skip(1) =~= said);
    assert(text::trim_start(said) == said);
    assert(text::trim_start(rest) == text::trim_start(rest.skip(1)));
    assert(text::trim_end(said) == said);
    let other = "// WHY: "@ + said;
    assert(text::trim_start(other) == other);
    if text::starts_with(other, "//!"@) {
        assert(other.subrange(0, 3)[2] == other[2]);
    }
    assert(other.subrange(0, 2) =~= "//"@);
    assert(text::starts_with(other, "//"@));
    let behind = other.skip(2);
    let comment = behind.skip(1);
    assert(behind[0] == ' ' && comment[0] == 'W');
    assert(text::trim_start(comment) == comment);
    assert(text::trim_start(behind) == text::trim_start(behind.skip(1)));
    assert(comment.subrange(0, 3) =~= "WHY"@);
    assert(text::starts_with(comment, "WHY"@));
    let after = comment.skip(3);
    assert(after =~= seq![':', ' '] + said);
    assert(after.skip(1) =~= rest);
    assert(text::trim_start_char(rest, ':') == rest);
    assert(text::trim_start_char(after, ':') == text::trim_start_char(after.skip(1), ':'));
    assert(note_with(comment, "WHY"@) == Some(said));
    assert(keywords()[0] == Keyword::Why);
}

/// These are the extensions of the files that are scanned for notes, and no other.
pub proof fn extensions_of_sources(name: Seq<char>)
    ensures
        source_extensions().contains(name) <==> {
            ||| name == "rs"@
            ||| name == "ts"@
            ||| name == "tsx"@
            ||| name == "js"@
            ||| name == "jsx"@
            ||| name == "go"@
            ||| name == "py"@
            ||| name == "java"@
            ||| name == "kt"@
            ||| name == "rb"@
            ||| name == "c"@
            ||| name == "cpp"@
            ||| name == "h"@
            ||| name == "hpp"@
            ||| name == "swift"@
            ||| name == "m"@
            ||| name == "mm"@
            ||| name == "scala"@
            ||| name == "clj"@
            ||| name == "ex"@
            ||| name == "exs"@
            ||| name == "erl"@
            ||| name == "hs"@
            ||| name == "lua"@
            ||| name == "php"@
            ||| name == "sql"@
            ||| name == "sh"@
            ||| name == "vim"@
            ||| name == "elm"@
        },
{
    let all = source_extensions();
    assert(all[0] == "rs"@);
    assert(all[1] == "ts"@);
    assert(all[2] == "tsx"@);
    assert(all[3] == "js"@);
    assert(all[4] == "jsx"@);
    assert(all[5] == "go"@);
    assert(all[6] == "py"@);
    assert(all[7] == "java"@);
    assert(all[8] == "kt"@);
    assert(all[9] == "rb"@);
    assert(all[10] == "c"@);
    assert(all[11] == "cpp"@);
    assert(all[12] == "h"@);
    assert(all[13] == "hpp"@);
    assert(all[14] == "swift"@);
    assert(all[15] == "m"@);
    assert(all[16] == "mm"@);
    assert(all[17] == "scala"@);
    assert(all[18] == "clj"@);
    assert(all[19] == "ex"@);
    assert(all[20] == "exs"@);
    assert(all[21] == "erl"@);
    assert(all[22] == "hs"@);
    assert(all[23] == "lua"@);
    assert(all[24] == "php"@);
    assert(all[25] == "sql"@);
    assert(all[26] == "sh"@);
    assert(all[27] == "vim"@);
    assert(all[28] == "elm"@);
}

/// Manifests are told by their names, documents and sources by their extensions.
pub proof fn files_have_roles(path: Seq<char>)
    ensures
        ({
            let name = files::base_name(path);
            let ext = files::extension(name);
            let manifest = name == "Cargo.toml"@ || name == "package.json"@ || name == "go.mod"@;
            &&& name == "Cargo.toml"@ ==> role_of(path) == DocRole::CargoManifest
            &&& name == "package.json"@ ==> role_of(path) == DocRole::NpmManifest
            &&& name == "go.mod"@ ==> role_of(path) == DocRole::GoManifest
            &&& !manifest && (ext == "md"@ || ext == "markdown"@) ==> role_of(path)
                == DocRole::Document
            &&& !manifest && ext != "md"@ && ext != "markdown"@ ==> role_of(path) == (
            if source_extensions().contains(ext) {
                DocRole::Source
            } else {
                DocRole::Other
            })
        }),
{
    reveal_strlit("Cargo.toml");
    reveal_strlit("package.json");
    reveal_strlit("go.mod");
    assert("Cargo.toml"@.len() == 10 && "package.json"@.len() == 12 && "go.mod"@.len() == 6);
}

/// Every readable source file is scanned, after the ones before it.
pub proof fn sources_are_scanned_in_order(
    fs: Seq<FileView>,
    f: FileView,
    root: Seq<char>,
    max: int,
    rules_file: Option<Seq<char>>,
)
    ensures
        docs_of(fs.push(f), root, max, rules_file).annotations == if role_of(f.path)
            == DocRole::Source && f.read is Some {
            annotated(
                docs_of(fs, root, max, rules_file).annotations,
                text::lines(files::lossy_text(files::capped(f.read->0, max))),
                files::relative(f.path, root),
            )
        } else {
            docs_of(fs, root, max, rules_file).annotations
        },
        docs_of(Seq::<FileView>::empty(), root, max, rules_file).annotations == Seq::<
            AnnotationView,
        >::empty(),
{
    assert(fs.push(f).drop_last() =~= fs);
}

} // verus!
