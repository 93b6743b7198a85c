//! Workflow collector: CI pipelines, task scripts, conventions and package scripts.
//!
//! Files are captured whole (bounded) rather than parsed.
use crate::collectors::docs;
use crate::collectors::files;
use crate::collectors::files::{FileSource, FileView, SourceView, WalkedFile};
use crate::collectors::CollectOptions;
use crate::json;
use crate::json::{Json, JsonView};
use crate::text;
use vstd::prelude::*;

verus! {

/// Evidence for workflows, processes, and conventions.
#[derive(Clone, Debug)]
pub struct WorkflowCollection {
    pub ci_workflows: Vec<FileSource>,
    pub scripts: Vec<FileSource>,
    pub conventions: Vec<FileSource>,
    /// Commands declared under "scripts" in a package manifest.
    pub package_scripts: Vec<PackageScript>,
}

impl WorkflowCollection {
    pub fn item_count(&self) -> (r: usize)
        ensures
            r == text::tallied(
                self.ci_workflows@.len() + self.scripts@.len() + self.conventions@.len()
                    + self.package_scripts@.len(),
            ),
    {
        text::tally(
            text::tally(
                text::tally(self.ci_workflows.len(), self.scripts.len()),
                self.conventions.len(),
            ),
            self.package_scripts.len(),
        )
    }
}

#[derive(Clone, Debug)]
pub struct PackageScript {
    pub manifest: String,
    pub name: String,
    pub command: String,
}

/// A package script as a mathematical value.
pub struct ScriptView {
    pub manifest: Seq<char>,
    pub name: Seq<char>,
    pub command: Seq<char>,
}

impl View for PackageScript {
    type V = ScriptView;

    open spec fn view(&self) -> ScriptView {
        ScriptView { manifest: self.manifest@, name: self.name@, command: self.command@ }
    }
}

pub open spec fn script_views(v: Seq<PackageScript>) -> Seq<ScriptView> {
    Seq::new(v.len(), |i: int| v[i]@)
}

/// What a captured file is evidence of.
#[derive(Clone, Copy, Debug, PartialEq, Eq, Structural)]
pub enum Category {
    Ci,
    Script,
    Convention,
}

/// The most files that are captured of one category.
pub const MAX_PER_BUCKET: usize = 25;

// ---------------------------------------------------------------------------
// Classification
// ---------------------------------------------------------------------------

/// The file describes a CI pipeline. All three texts are in lower case.
pub open spec fn is_ci(path: Seq<char>, name: Seq<char>, ext: Seq<char>) -> bool {
    ||| text::contains(path, ".github/workflows/"@) && (ext == "yml"@ || ext == "yaml"@)
    ||| name == ".gitlab-ci.yml"@
    ||| name == "azure-pipelines.yml"@
    ||| name == "jenkinsfile"@
    ||| name == ".travis.yml"@
    ||| name == "bitbucket-pipelines.yml"@
    ||| text::contains(path, "/.circleci/"@)
    ||| text::contains(path, "/.buildkite/"@)
}

/// The extensions of script files.
pub open spec fn script_extensions() -> Seq<Seq<char>> {
    seq!["sh"@, "bash"@, "zsh"@, "ps1"@, "py"@, "rb"@, "js"@, "ts"@]
}

/// The names of task files.
pub open spec fn task_names() -> Seq<Seq<char>> {
    seq![
        "makefile"@, "gnu makefile"@, "justfile"@, "taskfile.yml"@, "taskfile.yaml"@, "rakefile"@,
        "cargo-make.toml"@, "pyproject.toml"@, "setup.py"@, "tox.ini"@,
    ]
}

/// The file holds tasks. All three texts are in lower case.
pub open spec fn is_script(path: Seq<char>, name: Seq<char>, ext: Seq<char>) -> bool {
    ||| task_names().contains(name)
    ||| (text::contains(path, "/scripts/"@) || text::starts_with(path, "scripts/"@))
        && script_extensions().contains(ext)
}

/// The names of files that state conventions.
pub open spec fn convention_names() -> Seq<Seq<char>> {
    seq![
        "contributing.md"@, "code_of_conduct.md"@, ".editorconfig"@, ".gitattributes"@,
        "commit-convention.md"@, "commit_convention.md"@, "rustfmt.toml"@, "clippy.toml"@,
        "rust-toolchain.toml"@, "rust-toolchain"@, ".rubocop.yml"@, "biome.json"@, "deno.json"@,
        ".flake8"@, "pylintrc"@, ".pylintrc"@,
    ]
}

/// The file states conventions. The name is in lower case.
pub open spec fn is_convention(name: Seq<char>) -> bool {
    ||| convention_names().contains(name)
    ||| text::starts_with(name, ".eslintrc"@)
    ||| text::starts_with(name, ".prettierrc"@)
    ||| text::starts_with(name, ".markdownlint"@)
}

/// The category of a file; pipelines first, then tasks, then conventions.
pub open spec fn category_of(path: Seq<char>, name: Seq<char>, ext: Seq<char>) -> Option<Category> {
    if is_ci(path, name, ext) {
        Some(Category::Ci)
    } else if is_script(path, name, ext) {
        Some(Category::Script)
    } else if is_convention(name) {
        Some(Category::Convention)
    } else {
        None
    }
}

/// Classify a file whose path, name and extension are in lower case already.
pub fn classify_lowered(path: &str, name: &str, ext: &str) -> (r: Option<Category>)
    ensures
        r == category_of(path@, name@, ext@),
{
    if (text::has_substring(path, ".github/workflows/") && (text::same(ext, "yml") || text::same(
        ext,
        "yaml",
    ))) || text::same(name, ".gitlab-ci.yml") || text::same(name, "azure-pipelines.yml")
        || text::same(name, "jenkinsfile") || text::same(name, ".travis.yml") || text::same(
        name,
        "bitbucket-pipelines.yml",
    ) || text::has_substring(path, "/.circleci/") || text::has_substring(path, "/.buildkite/") {
        return Some(Category::Ci);
    }
    let tasks = vec![
        "makefile", "gnu makefile", "justfile", "taskfile.yml", "taskfile.yaml", "rakefile",
        "cargo-make.toml", "pyproject.toml", "setup.py", "tox.ini",
    ];
    let exts = vec!["sh", "bash", "zsh", "ps1", "py", "rb", "js", "ts"];
    if text::one_of(name, &tasks, Ghost(task_names())) || ((text::has_substring(path, "/scripts/")
        || text::has_prefix(path, "scripts/")) && text::one_of(
        ext,
        &exts,
        Ghost(script_extensions()),
    )) {
        return Some(Category::Script);
    }
    let conventions = vec![
        "contributing.md", "code_of_conduct.md", ".editorconfig", ".gitattributes",
        "commit-convention.md", "commit_convention.md", "rustfmt.toml", "clippy.toml",
        "rust-toolchain.toml", "rust-toolchain", ".rubocop.yml", "biome.json", "deno.json",
        ".flake8", "pylintrc", ".pylintrc",
    ];
    if text::one_of(name, &conventions, Ghost(convention_names())) || text::has_prefix(
        name,
        ".eslintrc",
    ) || text::has_prefix(name, ".prettierrc") || text::has_prefix(name, ".markdownlint") {
        return Some(Category::Convention);
    }
    None
}

/// Classify a file by its path and by its name in lower case.
pub fn classify(path: &str, name_lower: &str) -> (r: Option<Category>)
    ensures
        r == category_of(
            text::lowercase(path@),
            name_lower@,
            text::lowercase(files::extension(files::base_name(path@))),
        ),
        text::is_ascii(path@) ==> r == category_of(
            text::ascii_lowered(path@),
            name_lower@,
            text::ascii_lowered(files::extension(files::base_name(path@))),
        ),
{
    let ext = files::file_extension(files::file_name(path).as_str());
    proof {
        if text::is_ascii(path@) {
            files::names_keep_ascii(path@);
        }
    }
    classify_lowered(
        text::to_lowercase(path).as_str(),
        name_lower,
        text::to_lowercase(ext.as_str()).as_str(),
    )
}

/// What a file is to this collector.
#[derive(Clone, Copy, Debug, PartialEq, Eq, Structural)]
pub enum WorkflowRole {
    Package,
    Captured(Category),
    Other,
}

/// The role of a file, by its path, name and extension in lower case.
pub open spec fn role_in(path: Seq<char>, name: Seq<char>, ext: Seq<char>) -> WorkflowRole {
    if name == "package.json"@ {
        WorkflowRole::Package
    } else {
        match category_of(path, name, ext) {
            Some(c) => WorkflowRole::Captured(c),
            None => WorkflowRole::Other,
        }
    }
}

pub open spec fn role_of(path: Seq<char>) -> WorkflowRole {
    let name = files::base_name(path);
    role_in(text::lowercase(path), text::lowercase(name), text::lowercase(files::extension(name)))
}

/// The role of a file. Package manifests are to be read whole, captured files up to
/// one byte beyond the cap, other files not at all.
pub fn workflow_role(path: &str) -> (r: WorkflowRole)
    ensures
        r == role_of(path@),
        text::is_ascii(path@) ==> r == role_in(
            text::ascii_lowered(path@),
            text::ascii_lowered(files::base_name(path@)),
            text::ascii_lowered(files::extension(files::base_name(path@))),
        ),
{
    proof {
        if text::is_ascii(path@) {
            files::names_keep_ascii(path@);
        }
    }
    let file_name = files::file_name(path);
    let name = text::to_lowercase(file_name.as_str());
    let ext = files::file_extension(file_name.as_str());
    let path_lower = text::to_lowercase(path);
    let ext_lower = text::to_lowercase(ext.as_str());
    if text::same(name.as_str(), "package.json") {
        return WorkflowRole::Package;
    }
    match classify_lowered(path_lower.as_str(), name.as_str(), ext_lower.as_str()) {
        Some(c) => WorkflowRole::Captured(c),
        None => WorkflowRole::Other,
    }
}

// ---------------------------------------------------------------------------
// Package scripts
// ---------------------------------------------------------------------------

/// Names with commands, as scripts of a manifest.
pub open spec fn named_scripts(
    entries: Seq<(Seq<char>, Seq<char>)>,
    manifest: Seq<char>,
) -> Seq<ScriptView> {
    Seq::new(
        entries.len(),
        |i: int| ScriptView { manifest, name: entries[i].0, command: entries[i].1 },
    )
}

/// The scripts of a package manifest; none where it could not be parsed.
pub open spec fn scripts_of(
    doc: Result<JsonView, Seq<char>>,
    manifest: Seq<char>,
) -> Seq<ScriptView> {
    match doc {
        Ok(d) => named_scripts(docs::npm_section(d, "scripts"@), manifest),
        Err(_) => Seq::empty(),
    }
}

/// The scripts of a parsed package manifest.
pub fn package_scripts(doc: Result<Json, String>, manifest: &str) -> (r: Vec<PackageScript>)
    ensures
        script_views(r@) == scripts_of(json::read_view(doc), manifest@),
{
    let mut r: Vec<PackageScript> = Vec::new();
    match &doc {
        Ok(d) => {
            let entries = docs::section_entries(d, "scripts");
            let ghost all = named_scripts(docs::dependency_views(entries@), manifest@);
            let mut i: usize = 0;
            assert(script_views(r@) =~= all.take(0));
            while i < entries.len()
                invariant
                    i <= entries@.len(),
                    all == named_scripts(docs::dependency_views(entries@), manifest@),
                    script_views(r@) == all.take(i as int),
                decreases entries@.len() - i,
            {
                let ghost before = script_views(r@);
                r.push(
                    PackageScript {
                        manifest: manifest.to_owned(),
                        name: entries[i].name.clone(),
                        command: entries[i].version.clone(),
                    },
                );
                assert(script_views(r@) =~= before.push(all[i as int]));
                i = i + 1;
                assert(all.take(i as int) =~= all.take(i - 1).push(all[i - 1]));
            }
            assert(all.take(i as int) =~= all);
        },
        Err(_) => {
            assert(script_views(r@) =~= Seq::empty());
        },
    }
    r
}

/// Parse the scripts of a package manifest. One that is not JSON has none.
pub fn parse_package_scripts(source: &str, manifest: &str) -> (r: Vec<PackageScript>)
    ensures
        script_views(r@) == scripts_of(json::json_read(source@), manifest@),
{
    package_scripts(Json::parse(source), manifest)
}

// ---------------------------------------------------------------------------
// Collection
// ---------------------------------------------------------------------------

/// What has been collected so far.
pub struct WorkflowView {
    pub ci_workflows: Seq<SourceView>,
    pub scripts: Seq<SourceView>,
    pub conventions: Seq<SourceView>,
    pub package_scripts: Seq<ScriptView>,
}

impl View for WorkflowCollection {
    type V = WorkflowView;

    open spec fn view(&self) -> WorkflowView {
        WorkflowView {
            ci_workflows: files::source_views(self.ci_workflows@),
            scripts: files::source_views(self.scripts@),
            conventions: files::source_views(self.conventions@),
            package_scripts: script_views(self.package_scripts@),
        }
    }
}

pub open spec fn no_workflow() -> WorkflowView {
    WorkflowView {
        ci_workflows: Seq::empty(),
        scripts: Seq::empty(),
        conventions: Seq::empty(),
        package_scripts: Seq::empty(),
    }
}

/// A bucket with one more file, unless it is full.
pub open spec fn dropped_in(bucket: Seq<SourceView>, f: SourceView) -> Seq<SourceView> {
    if bucket.len() < MAX_PER_BUCKET {
        bucket.push(f)
    } else {
        bucket
    }
}

/// One more file with a role. A file that was not read leaves everything as it is.
pub open spec fn workflow_step(
    s: WorkflowView,
    role: WorkflowRole,
    f: FileView,
    root: Seq<char>,
    max: int,
) -> WorkflowView {
    match (role, f.read) {
        (WorkflowRole::Package, Some(_)) => match files::text_read(f) {
            Some(source) => WorkflowView {
                ci_workflows: s.ci_workflows,
                scripts: s.scripts,
                conventions: s.conventions,
                package_scripts: s.package_scripts + scripts_of(
                    json::json_read(source),
                    files::relative(f.path, root),
                ),
            },
            None => s,
        },
        (WorkflowRole::Captured(c), Some(raw)) => {
            let source = files::captured(f.path, root, raw, max);
            WorkflowView {
                ci_workflows: if c == Category::Ci {
                    dropped_in(s.ci_workflows, source)
                } else {
                    s.ci_workflows
                },
                scripts: if c == Category::Script {
                    dropped_in(s.scripts, source)
                } else {
                    s.scripts
                },
                conventions: if c == Category::Convention {
                    dropped_in(s.conventions, source)
                } else {
                    s.conventions
                },
                package_scripts: s.package_scripts,
            }
        },
        _ => s,
    }
}

/// What a list of files yields.
pub open spec fn workflow_of(fs: Seq<FileView>, root: Seq<char>, max: int) -> WorkflowView
    decreases fs.len(),
{
    if fs.len() == 0 {
        no_workflow()
    } else {
        workflow_step(
            workflow_of(fs.drop_last(), root, max),
            role_of(fs.last().path),
            fs.last(),
            root,
            max,
        )
    }
}

/// No category holds more files than its cap.
pub proof fn workflow_stays_bounded(fs: Seq<FileView>, root: Seq<char>, max: int)
    ensures
        workflow_of(fs, root, max).ci_workflows.len() <= MAX_PER_BUCKET,
        workflow_of(fs, root, max).scripts.len() <= MAX_PER_BUCKET,
        workflow_of(fs, root, max).conventions.len() <= MAX_PER_BUCKET,
    decreases fs.len(),
{
    if fs.len() > 0 {
        workflow_stays_bounded(fs.drop_last(), root, max);
    }
}

fn drop_in(bucket: &mut Vec<FileSource>, f: FileSource)
    ensures
        files::source_views(final(bucket)@) == dropped_in(files::source_views(old(bucket)@), f@),
{
    if bucket.len() < MAX_PER_BUCKET {
        let ghost before = files::source_views(bucket@);
        let ghost seen = f@;
        bucket.push(f);
        assert(files::source_views(bucket@) =~= before.push(seen));
    }
}

impl WorkflowCollection {
    /// Nothing collected yet.
    pub fn empty() -> (r: Self)
        ensures
            r@ == no_workflow(),
    {
        let r = WorkflowCollection {
            ci_workflows: Vec::new(),
            scripts: Vec::new(),
            conventions: Vec::new(),
            package_scripts: Vec::new(),
        };
        assert(r@.ci_workflows =~= no_workflow().ci_workflows);
        assert(r@.scripts =~= no_workflow().scripts);
        assert(r@.conventions =~= no_workflow().conventions);
        assert(r@.package_scripts =~= no_workflow().package_scripts);
        r
    }

    /// Take in one more file with a role.
    pub fn absorb(&mut self, role: WorkflowRole, f: WalkedFile, repo_path: &str, max_bytes: usize)
        ensures
            final(self)@ == workflow_step(old(self)@, role, f@, repo_path@, max_bytes as int),
    {
        let raw = match f.read {
            Some(raw) => raw,
            None => {
                return;
            },
        };
        match role {
            WorkflowRole::Package => {
                match files::whole_text(raw) {
                    Some(source) => {
                        let rel = files::relpath(f.path.as_str(), repo_path);
                        let mut more = parse_package_scripts(source.as_str(), rel.as_str());
                        let ghost before = script_views(self.package_scripts@);
                        let ghost added = script_views(more@);
                        self.package_scripts.append(&mut more);
                        assert(script_views(self.package_scripts@) =~= before + added);
                    },
                    None => {},
                }
            },
            WorkflowRole::Captured(c) => {
                let src = FileSource::from_path(f.path.as_str(), repo_path, raw, max_bytes);
                match c {
                    Category::Ci => drop_in(&mut self.ci_workflows, src),
                    Category::Script => drop_in(&mut self.scripts, src),
                    Category::Convention => drop_in(&mut self.conventions, src),
                }
            },
            WorkflowRole::Other => {},
        }
    }
}

/// Collect evidence of workflows from the files that were walked.
pub fn collect(repo_path: &str, walked: Vec<WalkedFile>, opts: &CollectOptions) -> (r:
    WorkflowCollection)
    ensures
        r@ == workflow_of(
            files::walked_views(walked@),
            repo_path@,
            opts.max_file_bytes as int,
        ),
{
    let ghost all = walked@;
    let ghost fs = files::walked_views(all);
    let ghost max = opts.max_file_bytes as int;
    let mut rest = walked;
    let mut r = WorkflowCollection::empty();
    let ghost mut done: int = 0;
    assert(all.skip(0) =~= all);
    assert(fs.take(0) =~= Seq::empty());
    while rest.len() > 0
        invariant
            0 <= done <= all.len(),
            fs == files::walked_views(all),
            max == opts.max_file_bytes,
            rest@ == all.skip(done),
            r@ == workflow_of(fs.take(done), repo_path@, max),
        decreases rest@.len(),
    {
        let f = rest.remove(0);
        proof {
            assert(f == all[done]);
            assert(fs.take(done + 1).drop_last() =~= fs.take(done));
            assert(fs.take(done + 1).last() == f@);
        }
        let role = workflow_role(f.path.as_str());
        r.absorb(role, f, repo_path, opts.max_file_bytes);
        proof {
            assert(rest@ =~= all.skip(done + 1));
            done = done + 1;
        }
    }
    assert(fs.take(done) =~= fs);
    r
}

/// The first files of a category, in the order in which they came, as they are captured.
pub open spec fn captured_files(
    fs: Seq<FileView>,
    c: Category,
    root: Seq<char>,
    max: int,
) -> Seq<SourceView> {
    fs.filter(
        |f: FileView| role_of(f.path) == WorkflowRole::Captured(c) && f.read is Some,
    ).map_values(|f: FileView| files::captured(f.path, root, f.read->0, max))
}

/// Each bucket holds the first readable files of its own category, in their order and up
/// to the cap.
pub proof fn buckets_hold_their_own_files(fs: Seq<FileView>, root: Seq<char>, max: int)
    ensures
        workflow_of(fs, root, max).ci_workflows == text::at_most(
            captured_files(fs, Category::Ci, root, max),
            25,
        ),
        workflow_of(fs, root, max).scripts == text::at_most(
            captured_files(fs, Category::Script, root, max),
            25,
        ),
        workflow_of(fs, root, max).conventions == text::at_most(
            captured_files(fs, Category::Convention, root, max),
            25,
        ),
    decreases fs.len(),
{
    let cap = MAX_PER_BUCKET as int;
    if fs.len() > 0 {
        let rest = fs.drop_last();
        let f = fs.last();
        buckets_hold_their_own_files(rest, root, max);
        captured_one_more(fs, Category::Ci, root, max);
        captured_one_more(fs, Category::Script, root, max);
        captured_one_more(fs, Category::Convention, root, max);
        if f.read is Some {
            let one = files::captured(f.path, root, f.read->0, max);
            text::at_most_push(captured_files(rest, Category::Ci, root, max), one, cap);
            text::at_most_push(captured_files(rest, Category::Script, root, max), one, cap);
            text::at_most_push(captured_files(rest, Category::Convention, root, max), one, cap);
        }
    } else {
        reveal(Seq::filter);
        assert(captured_files(fs, Category::Ci, root, max) =~= Seq::empty());
        assert(captured_files(fs, Category::Script, root, max) =~= Seq::empty());
        assert(captured_files(fs, Category::Convention, root, max) =~= Seq::empty());
    }
}

proof fn captured_one_more(fs: Seq<FileView>, c: Category, root: Seq<char>, max: int)
    requires
        fs.len() > 0,
    ensures
        ({
            let f = fs.last();
            captured_files(fs, c, root, max) == if role_of(f.path) == WorkflowRole::Captured(c)
                && f.read is Some {
                captured_files(fs.drop_last(), c, root, max).push(
                    files::captured(f.path, root, f.read->0, max),
                )
            } else {
                captured_files(fs.drop_last(), c, root, max)
            }
        }),
{
    reveal(Seq::filter);
    let f = fs.last();
    let shown = |f: FileView| role_of(f.path) == WorkflowRole::Captured(c) && f.read is Some;
    let capture = |f: FileView| files::captured(f.path, root, f.read->0, max);
    assert(fs.drop_last().filter(shown).push(f).map_values(capture) =~= fs.drop_last().filter(
        shown,
    ).map_values(capture).push(capture(f)));
}

/// The scripts of a package manifest are its entries under `scripts`, each under its own
/// name with its own command, and the scripts of further manifests follow.
pub proof fn scripts_are_listed_by_name(
    fs: Seq<FileView>,
    f: FileView,
    root: Seq<char>,
    max: int,
    doc: JsonView,
    manifest: Seq<char>,
    fields: Seq<(Seq<char>, JsonView)>,
)
    requires
        json::member(doc, "scripts"@) == Some(JsonView::Object(fields)),
    ensures
        scripts_of(Ok(doc), manifest).len() == fields.len(),
        forall|i: int|
            0 <= i < fields.len() ==> (#[trigger] scripts_of(Ok(doc), manifest)[i]).name
                == fields[i].0 && scripts_of(Ok(doc), manifest)[i].manifest == manifest && (
            fields[i].1 matches JsonView::Str(s) ==> scripts_of(Ok(doc), manifest)[i].command == s),
        role_of(f.path) == WorkflowRole::Package && files::text_read(f) is Some && f.read is Some
            ==> workflow_of(fs.push(f), root, max).package_scripts == workflow_of(
            fs,
            root,
            max,
        ).package_scripts + scripts_of(
            json::json_read(files::text_read(f)->0),
            files::relative(f.path, root),
        ),
{
    assert(fs.push(f).drop_last() =~= fs);
}

/// These are the extensions of scripts, and no other.
pub proof fn extensions_of_scripts(name: Seq<char>)
    ensures
        script_extensions().contains(name) <==> {
            ||| name == "sh"@
            ||| name == "bash"@
            ||| name == "zsh"@
            ||| name == "ps1"@
            ||| name == "py"@
            ||| name == "rb"@
            ||| name == "js"@
            ||| name == "ts"@
        },
{
    let all = script_extensions();
    assert(all[0] == "sh"@);
    assert(all[1] == "bash"@);
    assert(all[2] == "zsh"@);
    assert(all[3] == "ps1"@);
    assert(all[4] == "py"@);
    assert(all[5] == "rb"@);
    assert(all[6] == "js"@);
    assert(all[7] == "ts"@);
}

/// These are the names of task files, and no other.
pub proof fn names_of_task_files(name: Seq<char>)
    ensures
        task_names().contains(name) <==> {
            ||| name == "makefile"@
            ||| name == "gnu makefile"@
            ||| name == "justfile"@
            ||| name == "taskfile.yml"@
            ||| name == "taskfile.yaml"@
            ||| name == "rakefile"@
            ||| name == "cargo-make.toml"@
            ||| name == "pyproject.toml"@
            ||| name == "setup.py"@
            ||| name == "tox.ini"@
        },
{
    let all = task_names();
    assert(all[0] == "makefile"@);
    assert(all[1] == "gnu makefile"@);
    assert(all[2] == "justfile"@);
    assert(all[3] == "taskfile.yml"@);
    assert(all[4] == "taskfile.yaml"@);
    assert(all[5] == "rakefile"@);
    assert(all[6] == "cargo-make.toml"@);
    assert(all[7] == "pyproject.toml"@);
    assert(all[8] == "setup.py"@);
    assert(all[9] == "tox.ini"@);
}

/// These are the names of files that state conventions, and no other.
pub proof fn names_of_conventions(name: Seq<char>)
    ensures
        convention_names().contains(name) <==> {
            ||| name == "contributing.md"@
            ||| name == "code_of_conduct.md"@
            ||| name == ".editorconfig"@
            ||| name == ".gitattributes"@
            ||| name == "commit-convention.md"@
            ||| name == "commit_convention.md"@
            ||| name == "rustfmt.toml"@
            ||| name == "clippy.toml"@
            ||| name == "rust-toolchain.toml"@
            ||| name == "rust-toolchain"@
            ||| name == ".rubocop.yml"@
            ||| name == "biome.json"@
            ||| name == "deno.json"@
            ||| name == ".flake8"@
            ||| name == "pylintrc"@
            ||| name == ".pylintrc"@
        },
{
    let all = convention_names();
    assert(all[0] == "contributing.md"@);
    assert(all[1] == "code_of_conduct.md"@);
    assert(all[2] == ".editorconfig"@);
    assert(all[3] == ".gitattributes"@);
    assert(all[4] == "commit-convention.md"@);
    assert(all[5] == "commit_convention.md"@);
    assert(all[6] == "rustfmt.toml"@);
    assert(all[7] == "clippy.toml"@);
    assert(all[8] == "rust-toolchain.toml"@);
    assert(all[9] == "rust-toolchain"@);
    assert(all[10] == ".rubocop.yml"@);
    assert(all[11] == "biome.json"@);
    assert(all[12] == "deno.json"@);
    assert(all[13] == ".flake8"@);
    assert(all[14] == "pylintrc"@);
    assert(all[15] == ".pylintrc"@);
}

/// A file is a pipeline before it is a task, and a task before it is a convention; what is
/// none of them is not captured.
pub proof fn categories_come_in_order(path: Seq<char>, name: Seq<char>, ext: Seq<char>)
    ensures
        category_of(path, name, ext) == Some(Category::Ci) <==> {
            ||| text::contains(path, ".github/workflows/"@) && (ext == "yml"@ || ext == "yaml"@)
            ||| name == ".gitlab-ci.yml"@ || name == "azure-pipelines.yml"@
            ||| name == "jenkinsfile"@ || name == ".travis.yml"@
            ||| name == "bitbucket-pipelines.yml"@
            ||| text::contains(path, "/.circleci/"@) || text::contains(path, "/.buildkite/"@)
        },
        category_of(path, name, ext) != Some(Category::Ci) ==> (category_of(path, name, ext)
            == Some(Category::Script) <==> task_names().contains(name) || ((text::contains(
            path,
            "/scripts/"@,
        ) || text::starts_with(path, "scripts/"@)) && script_extensions().contains(ext))),
        category_of(path, name, ext) != Some(Category::Ci) && category_of(path, name, ext) != Some(
            Category::Script,
        ) ==> (category_of(path, name, ext) == Some(Category::Convention)
            <==> convention_names().contains(name) || text::starts_with(name, ".eslintrc"@)
            || text::starts_with(name, ".prettierrc"@) || text::starts_with(
            name,
            ".markdownlint"@,
        )),
{
}

} // verus!
