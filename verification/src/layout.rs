//! Where regret keeps its files for a repository: a root under the home
//! directory (`~/.cmdrvl`), repo-scoped directories named by a repo id, and
//! the one-time move of the repo-local `.regret/` files there, recorded in
//! JSON lines.

use vstd::prelude::*;
use vstd::utf8::encode_utf8;
use crate::fileset::{blake3_digest, blake3_hash};
use crate::patch_id::{hex_chars, hex_string};
use crate::text::{chars_of, trim_chars, trim_range};

verus! {

// ---------------------------------------------------------------------------
// The root directory
// ---------------------------------------------------------------------------

/// The value of an environment variable.
pub enum EnvValue {
    /// Not set.
    Unset,
    /// Set to valid UTF-8 text.
    Text(String),
    /// Set to a value that is not UTF-8 (never empty).
    Opaque,
}

/// A variable counts when it is set, not empty, and, when it is text, not
/// only whitespace.
pub open spec fn env_usable_spec(v: EnvValue) -> bool {
    match v {
        EnvValue::Unset => false,
        EnvValue::Text(t) => trim_chars(t@).len() > 0,
        EnvValue::Opaque => true,
    }
}

/// Whether an environment variable counts.
pub fn non_empty_env(v: &EnvValue) -> (r: bool)
    ensures
        r == env_usable_spec(*v),
{
    match v {
        EnvValue::Unset => false,
        EnvValue::Text(t) => {
            let cs = chars_of(t.as_str());
            let trimmed = trim_range(&cs, 0, cs.len());
            assert(cs@.subrange(0, cs@.len() as int) == t@);
            !trimmed.as_str().is_empty()
        },
        EnvValue::Opaque => true,
    }
}

/// Where the root directory comes from.
#[derive(Debug, Clone, Copy, PartialEq, Eq, Structural)]
pub enum RootSource {
    /// `$HOME/.cmdrvl`.
    Home,
    /// `%USERPROFILE%/.cmdrvl`.
    UserProfile,
    /// `.cmdrvl` in the working directory.
    WorkingDir,
}

/// The root is under `HOME` when it counts, else under `USERPROFILE` when it
/// counts, else in the working directory.
pub fn cmdrvl_root_from_env(home: &EnvValue, user_profile: &EnvValue) -> (r: RootSource)
    ensures
        env_usable_spec(*home) ==> r == RootSource::Home,
        !env_usable_spec(*home) && env_usable_spec(*user_profile) ==> r == RootSource::UserProfile,
        !env_usable_spec(*home) && !env_usable_spec(*user_profile) ==> r == RootSource::WorkingDir,
{
    if non_empty_env(home) {
        RootSource::Home
    } else if non_empty_env(user_profile) {
        RootSource::UserProfile
    } else {
        RootSource::WorkingDir
    }
}

// ---------------------------------------------------------------------------
// Repo id and the git common directory
// ---------------------------------------------------------------------------

/// The repo id of a git common directory: the BLAKE3 digest of its path's
/// text, in hexadecimal (64 digits).
pub open spec fn repo_id_of(common_dir: Seq<char>) -> Seq<char> {
    hex_chars(blake3_digest(encode_utf8(common_dir)))
}

/// Compute the repo id from the canonical path of the git common directory.
pub fn compute_repo_id(common_dir: &str) -> (r: String)
    ensures
        r@ == repo_id_of(common_dir@),
{
    let digest = blake3_hash(common_dir.as_bytes());
    hex_string(&digest)
}

/// Which directory is the git common directory.
#[derive(Debug, Clone, PartialEq, Eq)]
pub enum CommonDir {
    /// The git directory itself.
    GitDir,
    /// The absolute path that the `commondir` file names.
    Absolute(String),
    /// The path that the `commondir` file names, relative to the git directory.
    Relative(String),
}

/// What the `commondir` file of a git directory (when it could be read)
/// makes the common directory: its trimmed text, absolute when it starts
/// with `/`; the git directory when the file is missing or blank.
pub open spec fn common_dir_of(contents: Option<Seq<char>>) -> Option<(bool, Seq<char>)> {
    match contents {
        None => None,
        Some(c) => {
            let t = trim_chars(c);
            if t.len() == 0 {
                None
            } else {
                Some((t[0] == '/', t))
            }
        },
    }
}

/// The text of a common-directory choice, `None` for the git directory.
pub open spec fn common_dir_view(d: CommonDir) -> Option<(bool, Seq<char>)> {
    match d {
        CommonDir::GitDir => None,
        CommonDir::Absolute(p) => Some((true, p@)),
        CommonDir::Relative(p) => Some((false, p@)),
    }
}

/// Resolve the git common directory from the contents of `commondir`.
pub fn resolve_common_dir(contents: Option<&str>) -> (r: CommonDir)
    ensures
        common_dir_view(r) == common_dir_of(
            match contents {
                Some(c) => Some(c@),
                None => None,
            },
        ),
{
    match contents {
        None => CommonDir::GitDir,
        Some(c) => {
            let cs = chars_of(c);
            let t = trim_range(&cs, 0, cs.len());
            assert(cs@.subrange(0, cs@.len() as int) == c@);
            let tc = chars_of(t.as_str());
            if tc.len() == 0 {
                CommonDir::GitDir
            } else if tc[0] == '/' {
                CommonDir::Absolute(t)
            } else {
                CommonDir::Relative(t)
            }
        },
    }
}

// ---------------------------------------------------------------------------
// The layout of a repository's files
// ---------------------------------------------------------------------------

/// The path components of each file and directory of a repository, from the
/// root directory.
pub struct RepoLayout {
    pub config_file: Vec<String>,
    pub cache_dir: Vec<String>,
    pub state_dir: Vec<String>,
    pub lock_file: Vec<String>,
    pub commit_template: Vec<String>,
    pub adoption_doc: Vec<String>,
    pub agent_snippets_dir: Vec<String>,
    pub ci_dir: Vec<String>,
    pub hooks_dir: Vec<String>,
    pub commit_msg_hook: Vec<String>,
    pub migration_log: Vec<String>,
    pub deprecation_notices: Vec<String>,
}

/// The texts of a list of path components.
pub open spec fn texts(v: Seq<String>) -> Seq<Seq<char>> {
    v.map_values(|s: String| s@)
}

/// The repo-scoped directory of a kind (`config`, `cache`, `state`, `locks`).
pub open spec fn scoped(kind: Seq<char>, repo_id: Seq<char>) -> Seq<Seq<char>> {
    seq![kind, "regret"@, "repos"@, repo_id]
}

/// Whether a layout is that of a repo id.
pub open spec fn layout_of(l: RepoLayout, id: Seq<char>) -> bool {
    let state = scoped("state"@, id);
    &&& texts(l.config_file@) == scoped("config"@, id).push("config.toml"@)
    &&& texts(l.cache_dir@) == scoped("cache"@, id)
    &&& texts(l.state_dir@) == state
    &&& texts(l.lock_file@) == scoped("locks"@, id).push("scan.lock"@)
    &&& texts(l.commit_template@) == state.push("commit-template.txt"@)
    &&& texts(l.adoption_doc@) == state.push("ADOPTION.md"@)
    &&& texts(l.agent_snippets_dir@) == state.push("agent-snippets"@)
    &&& texts(l.ci_dir@) == state.push("ci"@)
    &&& texts(l.hooks_dir@) == state.push("hooks"@)
    &&& texts(l.commit_msg_hook@) == state.push("hooks"@).push("commit-msg"@)
    &&& texts(l.migration_log@) == seq!["migrations"@, "applied.jsonl"@]
    &&& texts(l.deprecation_notices@) == seq!["notices"@, "deprecated-paths.jsonl"@]
}

fn scoped_dir(kind: &str, repo_id: &str) -> (r: Vec<String>)
    ensures
        texts(r@) == scoped(kind@, repo_id@),
{
    let mut v: Vec<String> = Vec::new();
    v.push(kind.to_string());
    v.push("regret".to_string());
    v.push("repos".to_string());
    v.push(repo_id.to_string());
    assert(texts(v@) =~= scoped(kind@, repo_id@));
    v
}

fn scoped_file(kind: &str, repo_id: &str, name: &str) -> (r: Vec<String>)
    ensures
        texts(r@) == scoped(kind@, repo_id@).push(name@),
{
    let mut v = scoped_dir(kind, repo_id);
    v.push(name.to_string());
    assert(texts(v@) =~= scoped(kind@, repo_id@).push(name@));
    v
}

fn pair(a: &str, b: &str) -> (r: Vec<String>)
    ensures
        texts(r@) == seq![a@, b@],
{
    let mut v: Vec<String> = Vec::new();
    v.push(a.to_string());
    v.push(b.to_string());
    assert(texts(v@) =~= seq![a@, b@]);
    v
}

/// The files and directories of a repository under the root directory.
pub fn resolve_for_repo(repo_id: &str) -> (r: RepoLayout)
    ensures
        layout_of(r, repo_id@),
{
    let mut hook = scoped_file("state", repo_id, "hooks");
    hook.push("commit-msg".to_string());
    assert(texts(hook@) =~= scoped("state"@, repo_id@).push("hooks"@).push("commit-msg"@));
    RepoLayout {
        config_file: scoped_file("config", repo_id, "config.toml"),
        cache_dir: scoped_dir("cache", repo_id),
        state_dir: scoped_dir("state", repo_id),
        lock_file: scoped_file("locks", repo_id, "scan.lock"),
        commit_template: scoped_file("state", repo_id, "commit-template.txt"),
        adoption_doc: scoped_file("state", repo_id, "ADOPTION.md"),
        agent_snippets_dir: scoped_file("state", repo_id, "agent-snippets"),
        ci_dir: scoped_file("state", repo_id, "ci"),
        hooks_dir: scoped_file("state", repo_id, "hooks"),
        commit_msg_hook: hook,
        migration_log: pair("migrations", "applied.jsonl"),
        deprecation_notices: pair("notices", "deprecated-paths.jsonl"),
    }
}

// ---------------------------------------------------------------------------
// Moving the repo-local files
// ---------------------------------------------------------------------------

/// Where a legacy item goes.
#[derive(Debug, Clone, Copy, PartialEq, Eq, Structural)]
pub enum LegacyTarget {
    ConfigFile,
    /// A file of the cache directory, by its name.
    CacheDb,
    CacheDbWal,
    CacheDbShm,
    CommitTemplate,
    AdoptionDoc,
    AgentSnippetsDir,
    CiDir,
    HooksDir,
}

/// An item of the repo-local `.regret/` directory and where it goes.
pub struct LegacyItem {
    pub path_class: String,
    /// Its name under `.regret/`.
    pub legacy_name: String,
    pub target: LegacyTarget,
    /// A directory, copied with its contents; else a file.
    pub is_dir: bool,
}

/// The items of `.regret/` that are moved, in order: class, name, target,
/// and whether it is a directory.
pub open spec fn legacy_table() -> Seq<(Seq<char>, Seq<char>, LegacyTarget, bool)> {
    seq![
        ("regret_config"@, "config.toml"@, LegacyTarget::ConfigFile, false),
        ("regret_cache_db"@, "cache.db"@, LegacyTarget::CacheDb, false),
        ("regret_cache_db_wal"@, "cache.db-wal"@, LegacyTarget::CacheDbWal, false),
        ("regret_cache_db_shm"@, "cache.db-shm"@, LegacyTarget::CacheDbShm, false),
        ("regret_commit_template"@, "commit-template.txt"@, LegacyTarget::CommitTemplate, false),
        ("regret_adoption_doc"@, "ADOPTION.md"@, LegacyTarget::AdoptionDoc, false),
        ("regret_agent_snippets"@, "agent-snippets"@, LegacyTarget::AgentSnippetsDir, true),
        ("regret_ci"@, "ci"@, LegacyTarget::CiDir, true),
        ("regret_hooks"@, "hooks"@, LegacyTarget::HooksDir, true),
    ]
}

/// An item is the entry of the table.
pub open spec fn item_is(i: LegacyItem, e: (Seq<char>, Seq<char>, LegacyTarget, bool)) -> bool {
    i.path_class@ == e.0 && i.legacy_name@ == e.1 && i.target == e.2 && i.is_dir == e.3
}

fn item(path_class: &str, legacy_name: &str, target: LegacyTarget, is_dir: bool) -> (r: LegacyItem)
    ensures
        item_is(r, (path_class@, legacy_name@, target, is_dir)),
{
    LegacyItem {
        path_class: path_class.to_string(),
        legacy_name: legacy_name.to_string(),
        target,
        is_dir,
    }
}

/// The items of `.regret/` to move, in the order they are moved.
pub fn legacy_items() -> (r: Vec<LegacyItem>)
    ensures
        r@.len() == legacy_table().len(),
        forall|k: int| 0 <= k < r@.len() ==> item_is(#[trigger] r@[k], legacy_table()[k]),
{
    let mut v: Vec<LegacyItem> = Vec::new();
    v.push(item("regret_config", "config.toml", LegacyTarget::ConfigFile, false));
    v.push(item("regret_cache_db", "cache.db", LegacyTarget::CacheDb, false));
    v.push(item("regret_cache_db_wal", "cache.db-wal", LegacyTarget::CacheDbWal, false));
    v.push(item("regret_cache_db_shm", "cache.db-shm", LegacyTarget::CacheDbShm, false));
    v.push(item("regret_commit_template", "commit-template.txt", LegacyTarget::CommitTemplate, false));
    v.push(item("regret_adoption_doc", "ADOPTION.md", LegacyTarget::AdoptionDoc, false));
    v.push(item("regret_agent_snippets", "agent-snippets", LegacyTarget::AgentSnippetsDir, true));
    v.push(item("regret_ci", "ci", LegacyTarget::CiDir, true));
    v.push(item("regret_hooks", "hooks", LegacyTarget::HooksDir, true));
    assert forall|k: int| 0 <= k < v@.len() implies item_is(#[trigger] v@[k], legacy_table()[k]) by {
        if k == 0 {} else if k == 1 {} else if k == 2 {} else if k == 3 {} else if k == 4 {}
        else if k == 5 {} else if k == 6 {} else if k == 7 {} else {}
    }
    v
}

/// What to do with one legacy item.
#[derive(Debug, Clone, Copy, PartialEq, Eq, Structural)]
pub enum MigrationStep {
    /// There is nothing to move.
    Nothing,
    /// A symlink, or not the expected kind: leave it, with a notice.
    Unsupported,
    /// The new place already has one: keep it, with a notice.
    CanonicalPresent,
    /// Copy it to the new place, and record the move.
    Copy,
}

/// Decide what to do with a legacy item: nothing when it is absent; a notice
/// when it is a symlink or not of the expected kind (file or directory), or
/// when the new place is taken; else copy it.
pub fn migration_step(
    legacy_exists: bool,
    is_symlink: bool,
    is_expected_kind: bool,
    canonical_exists: bool,
) -> (r: MigrationStep)
    ensures
        !legacy_exists ==> r == MigrationStep::Nothing,
        legacy_exists && (is_symlink || !is_expected_kind) ==> r == MigrationStep::Unsupported,
        legacy_exists && !is_symlink && is_expected_kind && canonical_exists ==> r
            == MigrationStep::CanonicalPresent,
        legacy_exists && !is_symlink && is_expected_kind && !canonical_exists ==> r
            == MigrationStep::Copy,
{
    if !legacy_exists {
        MigrationStep::Nothing
    } else if is_symlink || !is_expected_kind {
        MigrationStep::Unsupported
    } else if canonical_exists {
        MigrationStep::CanonicalPresent
    } else {
        MigrationStep::Copy
    }
}

// ---------------------------------------------------------------------------
// Migration and deprecation records
// ---------------------------------------------------------------------------

/// A JSON line of the migration log or of the deprecation notices.
pub struct PathRecord {
    pub version: String,
    pub tool: String,
    pub path_class: String,
    pub source_path: String,
    pub destination_path: String,
    pub action: String,
    pub outcome: String,
    pub secret_values_recorded: bool,
}

/// A record with these fields.
pub open spec fn record_is(
    r: PathRecord,
    version: Seq<char>,
    path_class: Seq<char>,
    source: Seq<char>,
    destination: Seq<char>,
    action: Seq<char>,
    outcome: Seq<char>,
) -> bool {
    &&& r.version@ == version
    &&& r.tool@ == "regret"@
    &&& r.path_class@ == path_class
    &&& r.source_path@ == source
    &&& r.destination_path@ == destination
    &&& r.action@ == action
    &&& r.outcome@ == outcome
    &&& !r.secret_values_recorded
}

/// The record of a move in the migration log; its outcome is `ok`.
pub fn migration_record(path_class: &str, source: &str, destination: &str, action: &str) -> (r:
    PathRecord)
    ensures
        record_is(
            r,
            "cmdrvl.migration.v1"@,
            path_class@,
            source@,
            destination@,
            action@,
            "ok"@,
        ),
{
    PathRecord {
        version: "cmdrvl.migration.v1".to_string(),
        tool: "regret".to_string(),
        path_class: path_class.to_string(),
        source_path: source.to_string(),
        destination_path: destination.to_string(),
        action: action.to_string(),
        outcome: "ok".to_string(),
        secret_values_recorded: false,
    }
}

/// The record of a deprecated path in the notices.
pub fn deprecation_record(
    path_class: &str,
    source: &str,
    destination: &str,
    action: &str,
    outcome: &str,
) -> (r: PathRecord)
    ensures
        record_is(
            r,
            "cmdrvl.deprecated_path_notice.v1"@,
            path_class@,
            source@,
            destination@,
            action@,
            outcome@,
        ),
{
    PathRecord {
        version: "cmdrvl.deprecated_path_notice.v1".to_string(),
        tool: "regret".to_string(),
        path_class: path_class.to_string(),
        source_path: source.to_string(),
        destination_path: destination.to_string(),
        action: action.to_string(),
        outcome: outcome.to_string(),
        secret_values_recorded: false,
    }
}

/// The fields of a line already written, each when it is a string.
pub struct RecordKey {
    pub tool: Option<String>,
    pub path_class: Option<String>,
    pub source_path: Option<String>,
    pub destination_path: Option<String>,
    pub action: Option<String>,
}

/// A written line stands for a record when its tool, path class, source,
/// destination and action are those of the record.
pub open spec fn same_record(k: RecordKey, r: PathRecord) -> bool {
    &&& k.tool matches Some(t) && t@ == r.tool@
    &&& k.path_class matches Some(c) && c@ == r.path_class@
    &&& k.source_path matches Some(s) && s@ == r.source_path@
    &&& k.destination_path matches Some(d) && d@ == r.destination_path@
    &&& k.action matches Some(a) && a@ == r.action@
}

fn field_is(field: &Option<String>, value: &String) -> (r: bool)
    ensures
        r == (field matches Some(f) && f@ == value@),
{
    match field {
        Some(f) => f.eq(value),
        None => false,
    }
}

/// Whether a written line stands for the record, so that it is not written
/// again.
pub fn record_matches(existing: &RecordKey, record: &PathRecord) -> (r: bool)
    ensures
        r == same_record(*existing, *record),
{
    field_is(&existing.tool, &record.tool) && field_is(&existing.path_class, &record.path_class)
        && field_is(&existing.source_path, &record.source_path) && field_is(
        &existing.destination_path,
        &record.destination_path,
    ) && field_is(&existing.action, &record.action)
}

/// Whether any written line stands for the record.
pub fn record_already_exists(lines: &Vec<RecordKey>, record: &PathRecord) -> (r: bool)
    ensures
        r == exists|k: int| 0 <= k < lines@.len() && same_record(#[trigger] lines@[k], *record),
{
    let mut k: usize = 0;
    while k < lines.len()
        invariant
            k <= lines@.len(),
            forall|j: int| 0 <= j < k ==> !same_record(#[trigger] lines@[j], *record),
        decreases lines.len() - k,
    {
        if record_matches(&lines[k], record) {
            return true;
        }
        k = k + 1;
    }
    false
}

} // verus!
