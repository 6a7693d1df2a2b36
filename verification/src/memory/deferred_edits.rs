//! Workspace files that only become part of the prompt at a compaction: which files they are, the queue
//! of edits that wait for activation, and the snapshot that is active.
use crate::clock::{is_time_text, local_now_text};
use crate::memory::collation::ancestry::{holds_text, text_set};
use crate::text::compose::{cat2, option_text, same_text};
use crate::text::order::{is_before, text_before, text_order_total};
use crate::text::path::{join_path, path_below};
use crate::text::search::{
    contains, occurs_at, replace_absent_is_identity, replace_all, replace_text, slice_text,
    starts_with, starts_with_text,
};
use crate::text::split::{lemma_lines_append, lines, split_lines, texts};
use crate::text::chars::is_space;
use crate::text::trim::{
    lemma_strip_end_shape, strip_start, strip_start_text, trim_text, trimmed,
    CharClass,
};
use vstd::prelude::*;
use vstd::string::*;

verus! {

broadcast use vstd::string::group_string_axioms;

/// Who the character is.
pub const SOUL_FILE: &'static str = "SOUL.md";

/// Who the user is.
pub const USER_FILE: &'static str = "USER.md";

/// How the character works.
pub const AGENTS_FILE: &'static str = "AGENTS.md";

/// How tools are used.
pub const TOOLS_FILE: &'static str = "TOOLS.md";

/// What is done at a heartbeat.
pub const HEARTBEAT_FILE: &'static str = "HEARTBEAT.md";

/// The directory of the active snapshot, below that of the character.
pub const ACTIVE_PROMPT_DIR: &'static str = "active_prompt";

/// The digest of recent memory that a compaction writes.
pub const RECENT_MEMORY_DIGEST_FILE: &'static str = "RECENT_MEMORY.md";

/// The queue of edits that wait for activation.
pub const QUEUE_FILE: &'static str = "deferred_edits.jsonl";

/// The tool guidance that a new workspace begins with.
pub const DEFAULT_TOOLS_GUIDANCE: &'static str = "# TOOLS

Use tools when they materially help.

- Read files before editing them.
- Search memory files before guessing facts about the user or past events.
- Prefer concise, direct tool use over busywork.
";

/// The heartbeat guidance that a new workspace begins with.
pub const DEFAULT_HEARTBEAT_GUIDANCE: &'static str = "# HEARTBEAT

- Check whether anything from recent memory files needs follow-up.
- Check whether you promised the user anything that still matters.
- If nothing needs action, respond HEARTBEAT_OK.
";

/// The name is that of a file whose edits wait for activation.
pub open spec fn is_protected_name(name: Seq<char>) -> bool {
    ||| name == SOUL_FILE@
    ||| name == USER_FILE@
    ||| name == AGENTS_FILE@
    ||| name == TOOLS_FILE@
    ||| name == HEARTBEAT_FILE@
}

/// The text without any `./` at its start.
pub open spec fn without_dot_slash(s: Seq<char>) -> Seq<char>
    decreases s.len(),
{
    if starts_with(s, "./"@) && s.len() >= 2 {
        without_dot_slash(s.skip(2))
    } else {
        s
    }
}

/// The text without one `workspace/` at its start.
pub open spec fn without_workspace(s: Seq<char>) -> Seq<char> {
    if starts_with(s, "workspace/"@) {
        s.skip("workspace/"@.len() as int)
    } else {
        s
    }
}

/// A path as it is looked up: relative to the workspace, with forward slashes.
pub open spec fn workspace_name(path: Seq<char>) -> Seq<char> {
    let a = strip_start(strip_start(trimmed(path), CharClass::One('/')), CharClass::One('\\'));
    without_workspace(without_dot_slash(replace_all(a, "\\"@, "/"@)))
}

/// The protected file that a path stands for.
pub open spec fn protected_name(path: Seq<char>) -> Option<Seq<char>> {
    if is_protected_name(workspace_name(path)) {
        Some(workspace_name(path))
    } else {
        None
    }
}

/// The protected files.
pub fn protected_paths() -> (r: Vec<String>)
    ensures
        texts(r@) == seq![SOUL_FILE@, USER_FILE@, AGENTS_FILE@, TOOLS_FILE@, HEARTBEAT_FILE@],
{
    let r = vec![
        SOUL_FILE.to_owned(),
        USER_FILE.to_owned(),
        AGENTS_FILE.to_owned(),
        TOOLS_FILE.to_owned(),
        HEARTBEAT_FILE.to_owned(),
    ];
    assert(texts(r@) =~= seq![SOUL_FILE@, USER_FILE@, AGENTS_FILE@, TOOLS_FILE@, HEARTBEAT_FILE@]);
    r
}

/// The protected file that a path stands for.
pub fn normalize_protected_path(path: &str) -> (r: Option<String>)
    ensures
        option_text(r) == protected_name(path@),
{
    proof {
        reveal_strlit("\\");
        reveal_strlit("./");
        reveal_strlit("workspace/");
    }
    let a = strip_start_text(trim_text(path).as_str(), CharClass::One('/'));
    let b = strip_start_text(a.as_str(), CharClass::One('\\'));
    let mut s = replace_text(b.as_str(), "\\", "/");
    let ghost c = s@;
    while starts_with_text(s.as_str(), "./")
        invariant
            "./"@.len() == 2,
            without_dot_slash(s@) == without_dot_slash(c),
        decreases s@.len(),
    {
        let n: usize = s.as_str().unicode_len();
        let t = slice_text(s.as_str(), 2, n);
        assert(t@ =~= s@.skip(2));
        s = t;
    }
    if starts_with_text(s.as_str(), "workspace/") {
        let n: usize = s.as_str().unicode_len();
        let t = slice_text(s.as_str(), 10, n);
        assert(t@ =~= s@.skip(10));
        s = t;
    }
    let name = s.as_str();
    if same_text(name, SOUL_FILE) || same_text(name, USER_FILE) || same_text(name, AGENTS_FILE)
        || same_text(name, TOOLS_FILE) || same_text(name, HEARTBEAT_FILE) {
        Some(s)
    } else {
        None
    }
}

/// Whether a path stands for a protected file.
pub fn is_protected_path(path: &str) -> (r: bool)
    ensures
        r == (protected_name(path@) is Some),
{
    normalize_protected_path(path).is_some()
}

/// The directory of the active snapshot.
pub fn active_prompt_dir(character_data_dir: &str) -> (r: String)
    ensures
        r@ == path_below(character_data_dir@, ACTIVE_PROMPT_DIR@),
{
    join_path(character_data_dir, ACTIVE_PROMPT_DIR)
}

/// A file of the active snapshot.
pub fn active_prompt_file(character_data_dir: &str, name: &str) -> (r: String)
    ensures
        r@ == path_below(path_below(character_data_dir@, ACTIVE_PROMPT_DIR@), name@),
{
    join_path(active_prompt_dir(character_data_dir).as_str(), name)
}

/// The digest of recent memory.
pub fn recent_memory_digest_path(character_data_dir: &str) -> (r: String)
    ensures
        r@ == path_below(
            path_below(character_data_dir@, ACTIVE_PROMPT_DIR@),
            RECENT_MEMORY_DIGEST_FILE@,
        ),
{
    active_prompt_file(character_data_dir, RECENT_MEMORY_DIGEST_FILE)
}

/// The queue of edits that wait for activation.
pub fn queue_path(character_data_dir: &str) -> (r: String)
    ensures
        r@ == path_below(character_data_dir@, QUEUE_FILE@),
{
    join_path(character_data_dir, QUEUE_FILE)
}

/// What a file of the snapshot adds to the prompt: its text, unless it is missing or blank.
pub fn load_active_prompt_file(content: Option<String>) -> (r: Option<String>)
    ensures
        r == match content {
            Some(t) => if trimmed(t@).len() > 0 {
                Some(t)
            } else {
                None
            },
            None => None,
        },
{
    match content {
        Some(t) => if trim_text(t.as_str()).as_str().is_empty() {
            None
        } else {
            Some(t)
        },
        None => None,
    }
}

/// The text of the digest file.
pub fn recent_memory_digest(digest: &str) -> (r: String)
    ensures
        r@ == trimmed(digest@) + "\n"@,
{
    cat2(trim_text(digest).as_str(), "\n")
}

/// The string that a JSON object holds under a key; none where the text is not JSON, not an object, or
/// holds no string there.
pub uninterp spec fn json_string_field(text: Seq<char>, key: Seq<char>) -> Option<Seq<char>>;

/// `serde_json::from_str` into a `serde_json::Value`, then `Value::get` and `Value::as_str`: the result
/// depends on the text and the key alone.
#[verifier::external_body]
fn read_string_field(text: &str, key: &str) -> (r: Option<String>)
    ensures
        option_text(r) == json_string_field(text@, key@),
{
    let value: serde_json::Value = serde_json::from_str(text).ok()?;
    let field = value.get(key)?.as_str()?;
    Some(field.to_string())
}

/// `serde_json::Value::to_string` of an object with two strings: a text on one line, without white space
/// at either end, that reads back to the strings it was made of.
#[verifier::external_body]
fn write_string_fields(key: &str, value: &str, key2: &str, value2: &str) -> (r: String)
    requires
        key@ != key2@,
    ensures
        json_string_field(r@, key@) == Some(value@),
        json_string_field(r@, key2@) == Some(value2@),
        !r@.contains('\n'),
        r@.len() > 0,
        r@[0] == '{',
        r@.last() == '}',
{
    let mut map = serde_json::Map::new();
    map.insert(key.to_string(), serde_json::Value::String(value.to_string()));
    map.insert(key2.to_string(), serde_json::Value::String(value2.to_string()));
    serde_json::Value::Object(map).to_string()
}

/// The line of the queue for an edit of a file at a time.
pub fn queue_line(name: &str, timestamp: &str) -> (r: String)
    ensures
        json_string_field(r@, "path"@) == Some(name@),
        json_string_field(r@, "timestamp"@) == Some(timestamp@),
        !r@.contains('\n'),
        r@.len() > 0,
        trimmed(r@) == r@,
{
    proof {
        reveal_strlit("path");
        reveal_strlit("timestamp");
        assert("path"@.len() != "timestamp"@.len());
    }
    let r = write_string_fields("path", name, "timestamp", timestamp);
    r
}

/// What is added to the queue for an edit: a line for a protected file, nothing for any other.
pub fn queue_deferred_edit(path: &str) -> (r: Option<String>)
    ensures
        match protected_name(path@) {
            Some(name) => {
                &&& r is Some
                &&& json_string_field(r->Some_0@, "path"@) == Some(name)
                &&& exists|now: Seq<char>| #[trigger]
                    is_time_text(now) && json_string_field(r->Some_0@, "timestamp"@) == Some(now)
                &&& !r->Some_0@.contains('\n')
                &&& r->Some_0@.len() > 0
                &&& trimmed(r->Some_0@) == r->Some_0@
            },
            None => r is None,
        },
{
    match normalize_protected_path(path) {
        Some(name) => {
            let now = local_now_text();
            Some(queue_line(name.as_str(), now.as_str()))
        },
        None => None,
    }
}

/// The protected file that a line of the queue names.
pub open spec fn queued_name(line: Seq<char>) -> Option<Seq<char>> {
    let t = trimmed(line);
    if t.len() == 0 {
        None
    } else {
        match json_string_field(t, "path"@) {
            Some(p) => protected_name(p),
            None => None,
        }
    }
}

/// The protected files that the lines name.
pub open spec fn queued_names(all: Seq<Seq<char>>) -> Set<Seq<char>> {
    Set::new(
        |name: Seq<char>|
            exists|i: int| 0 <= i < all.len() && queued_name(#[trigger] all[i]) == Some(name),
    )
}

/// Each text comes before the next.
pub open spec fn strictly_sorted(s: Seq<Seq<char>>) -> bool {
    forall|i: int, j: int| 0 <= i < j < s.len() ==> text_before(#[trigger] s[i], #[trigger] s[j])
}

fn queued_path(line: &str) -> (r: Option<String>)
    ensures
        option_text(r) == queued_name(line@),
{
    let t = trim_text(line);
    if t.as_str().is_empty() {
        return None;
    }
    match read_string_field(t.as_str(), "path") {
        Some(p) => normalize_protected_path(p.as_str()),
        None => None,
    }
}

/// Puts a text into a sorted list, unless it is there.
fn insert_sorted(list: &mut Vec<String>, s: String)
    requires
        strictly_sorted(texts(old(list)@)),
    ensures
        strictly_sorted(texts(final(list)@)),
        text_set(final(list)@) == text_set(old(list)@).insert(s@),
{
    let ghost before = texts(list@);
    if holds_text(list, s.as_str()) {
        assert(text_set(list@) =~= text_set(list@).insert(s@));
        return;
    }
    let mut k: usize = 0;
    while k < list.len() && is_before(list[k].as_str(), s.as_str())
        invariant
            k <= list.len(),
            before == texts(list@),
            forall|i: int| 0 <= i < k ==> text_before(#[trigger] before[i], s@),
        decreases list.len() - k,
    {
        assert(before[k as int] == list@[k as int]@);
        k += 1;
    }
    proof {
        let after = before.insert(k as int, s@);
        assert(texts(list@.insert(k as int, s)) =~= after);
        if k < before.len() {
            assert(before[k as int] == list@[k as int]@);
            text_order_total(before[k as int], s@);
            assert(before.contains(before[k as int]));
            assert(text_before(s@, before[k as int]));
        }
        assert forall|i: int, j: int| 0 <= i < j < after.len() implies text_before(
            #[trigger] after[i],
            #[trigger] after[j],
        ) by {
            if j < k {
            } else if j == k {
                assert(after[i] == before[i]);
            } else if i < k {
                assert(after[j] == before[j - 1]);
            } else if i == k {
                assert(after[j] == before[j - 1]);
                if j - 1 > k {
                    assert(text_before(before[k as int], before[j - 1]));
                    crate::text::order::text_order_transitive(
                        s@,
                        before[k as int],
                        before[j - 1],
                    );
                }
            } else {
                assert(after[i] == before[i - 1]);
                assert(after[j] == before[j - 1]);
            }
        }
        assert forall|x: Seq<char>| after.contains(x) == (before.contains(x) || x == s@) by {
            if before.contains(x) {
                let i = choose|i: int| 0 <= i < before.len() && before[i] == x;
                if i < k {
                    assert(after[i] == x);
                } else {
                    assert(after[i + 1] == x);
                }
            }
            if after.contains(x) {
                let i = choose|i: int| 0 <= i < after.len() && after[i] == x;
                if i < k {
                    assert(before[i] == x);
                } else if i > k {
                    assert(before[i - 1] == x);
                }
            }
            assert(after[k as int] == s@);
        }
        assert(after.to_set() =~= before.to_set().insert(s@));
    }
    list.insert(k, s);
}

/// The protected files whose edits wait for activation, each once, sorted.
pub fn pending_deferred_edit_paths(queue: Option<&str>) -> (r: Vec<String>)
    ensures
        strictly_sorted(texts(r@)),
        text_set(r@) == match queue {
            Some(q) => queued_names(lines(q@)),
            None => Set::empty(),
        },
{
    let mut out: Vec<String> = Vec::new();
    let content = match queue {
        Some(q) => q,
        None => {
            assert(text_set(out@) =~= Set::<Seq<char>>::empty());
            return out;
        },
    };
    let all = split_lines(content);
    let ghost a = texts(all@);
    let mut i: usize = 0;
    proof {
        assert(text_set(out@) =~= queued_names(a.take(0)));
    }
    while i < all.len()
        invariant
            i <= all.len(),
            a == texts(all@),
            strictly_sorted(texts(out@)),
            text_set(out@) == queued_names(a.take(i as int)),
        decreases all.len() - i,
    {
        proof {
            assert(a[i as int] == all@[i as int]@);
            lemma_queued_step(a, i as int);
        }
        match queued_path(all[i].as_str()) {
            Some(p) => {
                insert_sorted(&mut out, p);
            },
            None => {},
        }
        i += 1;
    }
    proof {
        assert(a.take(i as int) =~= a);
    }
    out
}

proof fn lemma_queued_step(a: Seq<Seq<char>>, n: int)
    requires
        0 <= n < a.len(),
    ensures
        queued_names(a.take(n + 1)) == match queued_name(a[n]) {
            Some(name) => queued_names(a.take(n)).insert(name),
            None => queued_names(a.take(n)),
        },
{
    let x = a.take(n);
    let y = a.take(n + 1);
    assert forall|name: Seq<char>| #[trigger] queued_names(y).contains(name) == (queued_names(
        x,
    ).contains(name) || queued_name(a[n]) == Some(name)) by {
        if queued_names(y).contains(name) {
            let i = choose|i: int| 0 <= i < y.len() && queued_name(#[trigger] y[i]) == Some(name);
            if i < n {
                assert(x[i] == y[i]);
            }
        }
        if queued_names(x).contains(name) {
            let i = choose|i: int| 0 <= i < x.len() && queued_name(#[trigger] x[i]) == Some(name);
            assert(y[i] == x[i]);
        }
        assert(y[n] == a[n]);
    }
    match queued_name(a[n]) {
        Some(name) => {
            assert(queued_names(y) =~= queued_names(x).insert(name));
        },
        None => {
            assert(queued_names(y) =~= queued_names(x));
        },
    }
}

/// What is done to one file of the active snapshot.
#[derive(Debug, Clone, Copy, PartialEq, Eq, Structural)]
pub enum SnapshotAction {
    /// The file of the workspace takes its place.
    CopyFromWorkspace,
    /// The file is removed.
    Remove,
    /// The file stays as it is.
    Leave,
}

/// What is in a file after an action, given what is in the workspace and what was in the snapshot.
pub open spec fn after_action(
    action: SnapshotAction,
    workspace: Option<Seq<char>>,
    active: Option<Seq<char>>,
) -> Option<Seq<char>> {
    match action {
        SnapshotAction::CopyFromWorkspace => workspace,
        SnapshotAction::Remove => None,
        SnapshotAction::Leave => active,
    }
}

/// What is done with a file where the snapshot is only filled up.
pub open spec fn seeding(in_workspace: bool, in_snapshot: bool) -> SnapshotAction {
    if in_workspace && !in_snapshot {
        SnapshotAction::CopyFromWorkspace
    } else {
        SnapshotAction::Leave
    }
}

/// What is done with a file where the snapshot becomes the same as the workspace.
pub open spec fn refreshing(in_workspace: bool, in_snapshot: bool) -> SnapshotAction {
    if in_workspace {
        SnapshotAction::CopyFromWorkspace
    } else if in_snapshot {
        SnapshotAction::Remove
    } else {
        SnapshotAction::Leave
    }
}

/// What makes sure that one file of the snapshot exists: it is copied where it is missing; one that
/// exists is left alone.
pub fn ensure_active_prompt_snapshot(in_workspace: bool, in_snapshot: bool) -> (r: SnapshotAction)
    ensures
        r == seeding(in_workspace, in_snapshot),
{
    if in_workspace && !in_snapshot {
        SnapshotAction::CopyFromWorkspace
    } else {
        SnapshotAction::Leave
    }
}

/// What brings one file of the snapshot up to date.
pub fn refresh_active_prompt_snapshot(in_workspace: bool, in_snapshot: bool) -> (r: SnapshotAction)
    ensures
        r == refreshing(in_workspace, in_snapshot),
{
    if in_workspace {
        SnapshotAction::CopyFromWorkspace
    } else if in_snapshot {
        SnapshotAction::Remove
    } else {
        SnapshotAction::Leave
    }
}

/// Edits of a protected file stay deferred: making sure that the snapshot exists never changes a file
/// that is in it.
pub proof fn ensuring_keeps_active_files(workspace: Option<Seq<char>>, active: Option<Seq<char>>)
    ensures
        ({
            let after = after_action(
                seeding(workspace is Some, active is Some),
                workspace,
                active,
            );
            &&& active is Some ==> after == active
            &&& active is None ==> after == workspace
        }),
{
}

/// Refreshing makes the snapshot equal to the workspace, whatever was in it.
pub proof fn refreshing_activates_edits(workspace: Option<Seq<char>>, active: Option<Seq<char>>)
    ensures
        after_action(refreshing(workspace is Some, active is Some), workspace, active) == workspace,
{
}

/// Whether a file of the workspace is made from an older one: only where it is missing.
pub fn ensure_character_workspace(source_exists: bool, target_exists: bool) -> (r: bool)
    ensures
        r == (source_exists && !target_exists),
{
    source_exists && !target_exists
}

/// A file that is copied into a new workspace.
#[derive(Debug)]
pub struct Migration {
    /// The older file.
    pub source: String,
    /// The file of the workspace.
    pub target: String,
}

/// The older files of a character that a new workspace is made from, and what becomes of them.
pub fn workspace_migrations(char_config_dir: &str, workspace_dir: &str) -> (r: Vec<Migration>)
    ensures
        r@.len() == 3,
        r@[0].source@ == path_below(char_config_dir@, "character.md"@),
        r@[0].target@ == path_below(workspace_dir@, SOUL_FILE@),
        r@[1].source@ == path_below(char_config_dir@, "user.md"@),
        r@[1].target@ == path_below(workspace_dir@, USER_FILE@),
        r@[2].source@ == path_below(path_below(char_config_dir@, "prompts"@), "system.md"@),
        r@[2].target@ == path_below(workspace_dir@, AGENTS_FILE@),
{
    vec![
        Migration {
            source: join_path(char_config_dir, "character.md"),
            target: join_path(workspace_dir, SOUL_FILE),
        },
        Migration {
            source: join_path(char_config_dir, "user.md"),
            target: join_path(workspace_dir, USER_FILE),
        },
        Migration {
            source: join_path(join_path(char_config_dir, "prompts").as_str(), "system.md"),
            target: join_path(workspace_dir, AGENTS_FILE),
        },
    ]
}

/// A name without slashes and white space.
pub open spec fn is_plain_name(name: Seq<char>) -> bool {
    name.len() > 0 && forall|i: int|
        0 <= i < name.len() ==> (#[trigger] name[i]) != '/' && name[i] != '\\' && !is_space(name[i])
}

proof fn lemma_plain_name(name: Seq<char>)
    requires
        is_plain_name(name),
    ensures
        workspace_name(name) == name,
{
    reveal_strlit("\\");
    reveal_strlit("./");
    reveal_strlit("workspace/");
    assert(name[0] != '/');
    assert(!is_space(name[0]));
    assert(!is_space(name[name.len() - 1]));
    assert(trimmed(name) == name);
    if contains(name, "\\"@) {
        let i = choose|i: int| #[trigger] occurs_at(name, "\\"@, i);
        assert(name.subrange(i, i + 1)[0] == name[i]);
    }
    replace_absent_is_identity(name, "\\"@, "/"@);
    if starts_with(name, "./"@) {
        assert(name.subrange(0, 2)[1] == name[1]);
    }
    if starts_with(name, "workspace/"@) {
        assert(name.subrange(0, 10)[9] == name[9]);
    }
}

proof fn lemma_protected_names_are_plain(name: Seq<char>)
    requires
        is_protected_name(name),
    ensures
        is_plain_name(name),
{
    reveal_strlit("SOUL.md");
    reveal_strlit("USER.md");
    reveal_strlit("AGENTS.md");
    reveal_strlit("TOOLS.md");
    reveal_strlit("HEARTBEAT.md");
}

/// A protected file's own name stands for it, so normalising a path twice is normalising it once.
pub proof fn normalising_is_idempotent(path: Seq<char>)
    requires
        protected_name(path) is Some,
    ensures
        protected_name(protected_name(path)->Some_0) == protected_name(path),
{
    let name = protected_name(path)->Some_0;
    lemma_protected_names_are_plain(name);
    lemma_plain_name(name);
}

/// A path without backslashes and white space.
spec fn is_clean(path: Seq<char>) -> bool {
    path.len() > 0 && forall|i: int|
        0 <= i < path.len() ==> (#[trigger] path[i]) != '\\' && !is_space(path[i])
}

proof fn lemma_clean_path(path: Seq<char>)
    requires
        is_clean(path),
        path[0] != '/',
    ensures
        workspace_name(path) == without_workspace(without_dot_slash(path)),
        workspace_name("/"@ + path) == without_workspace(without_dot_slash(path)),
{
    reveal_strlit("\\");
    reveal_strlit("/");
    assert(path[0] != '\\' && !is_space(path[0]));
    assert(!is_space(path[path.len() - 1]));
    assert(trimmed(path) == path);
    let below = "/"@ + path;
    assert(below[0] == '/');
    assert(below.last() == path.last());
    assert(trimmed(below) == below);
    assert(below.skip(1) =~= path);
    assert(strip_start(path, CharClass::One('/')) == path);
    assert(strip_start(below, CharClass::One('/')) == path);
    if contains(path, "\\"@) {
        let i = choose|i: int| #[trigger] occurs_at(path, "\\"@, i);
        assert(path.subrange(i, i + 1)[0] == path[i]);
    }
    replace_absent_is_identity(path, "\\"@, "/"@);
}

/// A protected file is found by its name alone, from the root of the workspace, and from the directory
/// that holds the workspace; a file of the same name elsewhere is not protected.
#[verifier::spinoff_prover]
#[verifier::rlimit(40)]
pub proof fn protected_files_lie_at_the_root(path: Seq<char>, name: Seq<char>)
    requires
        protected_name(path) == Some(name),
    ensures
        is_protected_name(name),
        protected_name(name) == Some(name),
        protected_name("./"@ + name) == Some(name),
        protected_name("/"@ + name) == Some(name),
        protected_name("workspace/"@ + name) == Some(name),
        protected_name("/"@ + ("workspace/"@ + name)) == Some(name),
        protected_name("workspace/"@ + ("workspace/"@ + name)) is None,
        protected_name("notes/"@ + name) is None,
{
    reveal_strlit("./");
    reveal_strlit("/");
    reveal_strlit("workspace/");
    reveal_strlit("notes/");
    lemma_protected_names_are_plain(name);
    lemma_plain_name(name);
    assert(name[0] != '/');
    if starts_with(name, "./"@) {
        assert(name.subrange(0, 2)[1] == name[1]);
    }
    if starts_with(name, "workspace/"@) {
        assert(name.subrange(0, 10)[9] == name[9]);
    }
    lemma_clean_path(name);
    let here = "./"@ + name;
    assert forall|i: int| 0 <= i < here.len() implies (#[trigger] here[i]) != '\\' && !is_space(
        here[i],
    ) by {
        if i >= 2 {
            assert(here[i] == name[i - 2]);
        }
    }
    lemma_clean_path(here);
    assert(here.subrange(0, 2) =~= "./"@);
    assert(here.skip(2) =~= name);
    let inside = "workspace/"@ + name;
    lemma_inside_workspace(name);
    let twice = "workspace/"@ + inside;
    lemma_inside_workspace(inside);
    assert(inside[9] == '/');
    assert(!is_plain_name(inside));
    if is_protected_name(inside) {
        lemma_protected_names_are_plain(inside);
    }
    let notes = "notes/"@ + name;
    assert forall|i: int| 0 <= i < notes.len() implies (#[trigger] notes[i]) != '\\' && !is_space(
        notes[i],
    ) by {
        if i >= 6 {
            assert(notes[i] == name[i - 6]);
        }
    }
    lemma_clean_path(notes);
    assert(notes[0] == 'n');
    if starts_with(notes, "./"@) {
        assert(notes.subrange(0, 2)[0] == notes[0]);
    }
    if starts_with(notes, "workspace/"@) {
        assert(notes.subrange(0, 10)[0] == notes[0]);
    }
    assert(notes[5] == '/');
    assert(!is_plain_name(notes));
    if is_protected_name(notes) {
        lemma_protected_names_are_plain(notes);
    }
}

proof fn lemma_inside_workspace(rest: Seq<char>)
    requires
        is_clean(rest),
    ensures
        workspace_name("workspace/"@ + rest) == rest,
        workspace_name("/"@ + ("workspace/"@ + rest)) == rest,
        is_clean("workspace/"@ + rest),
{
    reveal_strlit("./");
    reveal_strlit("workspace/");
    let inside = "workspace/"@ + rest;
    assert forall|i: int| 0 <= i < inside.len() implies (#[trigger] inside[i]) != '\\' && !is_space(
        inside[i],
    ) by {
        if i >= 10 {
            assert(inside[i] == rest[i - 10]);
        }
    }
    lemma_clean_path(inside);
    assert(inside[0] == 'w');
    if starts_with(inside, "./"@) {
        assert(inside.subrange(0, 2)[0] == inside[0]);
    }
    assert(inside.subrange(0, 10) =~= "workspace/"@);
    assert(inside.skip(10) =~= rest);
}

/// An edit that is queued is pending: a line that names a protected file, added to the queue, adds that
/// file to the pending ones and takes none away.
pub proof fn queued_edits_are_pending(queue: Seq<char>, line: Seq<char>, name: Seq<char>)
    requires
        queue.len() == 0 || queue.last() == '\n',
        line.len() > 0,
        !line.contains('\n'),
        trimmed(line) == line,
        json_string_field(line, "path"@) == Some(name),
        is_protected_name(name),
    ensures
        queued_names(lines(queue + line.push('\n'))) == queued_names(lines(queue)).insert(name),
{
    let all = lines(queue + line.push('\n'));
    lemma_strip_end_shape(strip_start(line, CharClass::Space), CharClass::Space);
    assert(!is_space(line.last()));
    assert forall|i: int| 0 <= i < line.len() implies #[trigger] line[i] != '\n' by {
        assert(line.contains(line[i]));
    }
    lemma_lines_append(queue, line);
    lemma_protected_names_are_plain(name);
    lemma_plain_name(name);
    assert(queued_name(line) == Some(name));
    let n = lines(queue).len() as int;
    assert(all.take(n) =~= lines(queue));
    assert(all.take(n + 1) =~= all);
    lemma_queued_step(all, n);
}

/// Of the files at the root of the workspace exactly these wait for activation.
pub proof fn exactly_these_files_wait(name: Seq<char>)
    requires
        is_plain_name(name),
    ensures
        protected_name(name) is Some <==> (name == "SOUL.md"@ || name == "USER.md"@ || name
            == "AGENTS.md"@ || name == "TOOLS.md"@ || name == "HEARTBEAT.md"@),
        protected_name(name) is Some ==> protected_name(name) == Some(name),
{
    lemma_plain_name(name);
}

/// A line adds the file that it names to the pending ones; one that is blank, or names no file, or names
/// one that is not protected, adds nothing.
pub proof fn lines_name_the_pending_files(all: Seq<Seq<char>>, line: Seq<char>, path: Seq<char>)
    ensures
        trimmed(line).len() == 0 || json_string_field(trimmed(line), "path"@) is None
            ==> queued_names(all.push(line)) == queued_names(all),
        trimmed(line).len() > 0 && json_string_field(trimmed(line), "path"@) == Some(path)
            ==> queued_names(all.push(line)) == (if protected_name(path) is Some {
            queued_names(all).insert(protected_name(path)->Some_0)
        } else {
            queued_names(all)
        }),
{
    let more = all.push(line);
    let n = all.len() as int;
    assert(more.take(n) =~= all);
    assert(more.take(n + 1) =~= more);
    lemma_queued_step(more, n);
}

}
