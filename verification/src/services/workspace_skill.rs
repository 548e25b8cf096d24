//! Workspace skill synchronisation: the rules that decide which directory
//! entries under the skills directory of a workspace belong to this tool.

use vstd::prelude::*;
use vstd::string::StrSliceExecFns;

verus! {

/// A manifest entry is a plain, single-level directory name: not empty, no
/// `/` or `\`, and neither `.` nor `..`.
pub open spec fn is_safe_entry_name(name: Seq<char>) -> bool {
    &&& name.len() > 0
    &&& !name.contains('/')
    &&& !name.contains('\\')
    &&& name != seq!['.']
    &&& name != seq!['.', '.']
}

/// Whether the path with components `target` lies inside the path with
/// components `base`: `base`'s components are the first of `target`'s, as
/// `Path::starts_with` compares them.
pub open spec fn components_start_with(target: Seq<Seq<u8>>, base: Seq<Seq<u8>>) -> bool {
    &&& base.len() <= target.len()
    &&& forall|i: int| 0 <= i < base.len() ==> #[trigger] target[i] == base[i]
}

pub struct WorkspaceSkillService;

impl WorkspaceSkillService {
    /// Whether a link whose target has the path components `target` points
    /// into the directory with components `ssot_dir` (each component given
    /// by its bytes): how a link is told to be this tool's.
    pub fn link_target_in_ssot(target: &Vec<Vec<u8>>, ssot_dir: &Vec<Vec<u8>>) -> (res: bool)
        ensures
            res == components_start_with(target.deep_view(), ssot_dir.deep_view()),
    {
        if ssot_dir.len() > target.len() {
            return false;
        }
        let mut i: usize = 0;
        while i < ssot_dir.len()
            invariant
                ssot_dir.len() <= target.len(),
                i <= ssot_dir.len(),
                forall|k: int| 0 <= k < i ==> #[trigger] target.deep_view()[k] == ssot_dir.deep_view()[k],
            decreases ssot_dir.len() - i,
        {
            assert(target.deep_view()[i as int] =~= target[i as int]@);
            assert(ssot_dir.deep_view()[i as int] =~= ssot_dir[i as int]@);
            if !bytes_equal(&target[i], &ssot_dir[i]) {
                return false;
            }
            i = i + 1;
        }
        true
    }

    /// Whether `name` may stand in the manifest (and be joined to the skills
    /// directory) without escaping it.
    pub fn is_safe_manifest_entry(name: &str) -> (res: bool)
        ensures
            res == is_safe_entry_name(name@),
    {
        let n = name.unicode_len();
        if n == 0 {
            return false;
        }
        let mut i: usize = 0;
        while i < n
            invariant
                n == name@.len(),
                i <= n,
                forall|j: int| 0 <= j < i ==> name@[j] != '/' && name@[j] != '\\',
            decreases n - i,
        {
            let c = name.get_char(i);
            if c == '/' || c == '\\' {
                assert(name@.contains(c));
                return false;
            }
            i = i + 1;
        }
        if n == 1 && name.get_char(0) == '.' {
            assert(name@ =~= seq!['.']);
            return false;
        }
        if n == 2 && name.get_char(0) == '.' && name.get_char(1) == '.' {
            assert(name@ =~= seq!['.', '.']);
            return false;
        }
        proof {
            if name@ == seq!['.'] {
                assert(name@[0] == '.');
            }
            if name@ == seq!['.', '.'] {
                assert(name@[0] == '.' && name@[1] == '.');
            }
        }
        true
    }
}

} // verus!

use crate::database::dao::skill_groups::SkillGroup;
use crate::database::dao::workspaces::Workspace;
use crate::database::dao::skill_groups::{all_groups_result, SELECT_MEMBER_IDS_SQL};
use crate::database::AppError;
use crate::database::dao::workspaces::{
    workspace_row_decodes, ACTIVATE_GROUP_SQL, BIND_GROUP_SQL, DEACTIVATE_GROUP_SQL,
    SELECT_ACTIVE_GROUP_IDS_OF_WORKSPACE_SQL, SELECT_WORKSPACE_SQL, SELECT_WORKSPACES_WITH_ACTIVE_GROUP_SQL,
    UNBIND_GROUP_SQL,
};
use crate::database::{
    column_texts, is_execute, is_query, lemma_appended_one, lemma_new_events_split, new_events, only_reads,
    rows_of, succeeded, text_at, Database, DbEvent,
};
use vstd::string::StringExecFns;
use crate::services::names::{contains_name, insert_name, names_sorted, sorted_names};
use crate::services::workspace_sync::{SyncStep, WorkspaceSync};
use crate::services::{db_err, ServiceError};

verus! {

/// What `serde_json::from_str::<Vec<String>>` gives for a text: the strings
/// of a JSON array of strings, or `None` where the text is not one.
pub uninterp spec fn json_string_list(text: Seq<char>) -> Option<Seq<Seq<char>>>;

/// The lowercase hexadecimal digit for `n` (below sixteen).
pub open spec fn hex_digit(n: int) -> char {
    if n < 10 {
        (('0' as int) + n) as char
    } else {
        (('a' as int) + n - 10) as char
    }
}

/// How JSON writes `c` inside a string: the quote and the backslash
/// escaped, the control characters below U+0020 by their short escape where
/// there is one and as `\u00XX` otherwise, every other character as itself.
pub open spec fn json_char(c: char) -> Seq<char> {
    if c == '"' {
        seq!['\\', '"']
    } else if c == '\\' {
        seq!['\\', '\\']
    } else if c == '\u{8}' {
        seq!['\\', 'b']
    } else if c == '\t' {
        seq!['\\', 't']
    } else if c == '\n' {
        seq!['\\', 'n']
    } else if c == '\u{c}' {
        seq!['\\', 'f']
    } else if c == '\r' {
        seq!['\\', 'r']
    } else if (c as int) < 0x20 {
        seq!['\\', 'u', '0', '0', hex_digit((c as int) / 16), hex_digit((c as int) % 16)]
    } else {
        seq![c]
    }
}

/// The characters of `s`, each as JSON writes it inside a string.
pub open spec fn json_escaped(s: Seq<char>) -> Seq<char>
    decreases s.len(),
{
    if s.len() == 0 {
        Seq::empty()
    } else {
        json_escaped(s.drop_last()) + json_char(s.last())
    }
}

/// The items of a pretty-printed JSON array of strings: each on a line of
/// its own, indented by two spaces, the lines separated by commas.
pub open spec fn json_pretty_items(items: Seq<Seq<char>>) -> Seq<char>
    decreases items.len(),
{
    if items.len() == 0 {
        Seq::empty()
    } else {
        let sep = if items.len() == 1 {
            seq!['\n']
        } else {
            seq![',', '\n']
        };
        json_pretty_items(items.drop_last()) + sep + seq![' ', ' ', '"'] + json_escaped(items.last()) + seq!['"']
    }
}

/// What `serde_json::to_string_pretty` writes for a list of strings: `[]`
/// for none, else `[`, the items (see `json_pretty_items`), a line break and
/// `]`.
pub open spec fn json_pretty_string_list(items: Seq<Seq<char>>) -> Seq<char> {
    if items.len() == 0 {
        seq!['[', ']']
    } else {
        seq!['['] + json_pretty_items(items) + seq!['\n', ']']
    }
}

/// `serde_json::from_str::<Vec<String>>`: parses a JSON array of strings. The
/// contract names the result (a function of the text alone); the error
/// message is `serde_json::Error`'s text, of which nothing is stated.
#[verifier::external_body]
fn parse_json_string_list(text: &str) -> (res: Result<Vec<String>, String>)
    ensures
        match res {
            Ok(v) => json_string_list(text@) == Some(v.deep_view()),
            Err(_) => json_string_list(text@) is None,
        },
{
    serde_json::from_str::<Vec<String>>(text).map_err(|e| e.to_string())
}

/// `serde_json::to_string_pretty` on a list of strings. It succeeds: its
/// documentation names a failing `Serialize` impl and a map with non-string
/// keys as the only causes of an error, and the writer is a `Vec`. The text
/// is the one its `PrettyFormatter` and escape table write (two spaces of
/// indentation; see `json_pretty_string_list`), and `serde_json::from_str`
/// reads the same list back from it.
#[verifier::external_body]
fn render_json_string_list(items: &Vec<String>) -> (res: Result<String, String>)
    ensures
        res is Ok,
        res matches Ok(t) ==> t@ == json_pretty_string_list(items.deep_view()) && json_string_list(
            t@,
        ) == Some(items.deep_view()),
{
    serde_json::to_string_pretty(items).map_err(|e| e.to_string())
}

/// Adds `x` to the set `r` unless it is in it already.
pub open spec fn set_add(r: Seq<Seq<char>>, x: Seq<char>) -> Seq<Seq<char>> {
    if r.contains(x) {
        r
    } else {
        r.push(x)
    }
}

/// The safe entries of a manifest list, each once, in the order of their
/// first occurrence.
pub open spec fn safe_entry_set(s: Seq<Seq<char>>) -> Seq<Seq<char>>
    decreases s.len(),
{
    if s.len() == 0 {
        Seq::empty()
    } else {
        let r = safe_entry_set(s.drop_last());
        if is_safe_entry_name(s.last()) {
            set_add(r, s.last())
        } else {
            r
        }
    }
}

/// What the state of a path is, as far as ownership is concerned.
#[derive(Debug)]
pub enum PathState {
    /// Nothing is at the path, not even a dangling link.
    Absent,
    /// A symbolic link; whether its target lies inside the skills store, and
    /// whether the target exists.
    Symlink { target_in_ssot: bool, target_exists: bool },
    /// A directory; whether it holds the ownership marker file.
    Directory { has_marker: bool },
    /// Anything else (a plain file, say).
    OtherFile,
}

/// `exists() || is_symlink()`: something is at the path.
pub open spec fn path_present(s: PathState) -> bool {
    !(s is Absent)
}

/// `exists()`: the path resolves (a link counts only where its target exists).
pub open spec fn path_exists(s: PathState) -> bool {
    match s {
        PathState::Absent => false,
        PathState::Symlink { target_exists, .. } => target_exists,
        _ => true,
    }
}

/// Whether the entry still belongs to this tool: a link into the skills
/// store, or a directory with the marker.
pub open spec fn still_managed(s: PathState) -> bool {
    match s {
        PathState::Symlink { target_in_ssot, .. } => target_in_ssot,
        PathState::Directory { has_marker } => has_marker,
        _ => false,
    }
}

/// One entry of a skills directory, as scanned.
#[derive(Debug)]
pub struct ScannedEntry {
    /// The entry's file name, where it is valid UTF-8.
    pub name: Option<String>,
    pub state: PathState,
    /// Whether the skills store holds a directory of the same name.
    pub ssot_source_is_dir: bool,
    /// Whether the entry's contents equal that directory's (see
    /// `dir_content_equals`).
    pub same_content_as_ssot: bool,
}

/// The entry's name, where it has one.
pub open spec fn entry_name(e: ScannedEntry) -> Option<Seq<char>> {
    opt_name(e.name)
}

pub open spec fn opt_name(o: Option<String>) -> Option<Seq<char>> {
    match o {
        Some(s) => Some(s@),
        None => None,
    }
}

/// Whether a first synchronisation adopts the entry: a link into the skills
/// store, a directory with the marker, or a legacy copy whose contents equal
/// the store's directory of the same name.
pub open spec fn bootstrap_adopts(e: ScannedEntry) -> bool {
    &&& entry_name(e) matches Some(n) && is_safe_entry_name(n)
    &&& match e.state {
        PathState::Symlink { target_in_ssot, .. } => target_in_ssot,
        PathState::Directory { has_marker } => has_marker || (e.ssot_source_is_dir
            && e.same_content_as_ssot),
        _ => false,
    }
}

/// Whether an adopted entry is a legacy copy that still needs its marker.
pub open spec fn needs_marker(e: ScannedEntry) -> bool {
    &&& bootstrap_adopts(e)
    &&& e.state matches PathState::Directory { has_marker } && !has_marker
}

/// Whether the entry is one of this tool's deployments that the manifest
/// `old` does not record.
pub open spec fn is_orphan(e: ScannedEntry, old: Seq<Seq<char>>) -> bool {
    &&& entry_name(e) matches Some(n) && is_safe_entry_name(n) && !old.contains(n)
    &&& match e.state {
        PathState::Symlink { target_in_ssot, .. } => target_in_ssot,
        PathState::Directory { has_marker } => has_marker,
        _ => false,
    }
}

/// The names of the entries that `keep` selects, each once, in scan order.
pub open spec fn selected_names(s: Seq<ScannedEntry>, keep: spec_fn(ScannedEntry) -> bool) -> Seq<
    Seq<char>,
>
    decreases s.len(),
{
    if s.len() == 0 {
        Seq::empty()
    } else {
        let r = selected_names(s.drop_last(), keep);
        if keep(s.last()) {
            set_add(r, entry_name(s.last())->0)
        } else {
            r
        }
    }
}

pub proof fn lemma_set_add_no_dup(r: Seq<Seq<char>>, x: Seq<char>)
    requires
        r.no_duplicates(),
    ensures
        set_add(r, x).no_duplicates(),
        forall|y: Seq<char>| set_add(r, x).contains(y) <==> (r.contains(y) || y == x),
{
    if !r.contains(x) {
        assert forall|i: int, j: int| 0 <= i < j < r.push(x).len() implies r.push(x)[i] != r.push(x)[j] by {
            if j == r.len() {
                assert(r[i] == r.push(x)[i]);
            }
        }
        assert forall|y: Seq<char>| r.push(x).contains(y) implies (r.contains(y) || y == x) by {
            let k = choose|k: int| 0 <= k < r.push(x).len() && r.push(x)[k] == y;
            if k < r.len() {
                assert(r[k] == y);
            }
        }
        assert forall|y: Seq<char>| (r.contains(y) || y == x) implies r.push(x).contains(y) by {
            if y == x {
                assert(r.push(x)[r.len() as int] == x);
            } else {
                let k = choose|k: int| 0 <= k < r.len() && r[k] == y;
                assert(r.push(x)[k] == y);
            }
        }
    }
}

pub proof fn lemma_safe_entry_set_props(s: Seq<Seq<char>>)
    ensures
        safe_entry_set(s).no_duplicates(),
        forall|y: Seq<char>|
            #[trigger] safe_entry_set(s).contains(y) <==> (s.contains(y) && is_safe_entry_name(y)),
    decreases s.len(),
{
    if s.len() > 0 {
        let t = s.drop_last();
        lemma_safe_entry_set_props(t);
        let r = safe_entry_set(t);
        if is_safe_entry_name(s.last()) {
            lemma_set_add_no_dup(r, s.last());
        }
        assert forall|y: Seq<char>|
            #[trigger] safe_entry_set(s).contains(y) <==> (s.contains(y) && is_safe_entry_name(y)) by {
            if is_safe_entry_name(s.last()) {
                assert(set_add(r, s.last()).contains(y) <==> (r.contains(y) || y == s.last()));
            }
            assert(r.contains(y) <==> (t.contains(y) && is_safe_entry_name(y)));
            assert(s[s.len() - 1] == s.last());
            if s.contains(y) {
                let k = choose|k: int| 0 <= k < s.len() && s[k] == y;
                if k < s.len() - 1 {
                    assert(t[k] == y);
                }
            }
            if t.contains(y) {
                let k = choose|k: int| 0 <= k < t.len() && t[k] == y;
                assert(s[k] == y);
            }
        }
    }
}

pub proof fn lemma_selected_names_props(s: Seq<ScannedEntry>, keep: spec_fn(ScannedEntry) -> bool)
    requires
        forall|e: ScannedEntry| #[trigger] keep(e) ==> entry_name(e) is Some,
    ensures
        selected_names(s, keep).no_duplicates(),
        forall|y: Seq<char>|
            selected_names(s, keep).contains(y) <==> exists|i: int|
                0 <= i < s.len() && keep(#[trigger] s[i]) && entry_name(s[i]) == Some(y),
    decreases s.len(),
{
    if s.len() > 0 {
        let t = s.drop_last();
        lemma_selected_names_props(t, keep);
        let r = selected_names(t, keep);
        if keep(s.last()) {
            lemma_set_add_no_dup(r, entry_name(s.last())->0);
        }
        assert forall|y: Seq<char>|
            selected_names(s, keep).contains(y) <==> exists|i: int|
                0 <= i < s.len() && keep(#[trigger] s[i]) && entry_name(s[i]) == Some(y) by {
            if selected_names(s, keep).contains(y) {
                if r.contains(y) {
                    let i = choose|i: int| 0 <= i < t.len() && keep(#[trigger] t[i]) && entry_name(t[i]) == Some(y);
                    assert(s[i] == t[i]);
                } else {
                    assert(s[s.len() - 1] == s.last());
                }
            }
            if exists|i: int| 0 <= i < s.len() && keep(#[trigger] s[i]) && entry_name(s[i]) == Some(y) {
                let i = choose|i: int| 0 <= i < s.len() && keep(#[trigger] s[i]) && entry_name(s[i]) == Some(y);
                if i < s.len() - 1 {
                    assert(t[i] == s[i]);
                    assert(r.contains(y));
                }
            }
        }
    }
}

/// The entries of the record `old` that a run no longer deploys (`new`) and
/// that are safe to join to the skills directory, in the record's order.
pub open spec fn stale_names(old: Seq<Seq<char>>, new: Seq<Seq<char>>) -> Seq<Seq<char>>
    decreases old.len(),
{
    if old.len() == 0 {
        Seq::empty()
    } else {
        let r = stale_names(old.drop_last(), new);
        if !new.contains(old.last()) && is_safe_entry_name(old.last()) {
            r.push(old.last())
        } else {
            r
        }
    }
}

/// An entry is stale exactly when the record holds it, the run does not
/// deploy it, and it is a safe name.
pub proof fn lemma_stale_names_props(old: Seq<Seq<char>>, new: Seq<Seq<char>>)
    ensures
        forall|x: Seq<char>|
            #[trigger] stale_names(old, new).contains(x) <==> (old.contains(x) && !new.contains(x)
                && is_safe_entry_name(x)),
    decreases old.len(),
{
    if old.len() > 0 {
        let t = old.drop_last();
        lemma_stale_names_props(t, new);
        assert forall|x: Seq<char>|
            #[trigger] stale_names(old, new).contains(x) <==> (old.contains(x) && !new.contains(x)
                && is_safe_entry_name(x)) by {
            let r = stale_names(t, new);
            assert(old[old.len() - 1] == old.last());
            if r.push(old.last()).contains(x) && !r.contains(x) {
                let k = choose|k: int| 0 <= k < r.push(old.last()).len() && r.push(old.last())[k] == x;
                assert(k == r.len());
            }
            if r.contains(x) {
                let k = choose|k: int| 0 <= k < r.len() && r[k] == x;
                assert(r.push(old.last())[k] == x);
                let j = choose|j: int| 0 <= j < t.len() && t[j] == x;
                assert(old[j] == x);
            }
            if old.contains(x) && !new.contains(x) && is_safe_entry_name(x) {
                let j = choose|j: int| 0 <= j < old.len() && old[j] == x;
                if j < old.len() - 1 {
                    assert(t[j] == x);
                    assert(r.contains(x));
                    let k = choose|k: int| 0 <= k < r.len() && r[k] == x;
                    assert(r.push(old.last())[k] == x);
                } else {
                    assert(r.push(old.last())[r.len() as int] == x);
                }
            }
        }
    }
}

impl WorkspaceSkillService {
    /// The entries of the record that a run removes at its end (where they
    /// are still this tool's): those it no longer deploys, safe names only.
    pub fn stale_entries(old_managed: &Vec<String>, new_managed: &Vec<String>) -> (res: Vec<String>)
        ensures
            res.deep_view() == stale_names(old_managed.deep_view(), new_managed.deep_view()),
    {
        let mut stale: Vec<String> = Vec::new();
        let mut i: usize = 0;
        while i < old_managed.len()
            invariant
                i <= old_managed.len(),
                stale.deep_view() == stale_names(old_managed.deep_view().take(i as int), new_managed.deep_view()),
            decreases old_managed.len() - i,
        {
            assert(old_managed.deep_view().take(i + 1).drop_last() =~= old_managed.deep_view().take(i as int));
            assert(old_managed.deep_view().take(i + 1).last() == old_managed[i as int]@);
            let x = old_managed[i].clone();
            if !contains_name(new_managed, x.as_str()) && Self::is_safe_manifest_entry(x.as_str()) {
                let ghost prev = stale.deep_view();
                stale.push(x);
                assert(stale.deep_view() =~= prev.push(old_managed[i as int]@));
            }
            i = i + 1;
        }
        assert(old_managed.deep_view().take(old_managed.len() as int) =~= old_managed.deep_view());
        stale
    }

    /// The manifest entries recorded in `content`: the safe entries of the
    /// JSON array, each once. A text that is not a JSON array of strings is
    /// an error, so that a damaged manifest is never overwritten.
    pub fn parse_skills_manifest(content: &str) -> (res: Result<Vec<String>, ServiceError>)
        ensures
            match res {
                Ok(v) => json_string_list(content@) matches Some(entries) && v.deep_view()
                    == safe_entry_set(entries),
                Err(e) => json_string_list(content@) is None && e is ManifestParse,
            },
    {
        let entries = match parse_json_string_list(content) {
            Ok(v) => v,
            Err(msg) => {
                return Err(ServiceError::ManifestParse(msg));
            },
        };
        let mut safe: Vec<String> = Vec::new();
        let mut i: usize = 0;
        while i < entries.len()
            invariant
                i <= entries.len(),
                safe.deep_view() == safe_entry_set(entries.deep_view().take(i as int)),
            decreases entries.len() - i,
        {
            assert(entries.deep_view().take(i + 1).drop_last() =~= entries.deep_view().take(i as int));
            assert(entries.deep_view().take(i + 1).last() == entries[i as int]@);
            if Self::is_safe_manifest_entry(entries[i].as_str()) {
                insert_name(&mut safe, entries[i].clone());
            }
            i = i + 1;
        }
        assert(entries.deep_view().take(entries.len() as int) =~= entries.deep_view());
        Ok(safe)
    }

    /// The manifest text for the managed entries: a pretty-printed JSON
    /// array of the names in ascending order.
    pub fn render_skills_manifest(managed: &Vec<String>) -> (res: String)
        requires
            managed.deep_view().no_duplicates(),
        ensures
            exists|list: Seq<Seq<char>>|
                #[trigger] names_sorted(list) && list.len() == managed.len() && (forall|x: Seq<char>|
                    list.contains(x) <==> managed.deep_view().contains(x)) && res@
                    == json_pretty_string_list(list) && json_string_list(res@) == Some(list),
            // What is written is read back: the safe names among `managed`.
            json_string_list(res@) matches Some(es) && forall|x: Seq<char>|
                #[trigger] safe_entry_set(es).contains(x) <==> (managed.deep_view().contains(x)
                    && is_safe_entry_name(x)),
    {
        let list = sorted_names(managed);
        let rendered = render_json_string_list(&list);
        assert(names_sorted(list.deep_view()));
        proof {
            lemma_safe_entry_set_props(list.deep_view());
        }
        rendered.unwrap()
    }

    /// Whether a skill whose link could not be made is copied instead: where
    /// the destination is this tool's (`recorded`, and already removed) or
    /// nothing stood there. A directory of someone else's is left alone.
    pub fn copies_after_failed_link(recorded: bool, dest_existed: bool) -> (res: bool)
        ensures
            res == (recorded || !dest_existed),
    {
        recorded || !dest_existed
    }

    /// Whether the entry at a path still belongs to this tool: a link whose
    /// target lies in the skills store, or a directory holding the marker.
    pub fn is_still_managed(state: &PathState) -> (res: bool)
        ensures
            res == still_managed(*state),
    {
        match state {
            PathState::Symlink { target_in_ssot, .. } => *target_in_ssot,
            PathState::Directory { has_marker } => *has_marker,
            _ => false,
        }
    }

    /// The entries that a first synchronisation adopts (the manifest does not
    /// exist yet), and among them the legacy copies that still need their
    /// ownership marker.
    pub fn bootstrap_managed_entries(entries: &Vec<ScannedEntry>) -> (res: (Vec<String>, Vec<String>))
        ensures
            res.0.deep_view() == selected_names(entries@, |e: ScannedEntry| bootstrap_adopts(e)),
            res.1.deep_view() == selected_names(entries@, |e: ScannedEntry| needs_marker(e)),
    {
        let ghost adopt = |e: ScannedEntry| bootstrap_adopts(e);
        let ghost mark = |e: ScannedEntry| needs_marker(e);
        let mut adopted: Vec<String> = Vec::new();
        let mut legacy: Vec<String> = Vec::new();
        let mut i: usize = 0;
        while i < entries.len()
            invariant
                i <= entries.len(),
                adopt == (|e: ScannedEntry| bootstrap_adopts(e)),
                mark == (|e: ScannedEntry| needs_marker(e)),
                adopted.deep_view() == selected_names(entries@.take(i as int), adopt),
                legacy.deep_view() == selected_names(entries@.take(i as int), mark),
            decreases entries.len() - i,
        {
            assert(entries@.take(i + 1).drop_last() =~= entries@.take(i as int));
            assert(entries@.take(i + 1).last() == entries@[i as int]);
            let e = &entries[i];
            let ghost ev = entries@[i as int];
            let ghost prev_a = adopted.deep_view();
            let ghost prev_l = legacy.deep_view();
            proof {
                let t = entries@.take(i + 1);
                assert(selected_names(t, adopt) == (if adopt(ev) { set_add(selected_names(t.drop_last(), adopt), entry_name(ev)->0) } else { selected_names(t.drop_last(), adopt) }));
                assert(selected_names(t, mark) == (if mark(ev) { set_add(selected_names(t.drop_last(), mark), entry_name(ev)->0) } else { selected_names(t.drop_last(), mark) }));
            }
            match &e.name {
                Some(name) => {
                    if Self::is_safe_manifest_entry(name.as_str()) {
                        let managed = match &e.state {
                            PathState::Symlink { target_in_ssot, .. } => *target_in_ssot,
                            PathState::Directory { has_marker } => *has_marker || (e.ssot_source_is_dir
                                && e.same_content_as_ssot),
                            _ => false,
                        };
                        if managed {
                            match &e.state {
                                PathState::Directory { has_marker } => {
                                    if !*has_marker {
                                        insert_name(&mut legacy, name.clone());
                                    }
                                },
                                _ => {},
                            }
                            insert_name(&mut adopted, name.clone());
                        }
                    }
                },
                None => {},
            }
            i = i + 1;
        }
        assert(entries@.take(entries.len() as int) =~= entries@);
        (adopted, legacy)
    }

    /// The entries that are this tool's deployments (a link into the skills
    /// store, or a directory with the marker) but that `old_managed` does not
    /// record: what a deployment left behind when writing its manifest failed.
    pub fn recover_orphaned_managed(entries: &Vec<ScannedEntry>, old_managed: &Vec<String>) -> (res:
        Vec<String>)
        ensures
            res.deep_view() == selected_names(
                entries@,
                |e: ScannedEntry| is_orphan(e, old_managed.deep_view()),
            ),
    {
        let ghost orphan = |e: ScannedEntry| is_orphan(e, old_managed.deep_view());
        let mut recovered: Vec<String> = Vec::new();
        let mut i: usize = 0;
        while i < entries.len()
            invariant
                i <= entries.len(),
                orphan == (|e: ScannedEntry| is_orphan(e, old_managed.deep_view())),
                recovered.deep_view() == selected_names(entries@.take(i as int), orphan),
            decreases entries.len() - i,
        {
            assert(entries@.take(i + 1).drop_last() =~= entries@.take(i as int));
            assert(entries@.take(i + 1).last() == entries@[i as int]);
            let e = &entries[i];
            let ghost ev = entries@[i as int];
            proof {
                let t = entries@.take(i + 1);
                assert(selected_names(t, orphan) == (if orphan(ev) { set_add(selected_names(t.drop_last(), orphan), entry_name(ev)->0) } else { selected_names(t.drop_last(), orphan) }));
            }
            match &e.name {
                Some(name) => {
                    if Self::is_safe_manifest_entry(name.as_str()) && !contains_name(
                        old_managed,
                        name.as_str(),
                    ) {
                        let ours = match &e.state {
                            PathState::Symlink { target_in_ssot, .. } => *target_in_ssot,
                            PathState::Directory { has_marker } => *has_marker,
                            _ => false,
                        };
                        if ours {
                            insert_name(&mut recovered, name.clone());
                        }
                    }
                },
                None => {},
            }
            i = i + 1;
        }
        assert(entries@.take(entries.len() as int) =~= entries@);
        recovered
    }
}

} // verus!

verus! {

/// The member lists that the queries after the first two give, one each.
pub open spec fn member_lists_of(events: Seq<DbEvent>) -> Seq<Seq<Seq<char>>> {
    Seq::new((events.len() - 2) as nat, |k: int| column_texts(rows_of(events[k + 2])->0)->0)
}

/// Whether the query gave rows whose first column is text throughout.
pub open spec fn lists_ok(e: DbEvent) -> bool {
    rows_of(e) matches Some(mr) && column_texts(mr) is Some
}

/// The part of starting a synchronisation after the active group ids `ids`
/// were read: one member query per id, in order, stopping at the first that
/// fails; where all succeed, the run deploys the union of the lists into
/// `path`.
pub open spec fn members_result(
    events: Seq<DbEvent>,
    ids: Seq<Seq<char>>,
    path: Seq<char>,
    res: Result<(WorkspaceSync, SyncStep), ServiceError>,
) -> bool {
    &&& 2 <= events.len() <= ids.len() + 2
    &&& forall|k: int| 0 <= k < events.len() - 2 ==> is_query(#[trigger] events[k + 2], SELECT_MEMBER_IDS_SQL@, seq![ids[k]])
    &&& forall|k: int| 0 <= k < events.len() - 3 ==> lists_ok(#[trigger] events[k + 2])
    &&& if events.len() == ids.len() + 2 && forall|k: int| 0 <= k < ids.len() ==> lists_ok(#[trigger] events[k + 2]) {
        &&& res matches Ok((run, step))
        &&& res->Ok_0.0.workspace_dir() == path
        &&& res->Ok_0.0.skills() == union_of(member_lists_of(events))
        &&& res->Ok_0.0.skills().no_duplicates()
        &&& res->Ok_0.0.wf()
        &&& res->Ok_0.0.phase_of() is CreatingDir
        &&& res->Ok_0.1 is CreateSkillsDir
    } else {
        res matches Err(ServiceError::Database(_))
    }
}

/// What starting a workspace's synchronisation gives, from the queries it
/// sent (`events`, all reads): the workspace's row (none is
/// `WorkspaceNotFound`), the ids of the groups active in it, then one member
/// list per id (see `members_result`). A failed read is a database error.
pub open spec fn sync_start_result(
    events: Seq<DbEvent>,
    workspace_id: Seq<char>,
    res: Result<(WorkspaceSync, SyncStep), ServiceError>,
) -> bool {
    &&& only_reads(events)
    &&& events.len() >= 1
    &&& is_query(events[0], SELECT_WORKSPACE_SQL@, seq![workspace_id])
    &&& match rows_of(events[0]) {
        None => events.len() == 1 && res matches Err(ServiceError::Database(_)),
        Some(rows) => if rows.len() == 0 {
            &&& events.len() == 1
            &&& res matches Err(ServiceError::WorkspaceNotFound(w)) && w@ == workspace_id
        } else if !workspace_row_decodes(rows[0]) {
            events.len() == 1 && res matches Err(ServiceError::Database(_))
        } else {
            &&& events.len() >= 2
            &&& is_query(events[1], SELECT_ACTIVE_GROUP_IDS_OF_WORKSPACE_SQL@, seq![workspace_id])
            &&& match rows_of(events[1]) {
                Some(id_rows) => match column_texts(id_rows) {
                    Some(ids) => members_result(events, ids, text_at(rows[0], 2)->0, res),
                    None => events.len() == 2 && res matches Err(ServiceError::Database(_)),
                },
                None => events.len() == 2 && res matches Err(ServiceError::Database(_)),
            }
        },
    }
}

/// The two statements that toggle a group in a workspace: checking binds
/// the group to the workspace, then marks it active; unchecking marks it
/// not active, then unbinds it.
pub open spec fn toggle_statements(active: bool) -> (Seq<char>, Seq<char>) {
    if active {
        (BIND_GROUP_SQL@, ACTIVATE_GROUP_SQL@)
    } else {
        (DEACTIVATE_GROUP_SQL@, UNBIND_GROUP_SQL@)
    }
}

/// What toggling a group in a workspace gives, from the exchanges it made:
/// the workspace's row (none is `WorkspaceNotFound`), the two statements of
/// `toggle_statements` in order, stopping at the first that fails, then
/// the start of the workspace's synchronisation (see `sync_start_result`).
pub open spec fn toggle_result(
    events: Seq<DbEvent>,
    workspace_id: Seq<char>,
    group_id: Seq<char>,
    active: bool,
    res: Result<(WorkspaceSync, SyncStep), ServiceError>,
) -> bool {
    &&& events.len() >= 1
    &&& is_query(events[0], SELECT_WORKSPACE_SQL@, seq![workspace_id])
    &&& match rows_of(events[0]) {
        None => events.len() == 1 && res matches Err(ServiceError::Database(_)),
        Some(rows) => if rows.len() == 0 {
            &&& events.len() == 1
            &&& res matches Err(ServiceError::WorkspaceNotFound(w)) && w@ == workspace_id
        } else if !workspace_row_decodes(rows[0]) {
            events.len() == 1 && res matches Err(ServiceError::Database(_))
        } else {
            &&& events.len() >= 2
            &&& is_execute(events[1], toggle_statements(active).0, seq![workspace_id, group_id])
            &&& if !succeeded(events[1]) {
                events.len() == 2 && res matches Err(ServiceError::Database(_))
            } else {
                &&& events.len() >= 3
                &&& is_execute(events[2], toggle_statements(active).1, seq![workspace_id, group_id])
                &&& if succeeded(events[2]) {
                    sync_start_result(events.skip(3), workspace_id, res)
                } else {
                    events.len() == 3 && res matches Err(ServiceError::Database(_))
                }
            }
        },
    }
}

/// Whether `events` are the starts of the synchronisations of the
/// workspaces `ids`, in order (see `sync_start_result`), and `runs` the runs
/// of those that started, in the same order.
pub open spec fn starts_result(
    events: Seq<DbEvent>,
    ids: Seq<Seq<char>>,
    runs: Seq<(WorkspaceSync, SyncStep)>,
) -> bool
    decreases ids.len(),
{
    if ids.len() == 0 {
        events.len() == 0 && runs.len() == 0
    } else {
        exists|n: int, r: Result<(WorkspaceSync, SyncStep), ServiceError>|
            #![trigger sync_start_result(events.skip(n), ids.last(), r)]
            {
                &&& 0 <= n <= events.len()
                &&& sync_start_result(events.skip(n), ids.last(), r)
                &&& starts_result(events.take(n), ids.drop_last(), if r is Ok { runs.drop_last() } else { runs })
                &&& r is Ok ==> runs.len() > 0 && runs.last() == r->Ok_0
            }
    }
}

/// What starting the synchronisations for a group gives, from the exchanges
/// it made: the ids of the workspaces in which the group is active, then one
/// start per id (a start that fails is skipped).
pub open spec fn group_starts_result(
    events: Seq<DbEvent>,
    group_id: Seq<char>,
    res: Result<Vec<(WorkspaceSync, SyncStep)>, ServiceError>,
) -> bool {
    &&& events.len() >= 1
    &&& is_query(events[0], SELECT_WORKSPACES_WITH_ACTIVE_GROUP_SQL@, seq![group_id])
    &&& match rows_of(events[0]) {
        Some(rows) => match column_texts(rows) {
            Some(ids) => res matches Ok(runs) && starts_result(events.skip(1), ids, runs@),
            None => events.len() == 1 && res matches Err(ServiceError::Database(_)),
        },
        None => events.len() == 1 && res matches Err(ServiceError::Database(_)),
    }
}

/// Whether `events` are the successful starts for the groups `gids`, in
/// order (see `group_starts_result`), and `runs` their runs, concatenated.
pub open spec fn groups_processed(
    events: Seq<DbEvent>,
    gids: Seq<Seq<char>>,
    runs: Seq<(WorkspaceSync, SyncStep)>,
) -> bool
    decreases gids.len(),
{
    if gids.len() == 0 {
        events.len() == 0 && runs.len() == 0
    } else {
        exists|n: int, v: Vec<(WorkspaceSync, SyncStep)>|
            #![trigger group_starts_result(events.skip(n), gids.last(), Ok::<Vec<(WorkspaceSync, SyncStep)>, ServiceError>(v))]
            {
                &&& 0 <= n <= events.len()
                &&& group_starts_result(events.skip(n), gids.last(), Ok(v))
                &&& v@.len() <= runs.len()
                &&& groups_processed(events.take(n), gids.drop_last(), runs.take(runs.len() - v@.len()))
                &&& runs.skip(runs.len() - v@.len()) == v@
            }
    }
}

/// Whether the starts for the groups `gids` stopped at the group `k`: the
/// groups before it started (`events.take(m)`), and its own start failed
/// with `r` (`events.skip(m)`).
pub open spec fn stopped_at(
    events: Seq<DbEvent>,
    gids: Seq<Seq<char>>,
    k: int,
    m: int,
    runs: Seq<(WorkspaceSync, SyncStep)>,
    r: Result<Vec<(WorkspaceSync, SyncStep)>, ServiceError>,
) -> bool {
    &&& 0 <= k < gids.len()
    &&& 0 <= m <= events.len()
    &&& groups_processed(events.take(m), gids.take(k), runs)
    &&& group_starts_result(events.skip(m), gids[k], r)
    &&& r is Err
}

/// What starting the synchronisations for a skill gives, from the exchanges
/// it made: the listing of the groups (see `all_groups_result`), then, for
/// each group that has the skill as a member, in order, the starts for that
/// group; a failure of the listing or of any group's start ends it with a
/// database error.
pub open spec fn skill_starts_result(
    events: Seq<DbEvent>,
    skill_id: Seq<char>,
    res: Result<Vec<(WorkspaceSync, SyncStep)>, ServiceError>,
) -> bool {
    exists|n: int, gr: Result<Vec<SkillGroup>, AppError>|
        #![trigger all_groups_result(events.take(n), gr)]
        {
            &&& 0 <= n <= events.len()
            &&& all_groups_result(events.take(n), gr)
            &&& match gr {
                Err(_) => n == events.len() && res matches Err(ServiceError::Database(_)),
                Ok(gs) => {
                    ||| res matches Ok(runs) && groups_processed(
                        events.skip(n),
                        groups_with_member(gs@, skill_id),
                        runs@,
                    )
                    ||| res matches Err(ServiceError::Database(_)) && exists|
                        k: int,
                        m: int,
                        runs0: Seq<(WorkspaceSync, SyncStep)>,
                        r: Result<Vec<(WorkspaceSync, SyncStep)>, ServiceError>,
                    | #[trigger] stopped_at(events.skip(n), groups_with_member(gs@, skill_id), k, m, runs0, r)
                },
            }
        }
}

/// The union of the lists, each id once, in the order of first occurrence.
pub open spec fn union_of(lists: Seq<Seq<Seq<char>>>) -> Seq<Seq<char>>
    decreases lists.len(),
{
    if lists.len() == 0 {
        Seq::empty()
    } else {
        union_into(union_of(lists.drop_last()), lists.last())
    }
}

/// `r` with the ids of `l` added in order, each unless present.
pub open spec fn union_into(r: Seq<Seq<char>>, l: Seq<Seq<char>>) -> Seq<Seq<char>>
    decreases l.len(),
{
    if l.len() == 0 {
        r
    } else {
        set_add(union_into(r, l.drop_last()), l.last())
    }
}

/// The ids of the groups among `groups` that have `skill_id` as a member,
/// in the order of `groups`.
pub open spec fn groups_with_member(groups: Seq<SkillGroup>, skill_id: Seq<char>) -> Seq<Seq<char>>
    decreases groups.len(),
{
    if groups.len() == 0 {
        Seq::empty()
    } else {
        let r = groups_with_member(groups.drop_last(), skill_id);
        if groups.last().member_ids.deep_view().contains(skill_id) {
            r.push(groups.last().id@)
        } else {
            r
        }
    }
}

proof fn lemma_union_into_props(r: Seq<Seq<char>>, l: Seq<Seq<char>>)
    requires
        r.no_duplicates(),
    ensures
        union_into(r, l).no_duplicates(),
        forall|y: Seq<char>| #[trigger] union_into(r, l).contains(y) <==> (r.contains(y) || l.contains(y)),
    decreases l.len(),
{
    if l.len() > 0 {
        let t = l.drop_last();
        lemma_union_into_props(r, t);
        lemma_set_add_no_dup(union_into(r, t), l.last());
        assert forall|y: Seq<char>| #[trigger] union_into(r, l).contains(y) <==> (r.contains(y) || l.contains(y)) by {
            assert(union_into(r, t).contains(y) <==> (r.contains(y) || t.contains(y)));
            assert(set_add(union_into(r, t), l.last()).contains(y) <==> (union_into(r, t).contains(y) || y == l.last()));
            assert(l[l.len() - 1] == l.last());
            if t.contains(y) {
                let k = choose|k: int| 0 <= k < t.len() && t[k] == y;
                assert(l[k] == y);
            }
            if l.contains(y) {
                let k = choose|k: int| 0 <= k < l.len() && l[k] == y;
                if k < l.len() - 1 {
                    assert(t[k] == y);
                }
            }
        }
    }
}

/// Whether `y` is in one of the lists.
pub open spec fn in_some_list(lists: Seq<Seq<Seq<char>>>, y: Seq<char>) -> bool {
    exists|i: int| 0 <= i < lists.len() && (#[trigger] lists[i]).contains(y)
}

/// The skills that a workspace's run deploys depend on the members of its
/// active groups only as a set: lists of member lists with the same ids
/// between them have unions with the same ids, each once, so of the same
/// length (a skill shared by two groups is deployed once).
pub proof fn lemma_unions_of_equal_members_agree(a: Seq<Seq<Seq<char>>>, b: Seq<Seq<Seq<char>>>)
    requires
        forall|y: Seq<char>| #[trigger] in_some_list(a, y) <==> in_some_list(b, y),
    ensures
        forall|y: Seq<char>| #[trigger] union_of(a).contains(y) <==> union_of(b).contains(y),
        union_of(a).no_duplicates(),
        union_of(b).no_duplicates(),
        union_of(a).len() == union_of(b).len(),
{
    lemma_union_of_props(a);
    lemma_union_of_props(b);
    assert forall|y: Seq<char>| #[trigger] union_of(a).contains(y) <==> union_of(b).contains(y) by {
        assert(in_some_list(a, y) <==> in_some_list(b, y));
    }
    assert(union_of(a).to_set() =~= union_of(b).to_set());
    union_of(a).unique_seq_to_set();
    union_of(b).unique_seq_to_set();
}

/// The union of the ids of several lists: each id once, in the order of
/// first occurrence.
pub fn union_ids(lists: &Vec<Vec<String>>) -> (res: Vec<String>)
    ensures
        res.deep_view() == union_of(lists.deep_view()),
        res.deep_view().no_duplicates(),
        forall|y: Seq<char>|
            #[trigger] res.deep_view().contains(y) <==> exists|i: int|
                0 <= i < lists.len() && (#[trigger] lists.deep_view()[i]).contains(y),
{
    let mut out: Vec<String> = Vec::new();
    let mut i: usize = 0;
    while i < lists.len()
        invariant
            i <= lists.len(),
            out.deep_view() == union_of(lists.deep_view().take(i as int)),
        decreases lists.len() - i,
    {
        assert(lists.deep_view().take(i + 1).drop_last() =~= lists.deep_view().take(i as int));
        assert(lists.deep_view().take(i + 1).last() == lists[i as int].deep_view());
        let ghost start = out.deep_view();
        let list = &lists[i];
        let mut j: usize = 0;
        while j < list.len()
            invariant
                j <= list.len(),
                out.deep_view() == union_into(start, list.deep_view().take(j as int)),
            decreases list.len() - j,
        {
            assert(list.deep_view().take(j + 1).drop_last() =~= list.deep_view().take(j as int));
            assert(list.deep_view().take(j + 1).last() == list[j as int]@);
            insert_name(&mut out, list[j].clone());
            j = j + 1;
        }
        assert(list.deep_view().take(list.len() as int) =~= list.deep_view());
        i = i + 1;
    }
    assert(lists.deep_view().take(lists.len() as int) =~= lists.deep_view());
    proof {
        lemma_union_of_props(lists.deep_view());
    }
    out
}

proof fn lemma_union_of_props(lists: Seq<Seq<Seq<char>>>)
    ensures
        union_of(lists).no_duplicates(),
        forall|y: Seq<char>|
            #[trigger] union_of(lists).contains(y) <==> exists|i: int|
                0 <= i < lists.len() && (#[trigger] lists[i]).contains(y),
    decreases lists.len(),
{
    if lists.len() > 0 {
        let t = lists.drop_last();
        lemma_union_of_props(t);
        lemma_union_into_props(union_of(t), lists.last());
        assert forall|y: Seq<char>|
            #[trigger] union_of(lists).contains(y) <==> exists|i: int|
                0 <= i < lists.len() && (#[trigger] lists[i]).contains(y) by {
            if union_of(t).contains(y) {
                let i = choose|i: int| 0 <= i < t.len() && (#[trigger] t[i]).contains(y);
                assert(lists[i] == t[i]);
            }
            if lists.last().contains(y) {
                assert(lists[lists.len() - 1] == lists.last());
            }
            if exists|i: int| 0 <= i < lists.len() && (#[trigger] lists[i]).contains(y) {
                let i = choose|i: int| 0 <= i < lists.len() && (#[trigger] lists[i]).contains(y);
                if i < lists.len() - 1 {
                    assert(t[i] == lists[i]);
                }
            }
        }
    }
}

/// The ids of the groups that have `skill_id` as a member, in the order of
/// `groups`.
pub fn group_ids_with_member(groups: &Vec<SkillGroup>, skill_id: &str) -> (res: Vec<String>)
    ensures
        res.deep_view() == groups_with_member(groups@, skill_id@),
{
    let mut out: Vec<String> = Vec::new();
    let mut i: usize = 0;
    while i < groups.len()
        invariant
            i <= groups.len(),
            out.deep_view() == groups_with_member(groups@.take(i as int), skill_id@),
        decreases groups.len() - i,
    {
        assert(groups@.take(i + 1).drop_last() =~= groups@.take(i as int));
        assert(groups@.take(i + 1).last() == groups@[i as int]);
        if contains_name(&groups[i].member_ids, skill_id) {
            let ghost prev = out.deep_view();
            out.push(groups[i].id.clone());
            assert(out.deep_view() =~= prev.push(groups@[i as int].id@));
        }
        i = i + 1;
    }
    assert(groups@.take(groups.len() as int) =~= groups@);
    out
}

impl WorkspaceSkillService {
    /// Starts the synchronisation of the workspace `workspace_id`: the skills
    /// to deploy are the members of the groups active in it, each once. Only
    /// reads reach the database (see `sync_start_result`).
    pub fn sync_active_groups_to_workspace(db: &mut Database, workspace_id: &str) -> (res: Result<
        (WorkspaceSync, SyncStep),
        ServiceError,
    >)
        ensures
            final(db).log().len() >= old(db).log().len(),
            final(db).log().take(old(db).log().len() as int) == old(db).log(),
            sync_start_result(new_events(old(db).log(), final(db).log()), workspace_id@, res),
    {
        let ghost start = db.log();
        proof {
            assert(start.take(start.len() as int) =~= start);
            assert(new_events(start, start) =~= Seq::<DbEvent>::empty());
        }
        let r0 = db.get_workspace(workspace_id);
        proof {
            lemma_appended_one(start, start, db.log());
        }
        let ghost e0 = db.log().last();
        assert(new_events(start, db.log()) =~= seq![e0]);
        let ws = match r0 {
            Ok(Some(ws)) => ws,
            Ok(None) => {
                return Err(ServiceError::WorkspaceNotFound(String::from_str(workspace_id)));
            },
            Err(e) => {
                return Err(db_err(e));
            },
        };
        let ghost before1 = db.log();
        let r1 = db.get_workspace_active_group_ids(workspace_id);
        proof {
            lemma_appended_one(start, before1, db.log());
        }
        let ghost e1 = db.log().last();
        assert(new_events(start, db.log()) =~= seq![e0, e1]);
        let group_ids = match r1 {
            Ok(v) => v,
            Err(e) => {
                return Err(db_err(e));
            },
        };
        let mut member_lists: Vec<Vec<String>> = Vec::new();
        let mut i: usize = 0;
        while i < group_ids.len()
            invariant
                i <= group_ids.len(),
                start == old(db).log(),
                db.log().take(start.len() as int) == start,
                db.log().len() == start.len() + 2 + i,
                new_events(start, db.log())[0] == e0,
                new_events(start, db.log())[1] == e1,
                is_query(e0, SELECT_WORKSPACE_SQL@, seq![workspace_id@]),
                rows_of(e0) matches Some(rows) && rows.len() > 0 && workspace_row_decodes(rows[0]) && text_at(
                    rows[0],
                    2,
                ) == Some(ws.path@),
                is_query(e1, SELECT_ACTIVE_GROUP_IDS_OF_WORKSPACE_SQL@, seq![workspace_id@]),
                rows_of(e1) matches Some(id_rows) && column_texts(id_rows) == Some(group_ids.deep_view()),
                member_lists.len() == i,
                forall|k: int| 0 <= k < i ==> {
                    &&& is_query(#[trigger] new_events(start, db.log())[k + 2], SELECT_MEMBER_IDS_SQL@, seq![group_ids.deep_view()[k]])
                    &&& rows_of(new_events(start, db.log())[k + 2]) matches Some(mr) && column_texts(mr) == Some(member_lists.deep_view()[k])
                    &&& lists_ok(new_events(start, db.log())[k + 2])
                },
            decreases group_ids.len() - i,
        {
            let ghost before = db.log();
            let r = db.get_group_member_ids(group_ids[i].as_str());
            proof {
                lemma_appended_one(start, before, db.log());
                assert(group_ids.deep_view()[i as int] == group_ids[i as int]@);
                assert(new_events(start, db.log())[i + 2] == db.log().last());
            }
            match r {
                Ok(m) => {
                    let ghost prev = member_lists.deep_view();
                    member_lists.push(m);
                    assert(member_lists.deep_view() =~= prev.push(m.deep_view()));
                },
                Err(e) => {
                    proof {
                        let ev = new_events(start, db.log());
                        assert(!lists_ok(ev[i + 2]));
                        assert forall|k: int| 0 <= k < ev.len() implies #[trigger] ev[k] is Query by {
                            if k >= 2 && k < i + 2 {
                                assert(is_query(ev[(k - 2) + 2], SELECT_MEMBER_IDS_SQL@, seq![group_ids.deep_view()[k - 2]]));
                            }
                        }
                    }
                    return Err(db_err(e));
                },
            }
            i = i + 1;
        }
        let ghost ev = new_events(start, db.log());
        proof {
            assert(member_lists_of(ev) =~= member_lists.deep_view());
            assert forall|k: int| 0 <= k < ev.len() implies #[trigger] ev[k] is Query by {
                if k >= 2 {
                    assert(is_query(ev[(k - 2) + 2], SELECT_MEMBER_IDS_SQL@, seq![group_ids.deep_view()[k - 2]]));
                }
            }
        }
        Ok(Self::start_sync(&ws, &member_lists))
    }

    /// The synchronisation of `workspace` that deploys the members of
    /// `member_lists` (those of the groups active in it), each once, and its
    /// first step.
    pub fn start_sync(workspace: &Workspace, member_lists: &Vec<Vec<String>>) -> (res: (WorkspaceSync, SyncStep))
        ensures
            res.0.wf(),
            res.0.workspace_dir() == workspace.path@,
            res.0.skills() == union_of(member_lists.deep_view()),
            res.0.skills().no_duplicates(),
            forall|y: Seq<char>|
                #[trigger] res.0.skills().contains(y) <==> exists|i: int|
                    0 <= i < member_lists.len() && (#[trigger] member_lists.deep_view()[i]).contains(y),
            res.0.phase_of() is CreatingDir,
            res.1 is CreateSkillsDir,
    {
        let skill_ids = union_ids(member_lists);
        WorkspaceSync::new(workspace.path.clone(), skill_ids)
    }

    /// Checks or unchecks the group in the workspace: checking binds it to
    /// the workspace and marks it active, unchecking marks it not active and
    /// unbinds it (see `toggle_statements`). Then the workspace's
    /// synchronisation is started.
    pub fn toggle_group(db: &mut Database, workspace_id: &str, group_id: &str, active: bool) -> (res: Result<
        (WorkspaceSync, SyncStep),
        ServiceError,
    >)
        ensures
            final(db).log().len() >= old(db).log().len(),
            final(db).log().take(old(db).log().len() as int) == old(db).log(),
            toggle_result(new_events(old(db).log(), final(db).log()), workspace_id@, group_id@, active, res),
    {
        let ghost start = db.log();
        proof {
            assert(start.take(start.len() as int) =~= start);
            assert(new_events(start, start) =~= Seq::<DbEvent>::empty());
        }
        let r0 = db.get_workspace(workspace_id);
        proof {
            lemma_appended_one(start, start, db.log());
        }
        let ghost e0 = db.log().last();
        assert(new_events(start, db.log()) =~= seq![e0]);
        match r0 {
            Ok(Some(_)) => {},
            Ok(None) => {
                return Err(ServiceError::WorkspaceNotFound(String::from_str(workspace_id)));
            },
            Err(e) => {
                return Err(db_err(e));
            },
        }
        let ghost before1 = db.log();
        let r1 = if active {
            db.add_group_to_workspace(workspace_id, group_id)
        } else {
            db.toggle_workspace_group_active(workspace_id, group_id, false)
        };
        proof {
            lemma_appended_one(start, before1, db.log());
        }
        let ghost e1 = db.log().last();
        let ghost m1 = db.log();
        assert(new_events(start, m1) =~= seq![e0, e1]);
        if let Err(e) = r1 {
            return Err(db_err(e));
        }
        let r2 = if active {
            db.toggle_workspace_group_active(workspace_id, group_id, true)
        } else {
            db.remove_group_from_workspace(workspace_id, group_id)
        };
        proof {
            lemma_appended_one(start, m1, db.log());
        }
        let ghost e2 = db.log().last();
        let ghost mid = db.log();
        assert(new_events(start, mid) =~= seq![e0, e1, e2]);
        if let Err(e) = r2 {
            return Err(db_err(e));
        }
        let res = Self::sync_active_groups_to_workspace(db, workspace_id);
        proof {
            lemma_new_events_split(start, mid, db.log());
            let ev = new_events(start, db.log());
            assert(ev[0] == e0 && ev[1] == e1 && ev[2] == e2);
            assert(ev.skip(3) =~= new_events(mid, db.log()));
        }
        res
    }

    /// Starts the synchronisation of every workspace in which the group is
    /// active. A workspace whose run cannot be started is skipped.
    pub fn sync_workspaces_for_group(db: &mut Database, group_id: &str) -> (res: Result<
        Vec<(WorkspaceSync, SyncStep)>,
        ServiceError,
    >)
        ensures
            final(db).log().len() >= old(db).log().len(),
            final(db).log().take(old(db).log().len() as int) == old(db).log(),
            group_starts_result(new_events(old(db).log(), final(db).log()), group_id@, res),
            match res {
                Ok(runs) => forall|i: int| 0 <= i < runs.len() ==> (#[trigger] runs[i]).0.wf()
                    && runs[i].1 is CreateSkillsDir,
                Err(e) => e is Database,
            },
    {
        let ghost start = db.log();
        proof {
            assert(start.take(start.len() as int) =~= start);
            assert(new_events(start, start) =~= Seq::<DbEvent>::empty());
        }
        let r0 = db.get_workspaces_with_active_group(group_id);
        proof {
            lemma_appended_one(start, start, db.log());
        }
        let ghost e0 = db.log().last();
        let ghost mid = db.log();
        assert(new_events(start, mid) =~= seq![e0]);
        let workspace_ids = match r0 {
            Ok(v) => v,
            Err(e) => {
                return Err(db_err(e));
            },
        };
        let ghost ids = workspace_ids.deep_view();
        let mut runs: Vec<(WorkspaceSync, SyncStep)> = Vec::new();
        let mut i: usize = 0;
        proof {
            assert(mid.take(mid.len() as int) =~= mid);
            assert(new_events(mid, mid) =~= Seq::<DbEvent>::empty());
            assert(ids.take(0) =~= Seq::<Seq<char>>::empty());
        }
        while i < workspace_ids.len()
            invariant
                i <= workspace_ids.len(),
                ids == workspace_ids.deep_view(),
                start == old(db).log(),
                mid.len() == start.len() + 1,
                mid.take(start.len() as int) == start,
                new_events(start, mid) == seq![e0],
                db.log().len() >= mid.len(),
                db.log().take(mid.len() as int) == mid,
                starts_result(new_events(mid, db.log()), ids.take(i as int), runs@),
                forall|k: int| 0 <= k < runs.len() ==> (#[trigger] runs[k]).0.wf()
                    && runs[k].1 is CreateSkillsDir,
            decreases workspace_ids.len() - i,
        {
            let ghost before = db.log();
            let ghost runs0 = runs@;
            let r = Self::sync_active_groups_to_workspace(db, workspace_ids[i].as_str());
            let ghost rg = r;
            proof {
                lemma_new_events_split(mid, before, db.log());
                assert(workspace_ids[i as int]@ == ids[i as int]);
            }
            match r {
                Ok(run) => runs.push(run),
                Err(_) => {},
            }
            proof {
                let ev = new_events(mid, db.log());
                let n = new_events(mid, before).len() as int;
                let idn = ids.take(i + 1);
                assert(idn.last() == ids[i as int]);
                assert(idn.drop_last() =~= ids.take(i as int));
                assert(ev.skip(n) =~= new_events(before, db.log()));
                assert(ev.take(n) =~= new_events(mid, before));
                assert(sync_start_result(ev.skip(n), idn.last(), rg));
                if rg is Ok {
                    assert(runs@.drop_last() =~= runs0);
                }
                assert(starts_result(ev.take(n), idn.drop_last(), if rg is Ok { runs@.drop_last() } else { runs@ }));
                assert(starts_result(ev, idn, runs@));
            }
            i = i + 1;
        }
        proof {
            lemma_new_events_split(start, mid, db.log());
            assert(ids.take(ids.len() as int) =~= ids);
            assert(new_events(start, db.log()).skip(1) =~= new_events(mid, db.log()));
        }
        Ok(runs)
    }

    /// Starts the synchronisation of the workspaces of every group that has
    /// `skill_id` as a member (see `sync_workspaces_for_group`).
    pub fn sync_workspaces_for_skill(db: &mut Database, skill_id: &str) -> (res: Result<
        Vec<(WorkspaceSync, SyncStep)>,
        ServiceError,
    >)
        ensures
            final(db).log().take(old(db).log().len() as int) == old(db).log(),
            skill_starts_result(new_events(old(db).log(), final(db).log()), skill_id@, res),
            match res {
                Ok(runs) => forall|i: int| 0 <= i < runs.len() ==> (#[trigger] runs[i]).0.wf()
                    && runs[i].1 is CreateSkillsDir,
                Err(e) => e is Database,
            },
    {
        let ghost start = db.log();
        let r0 = db.get_all_skill_groups();
        let ghost gr = r0;
        let ghost mid = db.log();
        let ghost n0 = new_events(start, mid).len() as int;
        proof {
            assert(new_events(start, mid).take(n0) =~= new_events(start, mid));
        }
        let groups = match r0 {
            Ok(g) => g,
            Err(e) => {
                return Err(db_err(e));
            },
        };
        let ids = group_ids_with_member(&groups, skill_id);
        let ghost gids = ids.deep_view();
        let mut runs: Vec<(WorkspaceSync, SyncStep)> = Vec::new();
        let mut i: usize = 0;
        proof {
            assert(mid.take(mid.len() as int) =~= mid);
            assert(new_events(mid, mid) =~= Seq::<DbEvent>::empty());
            assert(gids.take(0) =~= Seq::<Seq<char>>::empty());
        }
        while i < ids.len()
            invariant
                i <= ids.len(),
                gids == ids.deep_view(),
                gids == groups_with_member(groups@, skill_id@),
                gr == Ok::<Vec<SkillGroup>, AppError>(groups),
                start == old(db).log(),
                mid.len() >= start.len(),
                mid.take(start.len() as int) == start,
                n0 == new_events(start, mid).len(),
                all_groups_result(new_events(start, mid), gr),
                db.log().len() >= mid.len(),
                db.log().take(mid.len() as int) == mid,
                groups_processed(new_events(mid, db.log()), gids.take(i as int), runs@),
                forall|k: int| 0 <= k < runs.len() ==> (#[trigger] runs[k]).0.wf()
                    && runs[k].1 is CreateSkillsDir,
            decreases ids.len() - i,
        {
            let ghost before = db.log();
            let ghost runs0 = runs@;
            let r = Self::sync_workspaces_for_group(db, ids[i].as_str());
            let ghost rg = r;
            proof {
                lemma_new_events_split(mid, before, db.log());
                assert(ids[i as int]@ == gids[i as int]);
            }
            let ghost ev = new_events(mid, db.log());
            let ghost m = new_events(mid, before).len() as int;
            proof {
                assert(ev.skip(m) =~= new_events(before, db.log()));
                assert(ev.take(m) =~= new_events(mid, before));
            }
            let mut more = match r {
                Ok(v) => v,
                Err(e) => {
                    proof {
                        lemma_new_events_split(start, mid, db.log());
                        let all = new_events(start, db.log());
                        assert(all.take(n0) =~= new_events(start, mid));
                        assert(all.skip(n0) =~= ev);
                        assert(stopped_at(ev, gids, i as int, m, runs0, rg));
                    }
                    return Err(e);
                },
            };
            let ghost added = more@;
            runs.append(&mut more);
            proof {
                assert(runs@ =~= runs0 + added);
                let idn = gids.take(i + 1);
                assert(idn.last() == gids[i as int]);
                assert(idn.drop_last() =~= gids.take(i as int));
                assert(runs@.take(runs@.len() - added.len()) =~= runs0);
                assert(runs@.skip(runs@.len() - added.len()) =~= added);
                assert(group_starts_result(ev.skip(m), idn.last(), rg));
                assert(groups_processed(ev, idn, runs@));
            }
            assert forall|k: int| 0 <= k < runs.len() implies (#[trigger] runs[k]).0.wf()
                && runs[k].1 is CreateSkillsDir by {
                if k >= runs0.len() {
                    assert(runs[k] == added[k - runs0.len()]);
                }
            }
            i = i + 1;
        }
        proof {
            lemma_new_events_split(start, mid, db.log());
            let all = new_events(start, db.log());
            assert(all.take(n0) =~= new_events(start, mid));
            assert(all.skip(n0) =~= new_events(mid, db.log()));
            assert(gids.take(gids.len() as int) =~= gids);
        }
        Ok(runs)
    }
}

} // verus!

verus! {

/// What a path resolves to, read recursively: the model of a directory tree
/// that `dir_content_equals` compares.
#[derive(Debug)]
pub enum FsNode {
    /// The path does not resolve (a dangling link, say).
    Missing,
    /// A file: its bytes, or `None` where it could not be read.
    File(Option<Vec<u8>>),
    /// A directory: its entries, or `None` where it could not be listed.
    Dir(Option<Vec<FsEntry>>),
}

/// A named entry of a directory.
#[derive(Debug)]
pub struct FsEntry {
    pub name: String,
    pub node: FsNode,
}

/// The node of the first entry named `name`.
pub open spec fn find_node(es: Seq<FsEntry>, name: Seq<char>) -> Option<FsNode>
    decreases es.len(),
{
    if es.len() == 0 {
        None
    } else if es[0].name@ == name {
        Some(es[0].node)
    } else {
        find_node(es.drop_first(), name)
    }
}

/// Whether two paths hold the same contents: two files that can both be read
/// and hold the same bytes, or two directories that can both be listed, are
/// not empty, have entries of the same names, and whose entries of the same
/// name hold the same contents. A path that does not resolve matches nothing.
pub open spec fn same_content(x: FsNode, y: FsNode) -> bool
    decreases x,
{
    match x {
        FsNode::File(Some(cx)) => match y {
            FsNode::File(Some(cy)) => cx@ == cy@,
            _ => false,
        },
        FsNode::Dir(Some(lx)) => match y {
            FsNode::Dir(Some(ly)) => {
                &&& lx.len() > 0
                &&& ly.len() > 0
                &&& forall|i: int|
                    0 <= i < lx.len() ==> match find_node(ly@, (#[trigger] lx@[i]).name@) {
                        Some(n) => same_content(lx@[i].node, n),
                        None => false,
                    }
                &&& forall|j: int|
                    0 <= j < ly.len() ==> match find_node(lx@, (#[trigger] ly@[j]).name@) {
                        Some(n) => !(n is Missing),
                        None => false,
                    }
            },
            _ => false,
        },
        _ => false,
    }
}

/// Whether two directories hold the same contents: both can be listed and
/// they hold the same contents in the sense of `same_content`.
pub open spec fn same_dir_content(x: FsNode, y: FsNode) -> bool {
    &&& x matches FsNode::Dir(Some(_))
    &&& y matches FsNode::Dir(Some(_))
    &&& same_content(x, y)
}

/// The index of the first entry named `name`.
fn find_entry(es: &Vec<FsEntry>, name: &str) -> (res: Option<usize>)
    ensures
        match res {
            Some(k) => k < es.len() && find_node(es@, name@) == Some(es@[k as int].node),
            None => find_node(es@, name@) is None,
        },
{
    let mut i: usize = 0;
    assert(es@.skip(0) =~= es@);
    while i < es.len()
        invariant
            i <= es.len(),
            find_node(es@, name@) == find_node(es@.skip(i as int), name@),
        decreases es.len() - i,
    {
        assert(es@.skip(i as int)[0] == es@[i as int]);
        if crate::services::names::name_eq(es[i].name.as_str(), name) {
            return Some(i);
        }
        assert(es@.skip(i as int).drop_first() =~= es@.skip(i + 1));
        i = i + 1;
    }
    None
}

/// Whether the two byte strings are equal.
fn bytes_equal(a: &Vec<u8>, b: &Vec<u8>) -> (res: bool)
    ensures
        res == (a@ == b@),
{
    if a.len() != b.len() {
        return false;
    }
    let mut i: usize = 0;
    while i < a.len()
        invariant
            i <= a.len(),
            a.len() == b.len(),
            forall|k: int| 0 <= k < i ==> a@[k] == b@[k],
        decreases a.len() - i,
    {
        if a[i] != b[i] {
            return false;
        }
        i = i + 1;
    }
    assert(a@ =~= b@);
    true
}

impl WorkspaceSkillService {
    /// Whether the two directories hold the same contents (see
    /// `same_dir_content`): anything but two listable directories differs.
    pub fn dir_content_equals(a: &FsNode, b: &FsNode) -> (res: bool)
        ensures
            res == same_dir_content(*a, *b),
    {
        match (a, b) {
            (FsNode::Dir(Some(_)), FsNode::Dir(Some(_))) => Self::node_content_equals(a, b),
            _ => false,
        }
    }

    /// Whether the two paths hold the same contents (see `same_content`).
    fn node_content_equals(a: &FsNode, b: &FsNode) -> (res: bool)
        ensures
            res == same_content(*a, *b),
        decreases a,
    {
        match a {
            FsNode::File(Some(ca)) => match b {
                FsNode::File(Some(cb)) => bytes_equal(ca, cb),
                _ => false,
            },
            FsNode::Dir(Some(la)) => match b {
                FsNode::Dir(Some(lb)) => {
                    let mut i: usize = 0;
                    while i < la.len()
                        invariant
                            i <= la.len(),
                            *a == FsNode::Dir(Some(*la)),
                            *b == FsNode::Dir(Some(*lb)),
                            forall|k: int|
                                0 <= k < i ==> match find_node(lb@, (#[trigger] la@[k]).name@) {
                                    Some(n) => same_content(la@[k].node, n),
                                    None => false,
                                },
                        decreases la.len() - i,
                    {
                        match find_entry(lb, la[i].name.as_str()) {
                            None => {
                                assert(find_node(lb@, la@[i as int].name@) is None);
                                return false;
                            },
                            Some(k) => {
                                proof {
                                    let ghost e = la@[i as int];
                                    assert(decreases_to!(*la => la@));
                                    assert(decreases_to!(la@ => e));
                                    assert(decreases_to!(e => e.node));
                                    let ghost opt: Option<Vec<FsEntry>> = Some(*la);
                                    assert(*a == FsNode::Dir(opt));
                                    assert(decreases_to!(*a => (*a)->Dir_0));
                                    assert(decreases_to!(opt => opt->Some_0));
                                    assert(opt->Some_0 == *la);
                                }
                                if !Self::node_content_equals(&la[i].node, &lb[k].node) {
                                    assert(!same_content(la@[i as int].node, lb@[k as int].node));
                                    return false;
                                }
                            },
                        }
                        i = i + 1;
                    }
                    let mut j: usize = 0;
                    while j < lb.len()
                        invariant
                            j <= lb.len(),
                            *a == FsNode::Dir(Some(*la)),
                            *b == FsNode::Dir(Some(*lb)),
                            forall|k: int|
                                0 <= k < la.len() ==> match find_node(lb@, (#[trigger] la@[k]).name@) {
                                    Some(n) => same_content(la@[k].node, n),
                                    None => false,
                                },
                            forall|k: int|
                                0 <= k < j ==> match find_node(la@, (#[trigger] lb@[k]).name@) {
                                    Some(n) => !(n is Missing),
                                    None => false,
                                },
                        decreases lb.len() - j,
                    {
                        match find_entry(la, lb[j].name.as_str()) {
                            None => {
                                assert(find_node(la@, lb@[j as int].name@) is None);
                                return false;
                            },
                            Some(k) => {
                                match &la[k].node {
                                    FsNode::Missing => {
                                        assert(find_node(la@, lb@[j as int].name@) == Some(FsNode::Missing));
                                        return false;
                                    },
                                    _ => {},
                                }
                            },
                        }
                        j = j + 1;
                    }
                    la.len() > 0 && lb.len() > 0
                },
                _ => false,
            },
            _ => false,
        }
    }

    /// Whether a directory without the marker is a copy of the store's
    /// directory of the same name: both hold the same contents.
    pub fn is_subset_of_ssot(candidate: &FsNode, ssot_source: &FsNode) -> (res: bool)
        ensures
            res == same_dir_content(*candidate, *ssot_source),
    {
        Self::dir_content_equals(candidate, ssot_source)
    }
}

/// Whether no directory of the tree lists two entries of the same name (as
/// no directory on disk does).
pub open spec fn names_unique(x: FsNode) -> bool
    decreases x,
{
    match x {
        FsNode::Dir(Some(l)) => {
            &&& forall|i: int, j: int|
                0 <= i < j < l.len() ==> (#[trigger] l@[i]).name@ != (#[trigger] l@[j]).name@
            &&& forall|i: int| 0 <= i < l.len() ==> names_unique(#[trigger] l@[i].node)
        },
        _ => true,
    }
}

proof fn lemma_find_node(es: Seq<FsEntry>, name: Seq<char>)
    ensures
        find_node(es, name) matches Some(n) ==> exists|k: int|
            0 <= k < es.len() && (#[trigger] es[k]).name@ == name && es[k].node == n,
        (exists|k: int| 0 <= k < es.len() && (#[trigger] es[k]).name@ == name) ==> find_node(
            es,
            name,
        ) is Some,
    decreases es.len(),
{
    if es.len() > 0 {
        lemma_find_node(es.drop_first(), name);
        if find_node(es, name) is Some && es[0].name@ != name {
            let n = find_node(es, name)->0;
            let k = choose|k: int| 0 <= k < es.drop_first().len() && (#[trigger] es.drop_first()[k]).name@ == name && es.drop_first()[k].node == n;
            assert(es[k + 1] == es.drop_first()[k]);
        }
        if exists|k: int| 0 <= k < es.len() && (#[trigger] es[k]).name@ == name {
            let k = choose|k: int| 0 <= k < es.len() && (#[trigger] es[k]).name@ == name;
            if k > 0 {
                assert(es.drop_first()[k - 1] == es[k]);
            }
        }
    }
}

proof fn lemma_find_node_unique(es: Seq<FsEntry>, k: int)
    requires
        0 <= k < es.len(),
        forall|i: int, j: int| 0 <= i < j < es.len() ==> (#[trigger] es[i]).name@ != (#[trigger] es[j]).name@,
    ensures
        find_node(es, es[k].name@) == Some(es[k].node),
    decreases es.len(),
{
    if k > 0 {
        let t = es.drop_first();
        assert(es[0].name@ != es[k].name@);
        assert(t[k - 1] == es[k]);
        assert forall|i: int, j: int| 0 <= i < j < t.len() implies (#[trigger] t[i]).name@ != (#[trigger] t[j]).name@ by {
            assert(t[i] == es[i + 1] && t[j] == es[j + 1]);
        }
        lemma_find_node_unique(t, k - 1);
    }
}

proof fn lemma_same_content_flips(x: FsNode, y: FsNode)
    requires
        names_unique(x),
        names_unique(y),
        same_content(x, y),
    ensures
        same_content(y, x),
    decreases x,
{
    match x {
        FsNode::Dir(Some(lx)) => match y {
            FsNode::Dir(Some(ly)) => {
                assert forall|j: int| 0 <= j < ly.len() implies match find_node(lx@, (#[trigger] ly@[j]).name@) {
                    Some(n) => same_content(ly@[j].node, n),
                    None => false,
                } by {
                    let name = ly@[j].name@;
                    lemma_find_node(lx@, name);
                    let n = find_node(lx@, name)->0;
                    let k = choose|k: int| 0 <= k < lx@.len() && (#[trigger] lx@[k]).name@ == name && lx@[k].node == n;
                    lemma_find_node_unique(ly@, j);
                    assert(find_node(ly@, lx@[k].name@) == Some(ly@[j].node));
                    assert(same_content(lx@[k].node, ly@[j].node));
                    assert(names_unique(lx@[k].node));
                    assert(names_unique(ly@[j].node));
                    let ghost opt: Option<Vec<FsEntry>> = Some(lx);
                    assert(decreases_to!(x => x->Dir_0));
                    assert(decreases_to!(opt => opt->Some_0));
                    assert(decreases_to!(lx => lx@));
                    assert(decreases_to!(lx@ => lx@[k]));
                    assert(decreases_to!(lx@[k] => lx@[k].node));
                    lemma_same_content_flips(lx@[k].node, ly@[j].node);
                }
                assert forall|i: int| 0 <= i < lx.len() implies match find_node(ly@, (#[trigger] lx@[i]).name@) {
                    Some(n) => !(n is Missing),
                    None => false,
                } by {
                    let name = lx@[i].name@;
                    let m = find_node(ly@, name)->0;
                    assert(same_content(lx@[i].node, m));
                }
            },
            _ => {},
        },
        _ => {},
    }
}

/// The comparison of two trees does not depend on their order: `a` holds the
/// same contents as `b` exactly when `b` holds the same contents as `a`
/// (for trees whose directories do not list a name twice).
pub proof fn lemma_same_content_symmetric(a: FsNode, b: FsNode)
    requires
        names_unique(a),
        names_unique(b),
    ensures
        same_content(a, b) == same_content(b, a),
        same_dir_content(a, b) == same_dir_content(b, a),
{
    if same_content(a, b) {
        lemma_same_content_flips(a, b);
    }
    if same_content(b, a) {
        lemma_same_content_flips(b, a);
    }
}

/// An empty directory, or one that cannot be listed, holds the same contents
/// as nothing; neither does a path that does not resolve; and a file is no
/// directory, so it matches no directory comparison.
pub proof fn lemma_empty_dir_matches_nothing(empty: Vec<FsEntry>, b: FsNode)
    requires
        empty.len() == 0,
    ensures
        !same_content(FsNode::Dir(Some(empty)), b),
        !same_content(FsNode::Dir(None), b),
        !same_content(FsNode::Missing, b),
        !same_content(b, FsNode::Missing),
        forall|bytes: Option<Vec<u8>>| !#[trigger] same_dir_content(FsNode::File(bytes), b),
{
}


/// Two readable files count as having the same content exactly when they
/// are equally long and equal at every byte: a copy with bytes added,
/// removed or changed anywhere is not the store's.
pub proof fn lemma_files_match_byte_for_byte(x: Vec<u8>, y: Vec<u8>)
    ensures
        same_content(FsNode::File(Some(x)), FsNode::File(Some(y))) <==> (x@.len() == y@.len() && forall|k: int|
            0 <= k < x@.len() ==> x@[k] == y@[k]),
{
    if x@.len() == y@.len() && forall|k: int| 0 <= k < x@.len() ==> x@[k] == y@[k] {
        assert(x@ =~= y@);
    }
}

/// A file that differs from the store's in its length (bytes appended or
/// cut off) never counts as the same content.
pub proof fn lemma_files_of_other_lengths_differ(x: Vec<u8>, y: Vec<u8>)
    requires
        x@.len() != y@.len(),
    ensures
        !same_content(FsNode::File(Some(x)), FsNode::File(Some(y))),
        !same_content(FsNode::File(Some(y)), FsNode::File(Some(x))),
{
}

/// Two directories that each hold one file under the same name have the
/// same content exactly when the two files are byte for byte the same; a
/// copy whose file has text appended is not the store's.
pub proof fn lemma_one_file_directories_match_by_bytes(da: Vec<FsEntry>, db: Vec<FsEntry>, x: Vec<u8>, y: Vec<u8>)
    requires
        da@.len() == 1,
        db@.len() == 1,
        da@[0].name@ == db@[0].name@,
        da@[0].node == FsNode::File(Some(x)),
        db@[0].node == FsNode::File(Some(y)),
    ensures
        same_content(FsNode::Dir(Some(da)), FsNode::Dir(Some(db))) <==> x@ == y@,
{
    assert(find_node(db@, da@[0].name@) == Some(db@[0].node));
    assert(find_node(da@, db@[0].name@) == Some(da@[0].node));
    lemma_files_match_byte_for_byte(x, y);
    if x@ == y@ {
        assert(same_content(da@[0].node, db@[0].node));
    }
    if same_content(FsNode::Dir(Some(da)), FsNode::Dir(Some(db))) {
        assert(match find_node(db@, da@[0].name@) {
            Some(n) => same_content(da@[0].node, n),
            None => false,
        });
        assert(x@ =~= y@);
    }
}

/// The groups selected for a skill are those whose member list holds it,
/// whatever their other fields (their own active flag among them): an id is
/// selected exactly when some group with that id has the skill as a member.
pub proof fn lemma_groups_with_member_are_those_holding_it(groups: Seq<SkillGroup>, skill_id: Seq<char>)
    ensures
        forall|x: Seq<char>|
            #[trigger] groups_with_member(groups, skill_id).contains(x) <==> exists|i: int|
                0 <= i < groups.len() && (#[trigger] groups[i]).id@ == x && groups[i].member_ids.deep_view().contains(
                    skill_id,
                ),
    decreases groups.len(),
{
    if groups.len() > 0 {
        let init = groups.drop_last();
        lemma_groups_with_member_are_those_holding_it(init, skill_id);
        let r = groups_with_member(init, skill_id);
        let last = groups.last();
        assert forall|x: Seq<char>|
            #[trigger] groups_with_member(groups, skill_id).contains(x) <==> exists|i: int|
                0 <= i < groups.len() && (#[trigger] groups[i]).id@ == x && groups[i].member_ids.deep_view().contains(
                    skill_id,
                ) by {
            let holds = last.member_ids.deep_view().contains(skill_id);
            if holds {
                assert(groups_with_member(groups, skill_id) == r.push(last.id@));
            } else {
                assert(groups_with_member(groups, skill_id) == r);
            }
            if groups_with_member(groups, skill_id).contains(x) {
                if r.contains(x) {
                    let i = choose|i: int|
                        0 <= i < init.len() && (#[trigger] init[i]).id@ == x && init[i].member_ids.deep_view().contains(
                            skill_id,
                        );
                    assert(groups[i] == init[i]);
                } else {
                    let k = choose|k: int| 0 <= k < groups_with_member(groups, skill_id).len()
                        && groups_with_member(groups, skill_id)[k] == x;
                    assert(holds);
                    assert(k == r.len());
                    assert(groups[groups.len() - 1] == last);
                }
            }
            if exists|i: int|
                0 <= i < groups.len() && (#[trigger] groups[i]).id@ == x && groups[i].member_ids.deep_view().contains(
                    skill_id,
                ) {
                let i = choose|i: int|
                    0 <= i < groups.len() && (#[trigger] groups[i]).id@ == x && groups[i].member_ids.deep_view().contains(
                        skill_id,
                    );
                if i < groups.len() - 1 {
                    assert(init[i] == groups[i]);
                    assert(r.contains(x));
                    let k = choose|k: int| 0 <= k < r.len() && r[k] == x;
                    if holds {
                        assert(r.push(last.id@)[k] == x);
                    }
                } else {
                    assert(groups[i] == last);
                    assert(r.push(last.id@)[r.len() as int] == x);
                }
            }
        }
    }
}

/// A manifest entry is safe to join to the skills directory exactly when it
/// is a non-empty name without a path separator (`/` or a backslash) that is
/// neither `.` nor `..`: any other character, `_` or `-` or a dot inside a
/// name among them, is allowed.
pub proof fn lemma_safe_names_are_plain_names(n: Seq<char>)
    ensures
        is_safe_entry_name(n) <==> (n.len() > 0 && (forall|k: int| 0 <= k < n.len() ==> n[k] != '/' && n[k] != '\\')
            && !(n.len() == 1 && n[0] == '.') && !(n.len() == 2 && n[0] == '.' && n[1] == '.')),
{
    if n.contains('/') {
        let k = choose|k: int| 0 <= k < n.len() && n[k] == '/';
        assert(n[k] == '/');
    }
    if n.contains('\\') {
        let k = choose|k: int| 0 <= k < n.len() && n[k] == '\\';
        assert(n[k] == '\\');
    }
    if n.len() == 1 && n[0] == '.' {
        assert(n =~= seq!['.']);
    }
    if n.len() == 2 && n[0] == '.' && n[1] == '.' {
        assert(n =~= seq!['.', '.']);
    }
    if n == seq!['.'] {
        assert(n[0] == '.');
    }
    if n == seq!['.', '.'] {
        assert(n[0] == '.' && n[1] == '.');
    }
}

/// Reading a manifest keeps every plain name it lists (non-empty, without a
/// path separator, neither `.` nor `..`), so a deployment it records stays
/// tracked and is removed once it is no longer wanted.
pub proof fn lemma_manifest_keeps_plain_names(entries: Seq<Seq<char>>, n: Seq<char>)
    requires
        entries.contains(n),
        n.len() > 0,
        forall|k: int| 0 <= k < n.len() ==> n[k] != '/' && n[k] != '\\',
        !(n.len() == 1 && n[0] == '.'),
        !(n.len() == 2 && n[0] == '.' && n[1] == '.'),
    ensures
        safe_entry_set(entries).contains(n),
{
    lemma_safe_names_are_plain_names(n);
    lemma_safe_entry_set_props(entries);
}

/// A link lies inside the store exactly when the store's components are,
/// in order, the first components of the link's target; one component that
/// differs at any depth puts it outside.
pub proof fn lemma_inside_store_is_a_component_prefix(target: Seq<Seq<u8>>, base: Seq<Seq<u8>>)
    ensures
        components_start_with(target, base) <==> (base.len() <= target.len() && target.subrange(0, base.len() as int)
            == base),
        forall|i: int| 0 <= i < base.len() && i < target.len() && target[i] != base[i] ==> !components_start_with(
            target,
            base,
        ),
        components_start_with(base + target, base),
{
    if base.len() <= target.len() && target.subrange(0, base.len() as int) == base {
        assert forall|i: int| 0 <= i < base.len() implies #[trigger] target[i] == base[i] by {
            assert(target.subrange(0, base.len() as int)[i] == target[i]);
        }
    }
    if components_start_with(target, base) {
        assert(target.subrange(0, base.len() as int) =~= base);
    }
    assert forall|i: int| 0 <= i < base.len() implies #[trigger] (base + target)[i] == base[i] by {}
}

/// A link into the skills store with a plain name is this tool's whether or
/// not its target still exists: a first run adopts it, a run that has not
/// recorded it recovers it, and its inspection finds it still managed.
pub proof fn lemma_links_into_the_store_are_ours(e: ScannedEntry, old: Seq<Seq<char>>)
    requires
        e.name matches Some(n) && n@.len() > 0 && (forall|k: int| 0 <= k < n@.len() ==> n@[k] != '/' && n@[k] != '\\')
            && !(n@.len() == 1 && n@[0] == '.') && !(n@.len() == 2 && n@[0] == '.' && n@[1] == '.'),
        e.state matches PathState::Symlink { target_in_ssot, .. } && target_in_ssot,
    ensures
        bootstrap_adopts(e),
        !old.contains(e.name->0@) ==> is_orphan(e, old),
        still_managed(e.state),
{
    lemma_safe_names_are_plain_names(e.name->0@);
}

/// Whether a link's target exists does not change whether a first run
/// adopts it or a run recovers it: only where the target lies counts.
pub proof fn lemma_adoption_ignores_whether_the_target_exists(e: ScannedEntry, old: Seq<Seq<char>>, in_ssot: bool)
    requires
        e.state matches PathState::Symlink { target_in_ssot, .. } && target_in_ssot == in_ssot,
    ensures
        bootstrap_adopts(e) == bootstrap_adopts(
            ScannedEntry { state: PathState::Symlink { target_in_ssot: in_ssot, target_exists: true }, ..e },
        ),
        bootstrap_adopts(e) == bootstrap_adopts(
            ScannedEntry { state: PathState::Symlink { target_in_ssot: in_ssot, target_exists: false }, ..e },
        ),
        is_orphan(e, old) == is_orphan(
            ScannedEntry { state: PathState::Symlink { target_in_ssot: in_ssot, target_exists: false }, ..e },
            old,
        ),
{
}

} // verus!
