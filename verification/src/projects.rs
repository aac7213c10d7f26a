//! The shell's list of local projects (the single source of the project list and of
//! its context-menu actions), project ids, and the names of permanent worktrees.
use crate::text::{
    decimal, hex_fixed, push_char, push_decimal, push_hex_fixed, seq_trim, str_eq, to_string, trim,
};
use vstd::prelude::*;

verus! {

/// One project of the list.
#[derive(Debug, Clone, PartialEq)]
pub struct ProjectEntry {
    pub id: String,
    pub name: String,
    pub path: String,
    pub pinned: bool,
    /// Whether the chats of this project are archived.
    pub archived_chats: bool,
    pub unread_chats: u32,
    /// When everything was last marked read (Unix milliseconds).
    pub read_at: Option<u64>,
    pub created_at: u64,
    pub updated_at: u64,
}

/// A permanent worktree that was created and added to the list as a new project.
#[derive(Debug, Clone, PartialEq)]
pub struct ProjectWorktreeResult {
    pub entry: ProjectEntry,
    pub target: String,
    pub branch: String,
}

impl ProjectEntry {
    /// A copy of the entry.
    pub fn copy(&self) -> (r: Self)
        ensures
            r == *self,
    {
        ProjectEntry {
            id: self.id.clone(),
            name: self.name.clone(),
            path: self.path.clone(),
            pinned: self.pinned,
            archived_chats: self.archived_chats,
            unread_chats: self.unread_chats,
            read_at: self.read_at,
            created_at: self.created_at,
            updated_at: self.updated_at,
        }
    }
}

/// The time since the Unix epoch as whole seconds and the nanoseconds beyond them,
/// or `None` when the system clock is set before the epoch.
#[verifier::external_body]
fn since_unix_epoch() -> (r: Option<(u64, u32)>)
    ensures
        r matches Some((_, nanos)) ==> nanos < 1_000_000_000,
{
    match std::time::SystemTime::now().duration_since(std::time::UNIX_EPOCH) {
        Ok(d) => Some((d.as_secs(), d.subsec_nanos())),
        Err(_) => None,
    }
}

/// Milliseconds of a duration, truncated to 64 bits as `as u64` does.
pub open spec fn truncated_millis(secs: nat, nanos: nat) -> nat {
    (secs * 1000 + nanos / 1_000_000) % 0x1_0000_0000_0000_0000
}

/// The milliseconds of a duration of `secs` seconds and `nanos` nanoseconds, as a
/// `u64` (wrapping past its range).
pub fn millis_of(secs: u64, nanos: u32) -> (r: u64)
    ensures
        r == truncated_millis(secs as nat, nanos as nat),
{
    let total: u128 = secs as u128 * 1000 + (nanos / 1_000_000) as u128;
    (total % 0x1_0000_0000_0000_0000u128) as u64
}

/// The current time in Unix milliseconds (0 when the clock is before the epoch).
pub fn now_millis() -> (r: u64)
    ensures
        exists|secs: u64, nanos: u32| nanos < 1_000_000_000 && r == truncated_millis(secs as nat, nanos as nat),
{
    match since_unix_epoch() {
        Some((secs, nanos)) => millis_of(secs, nanos),
        None => {
            assert(truncated_millis(0, 0) == 0);
            millis_of(0, 0)
        },
    }
}

/// The hash that a `std::collections::hash_map::DefaultHasher` made by `new()` (whose
/// keys are fixed) gives a path after hashing it as a `str`.
pub uninterp spec fn path_hash(path: Seq<char>) -> u64;

/// `DefaultHasher::new()`, `Hash for str` and `Hasher::finish` on a path.
#[verifier::external_body]
fn hash_path(path: &str) -> (r: u64)
    ensures
        r == path_hash(path@),
{
    let mut hasher = std::collections::hash_map::DefaultHasher::new();
    std::hash::Hash::hash(path, &mut hasher);
    std::hash::Hasher::finish(&hasher)
}

/// A project id: the time in nanoseconds in decimal, then the path's hash as 16
/// lowercase hexadecimal digits.
pub open spec fn project_id(nanos: nat, hash: nat) -> Seq<char> {
    decimal(nanos) + hex_fixed(hash, 16)
}

pub fn format_id(nanos: u128, hash: u64) -> (r: String)
    ensures
        r@ == project_id(nanos as nat, hash as nat),
{
    let mut out = String::new();
    push_decimal(&mut out, nanos);
    push_hex_fixed(&mut out, hash, 16);
    assert(out@ =~= project_id(nanos as nat, hash as nat));
    out
}

/// A stable and unique id for a new project at `path`, from the current time in
/// nanoseconds (read from the clock) and the path's hash.
pub fn make_id(path: &str) -> (r: String)
    ensures
        exists|nanos: nat| r@ == project_id(nanos, path_hash(path@) as nat),
{
    let hash = hash_path(path);
    let nanos: u128 = match since_unix_epoch() {
        Some((secs, n)) => secs as u128 * 1_000_000_000 + n as u128,
        None => 0,
    };
    format_id(nanos, hash)
}

/// `char::is_alphanumeric` (Unicode `Alphabetic` or `Numeric`).
pub uninterp spec fn alphanumeric(c: char) -> bool;

/// `char::is_alphanumeric`.
#[verifier::external_body]
fn char_is_alphanumeric(c: char) -> (r: bool)
    ensures
        r == alphanumeric(c),
{
    c.is_alphanumeric()
}

/// An ASCII letter or digit (all of which `char::is_alphanumeric` accepts).
pub open spec fn ascii_alphanumeric(c: char) -> bool {
    ('a' <= c && c <= 'z') || ('A' <= c && c <= 'Z') || ('0' <= c && c <= '9')
}

/// A character that may stay in a directory or branch name: a letter or digit of any
/// script, `-`, `_` or `.`.
pub open spec fn kept(c: char) -> bool {
    ascii_alphanumeric(c) || alphanumeric(c) || c == '-' || c == '_' || c == '.'
}

/// Every character that may not stay replaced by `-`.
pub open spec fn component_chars(s: Seq<char>) -> Seq<char> {
    s.map_values(|c: char| if kept(c) { c } else { '-' })
}

pub open spec fn is_edge(c: char) -> bool {
    c == '-' || c == '.'
}

pub open spec fn strip_edge_start(s: Seq<char>) -> Seq<char>
    decreases s.len(),
{
    if s.len() > 0 && is_edge(s[0]) {
        strip_edge_start(s.drop_first())
    } else {
        s
    }
}

pub open spec fn strip_edge_end(s: Seq<char>) -> Seq<char>
    decreases s.len(),
{
    if s.len() > 0 && is_edge(s.last()) {
        strip_edge_end(s.drop_last())
    } else {
        s
    }
}

/// A string made fit for a directory or branch name: characters other than
/// letters, digits (of any script), `-`, `_` and `.` become `-`, leading and trailing
/// `-` and `.` go, and an empty result becomes `worktree`.
pub open spec fn sanitized(s: Seq<char>) -> Seq<char> {
    let t = strip_edge_end(strip_edge_start(component_chars(s)));
    if t.len() == 0 {
        "worktree"@
    } else {
        t
    }
}

proof fn lemma_strip_start_skip(s: Seq<char>, i: int)
    requires
        0 <= i <= s.len(),
        forall|j: int| 0 <= j < i ==> is_edge(#[trigger] s[j]),
    ensures
        strip_edge_start(s) == strip_edge_start(s.skip(i)),
    decreases i,
{
    if i > 0 {
        assert(s.drop_first().skip(i - 1) =~= s.skip(i));
        lemma_strip_start_skip(s.drop_first(), i - 1);
    } else {
        assert(s.skip(0) =~= s);
    }
}

proof fn lemma_strip_end_take(s: Seq<char>, j: int)
    requires
        0 <= j <= s.len(),
        forall|k: int| j <= k < s.len() ==> is_edge(#[trigger] s[k]),
    ensures
        strip_edge_end(s) == strip_edge_end(s.take(j)),
    decreases s.len() - j,
{
    if j < s.len() {
        assert(s.drop_last().take(j) =~= s.take(j));
        lemma_strip_end_take(s.drop_last(), j);
    } else {
        assert(s.take(j) =~= s);
    }
}

pub fn sanitize_component(input: &str) -> (r: String)
    ensures
        r@ == sanitized(input@),
{
    let n = input.unicode_len();
    let mut out = String::new();
    let mut i: usize = 0;
    while i < n
        invariant
            n == input@.len(),
            i <= n,
            out@ == component_chars(input@.take(i as int)),
        decreases n - i,
    {
        let c = input.get_char(i);
        let ascii = ('a' <= c && c <= 'z') || ('A' <= c && c <= 'Z') || ('0' <= c && c <= '9');
        if ascii || char_is_alphanumeric(c) || c == '-' || c == '_' || c == '.' {
            push_char(&mut out, c);
        } else {
            push_char(&mut out, '-');
        }
        assert(input@.take(i + 1) =~= input@.take(i as int).push(c));
        assert(out@ =~= component_chars(input@.take(i + 1)));
        i = i + 1;
    }
    assert(input@.take(n as int) =~= input@);
    let ghost m = out@;
    let len = out.unicode_len();
    let mut a: usize = 0;
    while a < len && (out.get_char(a) == '-' || out.get_char(a) == '.')
        invariant
            len == m.len(),
            out@ == m,
            a <= len,
            forall|j: int| 0 <= j < a ==> is_edge(#[trigger] m[j]),
        decreases len - a,
    {
        a = a + 1;
    }
    proof {
        lemma_strip_start_skip(m, a as int);
    }
    let mut b: usize = len;
    while b > a && (out.get_char(b - 1) == '-' || out.get_char(b - 1) == '.')
        invariant
            len == m.len(),
            out@ == m,
            a <= b <= len,
            forall|k: int| b <= k < len ==> is_edge(#[trigger] m[k]),
        decreases b,
    {
        b = b - 1;
    }
    let ghost t = m.skip(a as int);
    proof {
        assert(a == len || !is_edge(m[a as int]));
        assert(strip_edge_start(t) == t);
        assert forall|k: int| (b - a) <= k < t.len() implies is_edge(#[trigger] t[k]) by {
            assert(t[k] == m[k + a]);
        }
        lemma_strip_end_take(t, b - a);
        assert(t.take(b - a) =~= m.subrange(a as int, b as int));
        if b > a {
            assert(t.take(b - a).last() == m[b - 1]);
            assert(strip_edge_end(t.take(b - a)) == t.take(b - a));
        }
    }
    if b == a {
        return String::from_str("worktree");
    }
    to_string(out.substring_char(a, b))
}

proof fn lemma_strip_start_suffix(s: Seq<char>)
    ensures
        exists|k: int| 0 <= k <= s.len() && strip_edge_start(s) == s.skip(k),
        strip_edge_start(s).len() > 0 ==> !is_edge(strip_edge_start(s)[0]),
    decreases s.len(),
{
    if s.len() > 0 && is_edge(s[0]) {
        lemma_strip_start_suffix(s.drop_first());
        let k = choose|k: int| 0 <= k <= s.drop_first().len() && strip_edge_start(s.drop_first()) == s.drop_first().skip(k);
        assert(s.drop_first().skip(k) =~= s.skip(k + 1));
    } else {
        assert(s.skip(0) =~= s);
    }
}

proof fn lemma_strip_end_prefix(s: Seq<char>)
    ensures
        exists|j: int| 0 <= j <= s.len() && strip_edge_end(s) == s.take(j),
        strip_edge_end(s).len() > 0 ==> !is_edge(strip_edge_end(s).last()),
    decreases s.len(),
{
    if s.len() > 0 && is_edge(s.last()) {
        lemma_strip_end_prefix(s.drop_last());
        let j = choose|j: int| 0 <= j <= s.drop_last().len() && strip_edge_end(s.drop_last()) == s.drop_last().take(j);
        assert(s.drop_last().take(j) =~= s.take(j));
    } else {
        assert(s.take(s.len() as int) =~= s);
    }
}

/// A text that is already fit: non-empty, only kept characters, and neither
/// starting nor ending with `-` or `.`.
pub open spec fn fit_component(y: Seq<char>) -> bool {
    &&& y.len() > 0
    &&& forall|i: int| 0 <= i < y.len() ==> kept(#[trigger] y[i])
    &&& !is_edge(y[0])
    &&& !is_edge(y.last())
}

proof fn lemma_fit_is_fixed(y: Seq<char>)
    requires
        fit_component(y),
    ensures
        sanitized(y) == y,
{
    assert(component_chars(y) =~= y);
    assert(strip_edge_start(y) == y);
    assert(strip_edge_end(y) == y);
}

proof fn lemma_sanitized_is_fit(x: Seq<char>)
    ensures
        fit_component(sanitized(x)),
{
    let m = component_chars(x);
    assert forall|i: int| 0 <= i < m.len() implies kept(#[trigger] m[i]) by {}
    let a = strip_edge_start(m);
    lemma_strip_start_suffix(m);
    let k = choose|k: int| 0 <= k <= m.len() && strip_edge_start(m) == m.skip(k);
    let t = strip_edge_end(a);
    lemma_strip_end_prefix(a);
    let j = choose|j: int| 0 <= j <= a.len() && strip_edge_end(a) == a.take(j);
    if t.len() == 0 {
        reveal_strlit("worktree");
        let w = "worktree"@;
        assert(w =~= seq!['w', 'o', 'r', 'k', 't', 'r', 'e', 'e']);
        assert forall|i: int| 0 <= i < w.len() implies kept(#[trigger] w[i]) by {
            assert(ascii_alphanumeric(w[i]));
        }
    } else {
        assert forall|i: int| 0 <= i < t.len() implies kept(#[trigger] t[i]) by {
            assert(t[i] == a[i]);
            assert(a[i] == m[i + k]);
        }
        if !is_edge(a[0]) {
            assert(t[0] == a[0]);
        }
    }
}

/// Making a name fit twice changes nothing: what `sanitize_component` gives back is
/// already a fit directory and branch name.
pub proof fn law_sanitize_is_idempotent(x: Seq<char>)
    ensures
        fit_component(sanitized(x)),
        sanitized(sanitized(x)) == sanitized(x),
{
    lemma_sanitized_is_fit(x);
    lemma_fit_is_fixed(sanitized(x));
}

/// The index of the first project with id `id`, or the list's length when there is
/// none.
pub open spec fn index_of_id(entries: Seq<ProjectEntry>, id: Seq<char>) -> int
    decreases entries.len(),
{
    if entries.len() == 0 {
        0
    } else if entries[0].id@ == id {
        0
    } else {
        1 + index_of_id(entries.drop_first(), id)
    }
}

proof fn lemma_index_of_id(entries: Seq<ProjectEntry>, id: Seq<char>, k: int)
    requires
        0 <= k <= entries.len(),
        k < entries.len() ==> entries[k].id@ == id,
        forall|j: int| 0 <= j < k ==> entries[j].id@ != id,
    ensures
        index_of_id(entries, id) == k,
    decreases entries.len(),
{
    if entries.len() > 0 && k > 0 {
        assert forall|j: int| 0 <= j < k - 1 implies entries.drop_first()[j].id@ != id by {
            assert(entries.drop_first()[j] == entries[j + 1]);
        }
        lemma_index_of_id(entries.drop_first(), id, k - 1);
    }
}

proof fn lemma_index_of_id_found(entries: Seq<ProjectEntry>, id: Seq<char>)
    ensures
        0 <= index_of_id(entries, id) <= entries.len(),
        index_of_id(entries, id) < entries.len() ==> entries[index_of_id(entries, id)].id@ == id,
    decreases entries.len(),
{
    if entries.len() > 0 && entries[0].id@ != id {
        lemma_index_of_id_found(entries.drop_first(), id);
    }
}

/// The index of the first project with the given id (the list's length if none).
pub fn find_project_index(entries: &[ProjectEntry], id: &str) -> (r: usize)
    ensures
        r == index_of_id(entries@, id@),
        r <= entries@.len(),
{
    let mut i: usize = 0;
    while i < entries.len()
        invariant
            i <= entries@.len(),
            forall|j: int| 0 <= j < i ==> entries@[j].id@ != id@,
        decreases entries@.len() - i,
    {
        if str_eq(entries[i].id.as_str(), id) {
            proof {
                lemma_index_of_id(entries@, id@, i as int);
            }
            return i;
        }
        i = i + 1;
    }
    proof {
        lemma_index_of_id(entries@, id@, i as int);
    }
    i
}

/// Some project of the list lives at `path`.
pub open spec fn has_path(entries: Seq<ProjectEntry>, path: Seq<char>) -> bool {
    exists|i: int| 0 <= i < entries.len() && #[trigger] entries[i].path@ == path
}

/// No two projects of the list live at the same path.
pub open spec fn paths_distinct(entries: Seq<ProjectEntry>) -> bool {
    forall|i: int, j: int| 0 <= i < j < entries.len() ==> #[trigger] entries[i].path@ != #[trigger] entries[j].path@
}

fn path_listed(entries: &[ProjectEntry], path: &str) -> (r: bool)
    ensures
        r == has_path(entries@, path@),
{
    let mut i: usize = 0;
    while i < entries.len()
        invariant
            i <= entries@.len(),
            forall|j: int| 0 <= j < i ==> #[trigger] entries@[j].path@ != path@,
        decreases entries@.len() - i,
    {
        if str_eq(entries[i].path.as_str(), path) {
            return true;
        }
        i = i + 1;
    }
    false
}

/// A project just added: not pinned, chats neither archived nor unread, never marked
/// read, created and updated at `now`.
pub open spec fn fresh_entry(e: ProjectEntry, id: Seq<char>, name: Seq<char>, path: Seq<char>, now: u64) -> bool {
    &&& e.id@ == id
    &&& e.name@ == name
    &&& e.path@ == path
    &&& !e.pinned
    &&& !e.archived_chats
    &&& e.unread_chats == 0
    &&& e.read_at is None
    &&& e.created_at == now
    &&& e.updated_at == now
}

fn insert_new(entries: &mut Vec<ProjectEntry>, path: &str, name: String, id: String, now: u64) -> (r: ProjectEntry)
    ensures
        fresh_entry(r, id@, name@, path@, now),
        final(entries)@ == old(entries)@.push(r),
{
    let entry = ProjectEntry {
        id,
        name,
        path: to_string(path),
        pinned: false,
        archived_chats: false,
        unread_chats: 0,
        read_at: None,
        created_at: now,
        updated_at: now,
    };
    let copy = entry.copy();
    entries.push(entry);
    copy
}

/// The name a new project takes: its directory's file name, or the whole path when
/// the path has none.
pub fn name_or_path(file_name: Option<String>, path: &str) -> (r: String)
    ensures
        file_name matches Some(n) ==> r == n,
        file_name is None ==> r@ == path@,
{
    match file_name {
        Some(n) => n,
        None => to_string(path),
    }
}

/// Adds the directory at `path` (which exists on disk when `dir_exists`) to the list
/// under `name` and `id`, refusing a path that is already listed.
pub fn add_project(entries: &mut Vec<ProjectEntry>, path: &str, dir_exists: bool, name: String, id: String, now: u64) -> (r:
    Result<ProjectEntry, String>)
    ensures
        !dir_exists ==> (r matches Err(e) && e@ == "目录不存在: "@ + path@),
        dir_exists && has_path(old(entries)@, path@) ==> (r matches Err(e) && e@ == "项目已在列表中"@),
        r is Err ==> final(entries)@ == old(entries)@,
        dir_exists && !has_path(old(entries)@, path@) ==> (r matches Ok(e) && fresh_entry(e, id@, name@, path@, now)
            && final(entries)@ == old(entries)@.push(e)),
{
    if !dir_exists {
        let mut m = String::from_str("目录不存在: ");
        m.append(path);
        return Err(m);
    }
    if path_listed(entries.as_slice(), path) {
        return Err(String::from_str("项目已在列表中"));
    }
    Ok(insert_new(entries, path, name, id, now))
}

/// Adds a new worktree at `target` to the list under `name` and `id`, refusing a
/// target that is already listed.
pub fn add_worktree_project(entries: &mut Vec<ProjectEntry>, target: &str, name: String, id: String, now: u64) -> (r:
    Result<ProjectEntry, String>)
    ensures
        has_path(old(entries)@, target@) ==> (r matches Err(e) && e@ == "工作树已在项目列表中"@
            && final(entries)@ == old(entries)@),
        !has_path(old(entries)@, target@) ==> (r matches Ok(e) && fresh_entry(e, id@, name@, target@, now)
            && final(entries)@ == old(entries)@.push(e)),
{
    if path_listed(entries.as_slice(), target) {
        return Err(String::from_str("工作树已在项目列表中"));
    }
    Ok(insert_new(entries, target, name, id, now))
}

/// The project with the given id.
pub fn find_project(entries: &[ProjectEntry], id: &str) -> (r: Result<ProjectEntry, String>)
    ensures
        index_of_id(entries@, id@) < entries@.len() ==> r == Ok::<ProjectEntry, String>(
            entries@[index_of_id(entries@, id@)],
        ),
        index_of_id(entries@, id@) >= entries@.len() ==> (r matches Err(e) && e@ == "项目不存在"@),
{
    let k = find_project_index(entries, id);
    if k < entries.len() {
        Ok(entries[k].copy())
    } else {
        Err(String::from_str("项目不存在"))
    }
}

/// The entry after an edit: the trimmed name, the new path, updated at `now`.
pub open spec fn edited(e: ProjectEntry, name: String, path: String, now: u64) -> ProjectEntry {
    ProjectEntry { name, path, updated_at: now, ..e }
}

/// Edits a project's name and path (`dir_exists` tells whether the new path is a
/// directory); its pin and chat state stay.
pub fn update_project(entries: &mut Vec<ProjectEntry>, project: &ProjectEntry, dir_exists: bool, now: u64) -> (r: Result<
    ProjectEntry,
    String,
>)
    ensures
        seq_trim(project.name@).len() == 0 ==> (r matches Err(e) && e@ == "项目名称不能为空"@),
        seq_trim(project.name@).len() > 0 && !dir_exists ==> (r matches Err(e) && e@ == "目录不存在: "@ + project.path@),
        seq_trim(project.name@).len() > 0 && dir_exists && index_of_id(old(entries)@, project.id@) >= old(entries)@.len()
            ==> (r matches Err(e) && e@ == "项目不存在"@),
        r is Err ==> final(entries)@ == old(entries)@,
        seq_trim(project.name@).len() > 0 && dir_exists && index_of_id(old(entries)@, project.id@) < old(entries)@.len()
            ==> (r matches Ok(e) && e.name@ == seq_trim(project.name@) && e == edited(
            old(entries)@[index_of_id(old(entries)@, project.id@)],
            e.name,
            project.path,
            now,
        ) && final(entries)@ == old(entries)@.update(index_of_id(old(entries)@, project.id@), e)),
{
    let name = trim(project.name.as_str());
    if name.unicode_len() == 0 {
        return Err(String::from_str("项目名称不能为空"));
    }
    if !dir_exists {
        let mut m = String::from_str("目录不存在: ");
        m.append(project.path.as_str());
        return Err(m);
    }
    let k = find_project_index(entries.as_slice(), project.id.as_str());
    if k >= entries.len() {
        return Err(String::from_str("项目不存在"));
    }
    let old_entry = entries[k].copy();
    let entry = ProjectEntry {
        id: old_entry.id,
        name: to_string(name),
        path: project.path.clone(),
        pinned: old_entry.pinned,
        archived_chats: old_entry.archived_chats,
        unread_chats: old_entry.unread_chats,
        read_at: old_entry.read_at,
        created_at: old_entry.created_at,
        updated_at: now,
    };
    let result = entry.copy();
    entries.set(k, entry);
    Ok(result)
}

/// The list without the projects whose id is `id`, in order.
pub open spec fn without_id(entries: Seq<ProjectEntry>, id: Seq<char>) -> Seq<ProjectEntry>
    decreases entries.len(),
{
    if entries.len() == 0 {
        entries
    } else if entries.last().id@ == id {
        without_id(entries.drop_last(), id)
    } else {
        without_id(entries.drop_last(), id).push(entries.last())
    }
}

/// Some project of the list has id `id`.
pub open spec fn has_id(entries: Seq<ProjectEntry>, id: Seq<char>) -> bool {
    exists|i: int| 0 <= i < entries.len() && #[trigger] entries[i].id@ == id
}

proof fn lemma_without_id_absent(entries: Seq<ProjectEntry>, id: Seq<char>)
    requires
        !has_id(entries, id),
    ensures
        without_id(entries, id) == entries,
    decreases entries.len(),
{
    if entries.len() > 0 {
        assert(!has_id(entries.drop_last(), id)) by {
            if has_id(entries.drop_last(), id) {
                let i = choose|i: int| 0 <= i < entries.drop_last().len() && #[trigger] entries.drop_last()[i].id@ == id;
                assert(entries[i] == entries.drop_last()[i]);
            }
        }
        lemma_without_id_absent(entries.drop_last(), id);
        assert(entries.last() == entries[entries.len() - 1]);
        assert(entries.drop_last().push(entries.last()) =~= entries);
    }
}

/// Takes the projects with id `id` off the list (their directories stay on disk).
pub fn remove_project(entries: &mut Vec<ProjectEntry>, id: &str) -> (r: Result<(), String>)
    ensures
        final(entries)@ == without_id(old(entries)@, id@),
        r is Ok <==> has_id(old(entries)@, id@),
        r matches Err(e) ==> e@ == "项目不存在"@,
{
    let ghost before = entries@;
    let mut kept: Vec<ProjectEntry> = Vec::new();
    let mut removed = false;
    let mut i: usize = 0;
    while i < entries.len()
        invariant
            entries@ == before,
            i <= before.len(),
            kept@ == without_id(before.take(i as int), id@),
            removed == has_id(before.take(i as int), id@),
        decreases before.len() - i,
    {
        let ghost t = before.take(i + 1);
        assert(t.drop_last() =~= before.take(i as int));
        assert(t.last() == before[i as int]);
        if str_eq(entries[i].id.as_str(), id) {
            removed = true;
            assert(t[i as int].id@ == id@);
        } else {
            kept.push(entries[i].copy());
            proof {
                if has_id(t, id@) {
                    let j = choose|j: int| 0 <= j < t.len() && #[trigger] t[j].id@ == id@;
                    assert(j < i);
                    assert(before.take(i as int)[j] == t[j]);
                    assert(before.take(i as int)[j].id@ == id@);
                }
            }
        }
        proof {
            if has_id(before.take(i as int), id@) {
                let j = choose|j: int| 0 <= j < before.take(i as int).len() && #[trigger] before.take(i as int)[j].id@ == id@;
                assert(t[j] == before.take(i as int)[j]);
                assert(t[j].id@ == id@);
            }
        }
        i = i + 1;
    }
    assert(before.take(before.len() as int) =~= before);
    if !removed {
        proof {
            lemma_without_id_absent(before, id@);
        }
        return Err(String::from_str("项目不存在"));
    }
    *entries = kept;
    Ok(())
}

/// A change made to one project from its context menu.
#[derive(Debug, Clone, Copy, PartialEq, Eq, Structural)]
pub enum ProjectChange {
    /// Pin or unpin.
    Pinned(bool),
    /// Mark all chats read at the given time (Unix milliseconds).
    Read(u64),
    /// Archive or restore the project's chats.
    ArchivedChats(bool),
}

/// A project after a change, updated at `now`.
pub open spec fn changed(e: ProjectEntry, change: ProjectChange, now: u64) -> ProjectEntry {
    match change {
        ProjectChange::Pinned(p) => ProjectEntry { pinned: p, updated_at: now, ..e },
        ProjectChange::Read(at) => ProjectEntry { unread_chats: 0, read_at: Some(at), updated_at: now, ..e },
        ProjectChange::ArchivedChats(a) => ProjectEntry { archived_chats: a, updated_at: now, ..e },
    }
}

/// A change sets what it names and the update time, and nothing else: pinning sets
/// the pin flag, marking read clears the unread count and records the time, and
/// archiving sets the archive flag; the id, name, path and creation time stay.
pub proof fn law_change_sets_what_it_names(e: ProjectEntry, change: ProjectChange, now: u64)
    ensures
        changed(e, change, now).updated_at == now,
        changed(e, change, now).id == e.id,
        changed(e, change, now).name == e.name,
        changed(e, change, now).path == e.path,
        changed(e, change, now).created_at == e.created_at,
        change matches ProjectChange::Pinned(p) ==> changed(e, change, now).pinned == p
            && changed(e, change, now).archived_chats == e.archived_chats
            && changed(e, change, now).unread_chats == e.unread_chats,
        change matches ProjectChange::Read(at) ==> changed(e, change, now).unread_chats == 0
            && changed(e, change, now).read_at == Some(at) && changed(e, change, now).pinned == e.pinned,
        change matches ProjectChange::ArchivedChats(a) ==> changed(e, change, now).archived_chats == a
            && changed(e, change, now).pinned == e.pinned,
{
}

/// Applies a change to the project with id `id`.
pub fn change_project(entries: &mut Vec<ProjectEntry>, id: &str, change: ProjectChange, now: u64) -> (r: Result<
    ProjectEntry,
    String,
>)
    ensures
        index_of_id(old(entries)@, id@) >= old(entries)@.len() ==> (r matches Err(e) && e@ == "项目不存在"@
            && final(entries)@ == old(entries)@),
        index_of_id(old(entries)@, id@) < old(entries)@.len() ==> (r matches Ok(e) && e == changed(
            old(entries)@[index_of_id(old(entries)@, id@)],
            change,
            now,
        ) && final(entries)@ == old(entries)@.update(index_of_id(old(entries)@, id@), e)),
        r matches Ok(e) ==> e.id@ == id@ && e.updated_at == now && match change {
            ProjectChange::Pinned(p) => e.pinned == p,
            ProjectChange::Read(at) => e.unread_chats == 0 && e.read_at == Some(at),
            ProjectChange::ArchivedChats(a) => e.archived_chats == a,
        },
{
    let k = find_project_index(entries.as_slice(), id);
    if k >= entries.len() {
        return Err(String::from_str("项目不存在"));
    }
    proof {
        lemma_index_of_id_found(entries@, id@);
    }
    let mut entry = entries[k].copy();
    match change {
        ProjectChange::Pinned(p) => {
            entry.pinned = p;
        },
        ProjectChange::Read(at) => {
            entry.unread_chats = 0;
            entry.read_at = Some(at);
        },
        ProjectChange::ArchivedChats(a) => {
            entry.archived_chats = a;
        },
    }
    entry.updated_at = now;
    let result = entry.copy();
    entries.set(k, entry);
    Ok(result)
}

/// Adding a path that is not listed yet keeps every path of the list distinct.
pub proof fn law_added_paths_stay_distinct(entries: Seq<ProjectEntry>, e: ProjectEntry)
    requires
        paths_distinct(entries),
        !has_path(entries, e.path@),
    ensures
        paths_distinct(entries.push(e)),
{
    let s = entries.push(e);
    assert forall|i: int, j: int| 0 <= i < j < s.len() implies #[trigger] s[i].path@ != #[trigger] s[j].path@ by {
        if j == entries.len() {
            assert(s[i] == entries[i]);
            if s[i].path@ == e.path@ {
                assert(entries[i].path@ == e.path@);
            }
        } else {
            assert(s[i] == entries[i] && s[j] == entries[j]);
        }
    }
}

/// Removing by id leaves no project with that id and keeps every other project.
pub proof fn law_remove_takes_exactly_that_id(entries: Seq<ProjectEntry>, id: Seq<char>)
    ensures
        !has_id(without_id(entries, id), id),
        forall|i: int| 0 <= i < entries.len() && entries[i].id@ != id ==> without_id(entries, id).contains(
            #[trigger] entries[i],
        ),
    decreases entries.len(),
{
    if entries.len() > 0 {
        let rest = entries.drop_last();
        law_remove_takes_exactly_that_id(rest, id);
        let w = without_id(entries, id);
        let wr = without_id(rest, id);
        if entries.last().id@ == id {
            assert(w == wr);
        } else {
            assert(w == wr.push(entries.last()));
            assert(!has_id(w, id)) by {
                if has_id(w, id) {
                    let k = choose|k: int| 0 <= k < w.len() && #[trigger] w[k].id@ == id;
                    if k < wr.len() {
                        assert(w[k] == wr[k]);
                        assert(wr[k].id@ == id);
                    } else {
                        assert(w[k] == entries.last());
                    }
                }
            }
        }
        assert forall|i: int| 0 <= i < entries.len() && entries[i].id@ != id implies w.contains(#[trigger] entries[i]) by {
            if i < rest.len() {
                assert(entries[i] == rest[i]);
                assert(wr.contains(rest[i]));
                if entries.last().id@ != id {
                    let k = choose|k: int| 0 <= k < wr.len() && wr[k] == rest[i];
                    assert(w[k] == wr[k]);
                }
            } else {
                assert(entries[i] == entries.last());
                assert(w[w.len() - 1] == entries.last());
            }
        }
    }
}

/// The name of a permanent worktree directory: the requested name (trimmed) when one
/// is given and not blank, else the project's name made fit followed by
/// `-worktree`; either way made fit for a directory and branch name.
pub open spec fn worktree_name(project_name: Seq<char>, requested: Option<Seq<char>>) -> Seq<char> {
    let base = match requested {
        Some(r) => if seq_trim(r).len() > 0 {
            seq_trim(r)
        } else {
            sanitized(project_name) + "-worktree"@
        },
        None => sanitized(project_name) + "-worktree"@,
    };
    sanitized(base)
}

pub fn worktree_dir_name(project_name: &str, requested: Option<&str>) -> (r: String)
    ensures
        r@ == worktree_name(
            project_name@,
            match requested {
                Some(q) => Some(q@),
                None => None,
            },
        ),
{
    let base: String = match requested {
        Some(q) => {
            let t = trim(q);
            if t.unicode_len() > 0 {
                to_string(t)
            } else {
                let mut b = sanitize_component(project_name);
                b.append("-worktree");
                b
            }
        },
        None => {
            let mut b = sanitize_component(project_name);
            b.append("-worktree");
            b
        },
    };
    sanitize_component(base.as_str())
}

/// `name-index`, the candidate tried after `name` is taken.
pub fn numbered_name(name: &str, index: u64) -> (r: String)
    ensures
        r@ == name@ + "-"@ + decimal(index as nat),
{
    let mut out = to_string(name);
    push_char(&mut out, '-');
    push_decimal(&mut out, index as u128);
    proof {
        reveal_strlit("-");
    }
    assert(out@ =~= name@ + "-"@ + decimal(index as nat));
    out
}

/// The branch of a worktree: `wt/<name>`.
pub fn branch_name(name: &str) -> (r: String)
    ensures
        r@ == "wt/"@ + name@,
{
    let mut out = String::from_str("wt/");
    out.append(name);
    out
}

} // verus!
