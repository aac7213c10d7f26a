//! Reading the `dsh web` start-up line, recognising stale `dsh web` processes that
//! the shell started, and classifying dropped paths.
use crate::text::{
    decimal, digits_value, find, is_digit, occurs_at, parses_unsigned, parse_unsigned, unsigned_digits,
    push_decimal, seq_contains,
};
use vstd::prelude::*;

verus! {

/// The environment entry that marks a `dsh web` process started by the shell.
pub const MANAGED_ENV: &'static str = "DSH_DESKTOP_MANAGED=1";

/// What `dsh web` prints once it listens.
pub const DSH_WEB_PREFIX: &'static str = "dsh web: http://127.0.0.1:";

/// The origin the shell opens for a port.
pub const LOOPBACK_ORIGIN: &'static str = "http://127.0.0.1:";

/// The first index at which `p` occurs in `s` (meaningful when it occurs).
pub open spec fn first_occurrence(s: Seq<char>, p: Seq<char>) -> int {
    choose|i: int| occurs_at(s, p, i) && forall|j: int| 0 <= j < i ==> !occurs_at(s, p, j)
}

pub proof fn lemma_first_occurrence(s: Seq<char>, p: Seq<char>, i: int)
    requires
        occurs_at(s, p, i),
        forall|j: int| 0 <= j < i ==> !occurs_at(s, p, j),
    ensures
        first_occurrence(s, p) == i,
{
    let k = first_occurrence(s, p);
    assert(occurs_at(s, p, k) && forall|j: int| 0 <= j < k ==> !occurs_at(s, p, j));
    if k < i {
        assert(!occurs_at(s, p, k));
    }
    if k > i {
        assert(!occurs_at(s, p, i));
    }
}

/// The number of leading ASCII digits of `s`.
pub open spec fn digit_run(s: Seq<char>) -> nat
    decreases s.len(),
{
    if s.len() > 0 && is_digit(s[0]) {
        1 + digit_run(s.drop_first())
    } else {
        0
    }
}

proof fn lemma_digit_run(s: Seq<char>, k: int)
    requires
        0 <= k <= s.len(),
        forall|j: int| 0 <= j < k ==> is_digit(#[trigger] s[j]),
        k == s.len() || !is_digit(s[k]),
    ensures
        digit_run(s) == k,
    decreases k,
{
    if k > 0 {
        assert forall|j: int| 0 <= j < k - 1 implies is_digit(#[trigger] s.drop_first()[j]) by {
            assert(s.drop_first()[j] == s[j + 1]);
        }
        lemma_digit_run(s.drop_first(), k - 1);
    }
}

/// The port announced by a `dsh web` line: the digits right after the first
/// `dsh web: http://127.0.0.1:`, read as a `u16`.
pub open spec fn dsh_web_port(line: Seq<char>) -> Option<nat> {
    if !seq_contains(line, DSH_WEB_PREFIX@) {
        None
    } else {
        let rest = line.skip(first_occurrence(line, DSH_WEB_PREFIX@) + DSH_WEB_PREFIX@.len());
        let digits = rest.take(digit_run(rest) as int);
        if parses_unsigned(digits, 65535) {
            Some(digits_value(unsigned_digits(digits)))
        } else {
            None
        }
    }
}

/// The URL the shell opens for a `dsh web` start-up line, if the line is one.
pub fn parse_dsh_web_url(line: &str) -> (r: Option<String>)
    ensures
        match dsh_web_port(line@) {
            Some(p) => r matches Some(u) && u@ == LOOPBACK_ORIGIN@ + decimal(p),
            None => r is None,
        },
{
    let start = match find(line, DSH_WEB_PREFIX) {
        Some(i) => i,
        None => return None,
    };
    proof {
        lemma_first_occurrence(line@, DSH_WEB_PREFIX@, start as int);
    }
    let n = line.unicode_len();
    let m = DSH_WEB_PREFIX.unicode_len();
    let rest = line.substring_char(start + m, n);
    assert(rest@ =~= line@.skip(start + m));
    let len = rest.unicode_len();
    let mut end: usize = 0;
    while end < len && '0' <= rest.get_char(end) && rest.get_char(end) <= '9'
        invariant
            end <= len,
            len == rest@.len(),
            forall|j: int| 0 <= j < end ==> is_digit(#[trigger] rest@[j]),
        decreases len - end,
    {
        end = end + 1;
    }
    proof {
        lemma_digit_run(rest@, end as int);
    }
    let digits = rest.substring_char(0, end);
    assert(digits@ =~= rest@.take(end as int));
    let port = match parse_unsigned(digits, 65535) {
        Some(p) => p,
        None => return None,
    };
    let mut url = String::from_str(LOOPBACK_ORIGIN);
    push_decimal(&mut url, port as u128);
    Some(url)
}

/// The kind of a drop: `directory` when every dropped path is a directory, `mixed`
/// when there are both, `file` otherwise (an empty drop counts as `file`).
pub open spec fn drop_kind(is_dir: Seq<bool>) -> Seq<char> {
    let has_dir = exists|i: int| 0 <= i < is_dir.len() && is_dir[i];
    let has_file = exists|i: int| 0 <= i < is_dir.len() && !is_dir[i];
    if has_file && has_dir {
        "mixed"@
    } else if has_dir {
        "directory"@
    } else {
        "file"@
    }
}

/// Classifies a drop from whether each dropped path is a directory.
pub fn classify_drop(is_dir: &[bool]) -> (r: &'static str)
    ensures
        r@ == drop_kind(is_dir@),
{
    if is_dir.len() == 0 {
        return "file";
    }
    let mut has_file = false;
    let mut has_dir = false;
    let mut i: usize = 0;
    while i < is_dir.len()
        invariant
            i <= is_dir@.len(),
            has_dir == exists|k: int| 0 <= k < i && is_dir@[k],
            has_file == exists|k: int| 0 <= k < i && !is_dir@[k],
        decreases is_dir@.len() - i,
    {
        if is_dir[i] {
            has_dir = true;
        } else {
            has_file = true;
        }
        i = i + 1;
    }
    if has_file && has_dir {
        "mixed"
    } else if has_dir {
        "directory"
    } else {
        "file"
    }
}

/// A process is a `dsh web` that the shell manages: its command has a `web`
/// argument, and an argument mentions `marker` (the application data directory,
/// where the overlay lives) or its environment holds the managed marker.
pub open spec fn managed_dsh_cmd(cmd: Seq<Seq<char>>, environ: Seq<Seq<char>>, marker: Seq<char>) -> bool {
    &&& exists|i: int| 0 <= i < cmd.len() && cmd[i] == "web"@
    &&& (exists|i: int| 0 <= i < cmd.len() && seq_contains(cmd[i], marker)) || (exists|i: int|
        0 <= i < environ.len() && environ[i] == MANAGED_ENV@)
}

pub open spec fn texts(v: Seq<String>) -> Seq<Seq<char>> {
    v.map_values(|s: String| s@)
}

/// Whether a process (its arguments and environment, lossily decoded) is a `dsh web`
/// that the shell manages.
pub fn is_managed_dsh_cmd(cmd: &[String], environ: &[String], marker: &str) -> (r: bool)
    ensures
        r == managed_dsh_cmd(texts(cmd@), texts(environ@), marker@),
{
    let ghost c = texts(cmd@);
    let ghost e = texts(environ@);
    let mut has_web = false;
    let mut has_overlay = false;
    let mut i: usize = 0;
    while i < cmd.len()
        invariant
            i <= cmd@.len(),
            c == texts(cmd@),
            has_web == exists|k: int| 0 <= k < i && c[k] == "web"@,
            has_overlay == exists|k: int| 0 <= k < i && seq_contains(c[k], marker@),
        decreases cmd@.len() - i,
    {
        let arg = cmd[i].as_str();
        assert(arg@ == c[i as int]);
        if crate::text::str_eq(arg, "web") {
            has_web = true;
        }
        if crate::text::contains(arg, marker) {
            has_overlay = true;
        }
        i = i + 1;
    }
    if !has_web {
        return false;
    }
    let mut has_env = false;
    let mut j: usize = 0;
    while j < environ.len()
        invariant
            j <= environ@.len(),
            e == texts(environ@),
            has_env == exists|k: int| 0 <= k < j && e[k] == MANAGED_ENV@,
        decreases environ@.len() - j,
    {
        let value = environ[j].as_str();
        assert(value@ == e[j as int]);
        if crate::text::str_eq(value, MANAGED_ENV) {
            has_env = true;
        }
        j = j + 1;
    }
    has_overlay || has_env
}

/// What the clean-up of stale `dsh web` processes does next.
#[derive(Debug, Clone, Copy, PartialEq, Eq, Structural)]
pub enum CleanupAction {
    /// No managed process is left.
    Done,
    /// The grace period is over: kill what is left, then stop.
    ForceKill,
    /// Ask the processes to terminate, then wait.
    Terminate,
    /// Wait for the processes that were asked to terminate.
    Wait,
}

/// One round of the clean-up: nothing alive ends it; past the deadline the rest is
/// killed; otherwise the first round asks them to terminate and later rounds wait.
pub fn cleanup_step(alive: usize, past_deadline: bool, signalled: bool) -> (r: CleanupAction)
    ensures
        alive == 0 ==> r == CleanupAction::Done,
        alive > 0 && past_deadline ==> r == CleanupAction::ForceKill,
        alive > 0 && !past_deadline && !signalled ==> r == CleanupAction::Terminate,
        alive > 0 && !past_deadline && signalled ==> r == CleanupAction::Wait,
{
    if alive == 0 {
        CleanupAction::Done
    } else if past_deadline {
        CleanupAction::ForceKill
    } else if !signalled {
        CleanupAction::Terminate
    } else {
        CleanupAction::Wait
    }
}

} // verus!
