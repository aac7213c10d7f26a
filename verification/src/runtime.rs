//! Runtime state shared between the process manager and the commands: the phase,
//! the in-memory log tail and the queue of launch payloads not yet consumed.
use crate::text::{decimal, decimal_string, parse_unsigned, parses_unsigned, digits_value, unsigned_digits, str_eq};
use vstd::prelude::*;

verus! {

/// Most in-memory log lines kept.
pub const MAX_LOGS: usize = 500;

/// Most pending launch payloads kept; beyond it the oldest are dropped.
pub const MAX_PENDING_DEEPLINKS: usize = 128;

/// How long an unconsumed launch payload is kept, in milliseconds.
pub const PENDING_DEEPLINK_TTL_MS: u64 = 300_000;

/// How many log lines a snapshot carries, newest first.
pub const SNAPSHOT_LOGS: usize = 200;

#[derive(Debug, Clone, Copy, PartialEq, Eq, Structural)]
pub enum RuntimePhase {
    Detecting,
    MissingDsh,
    Installing,
    Starting,
    Ready,
    Failed,
    Stopped,
}

#[derive(Debug, Clone)]
pub struct RuntimeSnapshot {
    pub phase: RuntimePhase,
    pub message: String,
    pub url: Option<String>,
    pub dsh_installed: bool,
    pub node_found: bool,
    pub dsh_version: Option<String>,
    pub log_dir: Option<String>,
    pub logs: Vec<String>,
}

#[derive(Debug, Clone)]
pub struct DeepLinkPayload {
    pub id: String,
    pub url: String,
    pub raw: String,
    pub received_at: String,
    pub source: String,
    pub args: Vec<String>,
    pub cwd: String,
}

/// The characters of each string of a sequence.
pub open spec fn strings_view(v: Seq<String>) -> Seq<Seq<char>> {
    v.map_values(|s: String| s@)
}

pub struct PayloadView {
    pub id: Seq<char>,
    pub url: Seq<char>,
    pub raw: Seq<char>,
    pub received_at: Seq<char>,
    pub source: Seq<char>,
    pub args: Seq<Seq<char>>,
    pub cwd: Seq<char>,
}

impl View for DeepLinkPayload {
    type V = PayloadView;

    open spec fn view(&self) -> PayloadView {
        PayloadView {
            id: self.id@,
            url: self.url@,
            raw: self.raw@,
            received_at: self.received_at@,
            source: self.source@,
            args: strings_view(self.args@),
            cwd: self.cwd@,
        }
    }
}

/// Two payloads describe the same launch (the id and the time do not count).
pub open spec fn same_launch(l: PayloadView, r: PayloadView) -> bool {
    &&& l.source == r.source
    &&& l.url == r.url
    &&& l.raw == r.raw
    &&& l.args == r.args
    &&& l.cwd == r.cwd
}

/// A copy of a list of strings.
pub fn copy_strings(v: &Vec<String>) -> (r: Vec<String>)
    ensures
        r@ == v@,
{
    let mut out: Vec<String> = Vec::new();
    let mut i: usize = 0;
    while i < v.len()
        invariant
            i <= v@.len(),
            out@ == v@.take(i as int),
        decreases v@.len() - i,
    {
        out.push(v[i].clone());
        assert(out@ =~= v@.take(i + 1));
        i = i + 1;
    }
    assert(v@.take(v@.len() as int) =~= v@);
    out
}

/// Element-wise equality of two lists of strings.
pub fn strings_eq(a: &Vec<String>, b: &Vec<String>) -> (r: bool)
    ensures
        r == (strings_view(a@) == strings_view(b@)),
{
    if a.len() != b.len() {
        assert(strings_view(a@).len() != strings_view(b@).len());
        return false;
    }
    let mut i: usize = 0;
    while i < a.len()
        invariant
            a@.len() == b@.len(),
            i <= a@.len(),
            forall|j: int| 0 <= j < i ==> a@[j]@ == b@[j]@,
        decreases a@.len() - i,
    {
        if !str_eq(a[i].as_str(), b[i].as_str()) {
            assert(strings_view(a@)[i as int] != strings_view(b@)[i as int]);
            return false;
        }
        i = i + 1;
    }
    assert(strings_view(a@) =~= strings_view(b@));
    true
}

impl DeepLinkPayload {
    /// A copy of the payload.
    pub fn copy(&self) -> (r: Self)
        ensures
            r@ == self@,
    {
        let args = copy_strings(&self.args);
        DeepLinkPayload {
            id: self.id.clone(),
            url: self.url.clone(),
            raw: self.raw.clone(),
            received_at: self.received_at.clone(),
            source: self.source.clone(),
            args,
            cwd: self.cwd.clone(),
        }
    }
}

/// Whether two payloads describe the same launch.
pub fn same_launch_payload(left: &DeepLinkPayload, right: &DeepLinkPayload) -> (r: bool)
    ensures
        r == same_launch(left@, right@),
        r == (left@.source == right@.source && left@.url == right@.url && left@.raw == right@.raw
            && left@.args == right@.args && left@.cwd == right@.cwd),
{
    str_eq(left.source.as_str(), right.source.as_str()) && str_eq(
        left.url.as_str(),
        right.url.as_str(),
    ) && str_eq(left.raw.as_str(), right.raw.as_str()) && strings_eq(&left.args, &right.args)
        && str_eq(left.cwd.as_str(), right.cwd.as_str())
}

/// A pending payload is kept at time `now_ms` unless its reception time reads as a
/// number of milliseconds at least the time to live ago.
pub open spec fn keep_pending(p: PayloadView, now_ms: u64) -> bool {
    parses_unsigned(p.received_at, u64::MAX as nat) ==> {
        let at = digits_value(unsigned_digits(p.received_at));
        (if now_ms >= at {
            now_ms - at
        } else {
            0
        }) < PENDING_DEEPLINK_TTL_MS
    }
}

/// The payloads of `s` that are kept at `now_ms`, in order.
pub open spec fn kept(s: Seq<PayloadView>, now_ms: u64) -> Seq<PayloadView>
    decreases s.len(),
{
    if s.len() == 0 {
        seq![]
    } else if keep_pending(s.last(), now_ms) {
        kept(s.drop_last(), now_ms).push(s.last())
    } else {
        kept(s.drop_last(), now_ms)
    }
}

pub proof fn lemma_kept_subset(s: Seq<PayloadView>, now_ms: u64)
    ensures
        kept(s, now_ms).len() <= s.len(),
        forall|i: int| 0 <= i < kept(s, now_ms).len() ==> s.contains(#[trigger] kept(s, now_ms)[i]),
        forall|i: int| 0 <= i < kept(s, now_ms).len() ==> keep_pending(#[trigger] kept(s, now_ms)[i], now_ms),
        forall|i: int| 0 <= i < s.len() && keep_pending(#[trigger] s[i], now_ms) ==> kept(s, now_ms).contains(s[i]),
    decreases s.len(),
{
    if s.len() > 0 {
        let d = s.drop_last();
        lemma_kept_subset(d, now_ms);
        assert forall|i: int| 0 <= i < kept(s, now_ms).len() implies s.contains(#[trigger] kept(s, now_ms)[i]) by {
            if i < kept(d, now_ms).len() {
                let x = kept(d, now_ms)[i];
                assert(kept(s, now_ms)[i] == x);
                let k = choose|k: int| 0 <= k < d.len() && d[k] == x;
                assert(s[k] == x);
            } else {
                assert(kept(s, now_ms)[i] == s.last());
                assert(s[s.len() - 1] == s.last());
            }
        }
        assert forall|i: int| 0 <= i < s.len() && keep_pending(#[trigger] s[i], now_ms) implies kept(s, now_ms).contains(s[i]) by {
            if i < s.len() - 1 {
                assert(s[i] == d[i]);
                let k = choose|k: int| 0 <= k < kept(d, now_ms).len() && kept(d, now_ms)[k] == s[i];
                assert(kept(s, now_ms)[k] == s[i]);
            } else {
                assert(kept(s, now_ms)[kept(s, now_ms).len() - 1] == s.last());
            }
        }
    }
}

/// Mutable runtime state.
pub struct Inner {
    pub phase: RuntimePhase,
    pub message: String,
    pub url: Option<String>,
    pub dsh_installed: bool,
    pub node_found: bool,
    pub dsh_version: Option<String>,
    pub log_dir: Option<String>,
    pub logs: Vec<String>,
    /// Launch payloads not yet consumed by the page, oldest first.
    pub pending_deeplinks: Vec<DeepLinkPayload>,
    pub next_deep_link_id: u64,
}

/// The facts found about the installation are the same in `a` and `b`.
pub open spec fn same_facts(a: Inner, b: Inner) -> bool {
    &&& a.dsh_installed == b.dsh_installed
    &&& a.node_found == b.node_found
    &&& a.dsh_version == b.dsh_version
    &&& a.log_dir == b.log_dir
}

/// The shown status (phase, message, URL) and the installation facts are the same
/// in `a` and `b`.
pub open spec fn same_status(a: Inner, b: Inner) -> bool {
    &&& same_facts(a, b)
    &&& a.phase == b.phase
    &&& a.message == b.message
    &&& a.url == b.url
}

/// The views of a list of payloads.
pub open spec fn payloads_view(v: Seq<DeepLinkPayload>) -> Seq<PayloadView> {
    v.map_values(|p: DeepLinkPayload| p@)
}

/// No two payloads of the list describe the same launch.
pub open spec fn distinct_launches(s: Seq<PayloadView>) -> bool {
    forall|i: int, j: int|
        0 <= i < s.len() && 0 <= j < s.len() && i != j ==> !same_launch(#[trigger] s[i], #[trigger] s[j])
}

impl Inner {
    /// The queue of pending payloads, by view.
    pub open spec fn pending(&self) -> Seq<PayloadView> {
        payloads_view(self.pending_deeplinks@)
    }

    /// An empty state holding the given log directory.
    pub fn new(log_dir: Option<String>) -> (r: Self)
        ensures
            r.phase == RuntimePhase::Detecting,
            r.message@ == Seq::<char>::empty(),
            r.url is None,
            !r.dsh_installed,
            !r.node_found,
            r.dsh_version is None,
            r.log_dir == log_dir,
            r.logs@.len() == 0,
            r.pending_deeplinks@.len() == 0,
            r.next_deep_link_id == 0,
    {
        Inner {
            phase: RuntimePhase::Detecting,
            message: String::new(),
            url: None,
            dsh_installed: false,
            node_found: false,
            dsh_version: None,
            log_dir,
            logs: Vec::new(),
            pending_deeplinks: Vec::new(),
            next_deep_link_id: 0,
        }
    }

    /// Drops the pending payloads whose time to live has passed at `now_ms`.
    pub fn prune_expired_pending_deeplinks(&mut self, now_ms: u64)
        ensures
            final(self).pending() == kept(old(self).pending(), now_ms),
            same_status(*final(self), *old(self)),
            final(self).logs == old(self).logs,
            final(self).next_deep_link_id == old(self).next_deep_link_id,
            final(self).phase == old(self).phase,
    {
        let mut old_list: Vec<DeepLinkPayload> = Vec::new();
        std::mem::swap(&mut old_list, &mut self.pending_deeplinks);
        let ghost src = payloads_view(old_list@);
        let mut out: Vec<DeepLinkPayload> = Vec::new();
        let mut i: usize = 0;
        while i < old_list.len()
            invariant
                i <= old_list@.len(),
                src == payloads_view(old_list@),
                payloads_view(out@) == kept(src.take(i as int), now_ms),
            decreases old_list@.len() - i,
        {
            let p = &old_list[i];
            let keep = match parse_unsigned(p.received_at.as_str(), u64::MAX) {
                Some(at) => now_ms.saturating_sub(at) < PENDING_DEEPLINK_TTL_MS,
                None => true,
            };
            proof {
                assert(src.take(i + 1).drop_last() =~= src.take(i as int));
                assert(src.take(i + 1).last() == p@);
                assert(keep == keep_pending(p@, now_ms));
            }
            if keep {
                out.push(p.copy());
                assert(payloads_view(out@) =~= kept(src.take(i + 1), now_ms));
            } else {
                assert(payloads_view(out@) =~= kept(src.take(i + 1), now_ms));
            }
            i = i + 1;
        }
        assert(src.take(old_list@.len() as int) =~= src);
        self.pending_deeplinks = out;
    }
}


/// The last `n` elements of `s` (all of them when there are fewer).
pub open spec fn last_n<T>(s: Seq<T>, n: nat) -> Seq<T> {
    if s.len() > n {
        s.skip(s.len() - n)
    } else {
        s
    }
}

/// `s` without the payloads whose id is `id`, in order.
pub open spec fn without_id(s: Seq<PayloadView>, id: Seq<char>) -> Seq<PayloadView>
    decreases s.len(),
{
    if s.len() == 0 {
        seq![]
    } else if s.last().id != id {
        without_id(s.drop_last(), id).push(s.last())
    } else {
        without_id(s.drop_last(), id)
    }
}

/// Whether some payload of `s` describes the same launch as `p`.
pub open spec fn has_same_launch(s: Seq<PayloadView>, p: PayloadView) -> bool {
    exists|i: int| 0 <= i < s.len() && same_launch(#[trigger] s[i], p)
}

/// Queues a launch payload unless the same launch is already pending: the queue is
/// first pruned at `now_ms`, and the oldest entries beyond the limit are dropped.
/// Returns whether the payload was queued.
pub fn enqueue_pending_deeplink(inner: &mut Inner, payload: &DeepLinkPayload, now_ms: u64) -> (r: bool)
    ensures
        r == !has_same_launch(kept(old(inner).pending(), now_ms), payload@),
        r ==> final(inner).pending() == last_n(
            kept(old(inner).pending(), now_ms).push(payload@),
            MAX_PENDING_DEEPLINKS as nat,
        ),
        !r ==> final(inner).pending() == kept(old(inner).pending(), now_ms),
        same_status(*final(inner), *old(inner)),
        final(inner).logs == old(inner).logs,
        final(inner).next_deep_link_id == old(inner).next_deep_link_id,
        final(inner).phase == old(inner).phase,
{
    inner.prune_expired_pending_deeplinks(now_ms);
    let ghost k = inner.pending();
    let mut i: usize = 0;
    while i < inner.pending_deeplinks.len()
        invariant
            i <= inner.pending_deeplinks@.len(),
            k == inner.pending(),
            k == kept(old(inner).pending(), now_ms),
            inner.logs == old(inner).logs,
            inner.next_deep_link_id == old(inner).next_deep_link_id,
            inner.phase == old(inner).phase,
            same_status(*inner, *old(inner)),
            forall|j: int| 0 <= j < i ==> !same_launch(#[trigger] k[j], payload@),
        decreases inner.pending_deeplinks@.len() - i,
    {
        assert(k[i as int] == inner.pending_deeplinks@[i as int]@);
        if same_launch_payload(&inner.pending_deeplinks[i], payload) {
            assert(same_launch(k[i as int], payload@));
            return false;
        }
        i = i + 1;
    }
    inner.pending_deeplinks.push(payload.copy());
    let ghost full = k.push(payload@);
    assert(inner.pending() =~= full);
    let ghost mut removed: int = 0;
    while inner.pending_deeplinks.len() > MAX_PENDING_DEEPLINKS
        invariant
            0 <= removed <= full.len(),
            removed == 0 || inner.pending_deeplinks@.len() >= MAX_PENDING_DEEPLINKS,
            inner.pending() == full.skip(removed),
            inner.pending_deeplinks@.len() + removed == full.len(),
            inner.logs == old(inner).logs,
            inner.next_deep_link_id == old(inner).next_deep_link_id,
            inner.phase == old(inner).phase,
            same_status(*inner, *old(inner)),
        decreases inner.pending_deeplinks@.len(),
    {
        let ghost before = inner.pending_deeplinks@;
        inner.pending_deeplinks.remove(0);
        proof {
            assert(inner.pending_deeplinks@ =~= before.drop_first());
            assert(payloads_view(before.drop_first()) =~= payloads_view(before).drop_first());
            assert(full.skip(removed).drop_first() =~= full.skip(removed + 1));
            removed = removed + 1;
        }
    }
    assert(full.skip(0) =~= full);
    assert(inner.pending() =~= last_n(full, MAX_PENDING_DEEPLINKS as nat));
    true
}

/// Removes the pending payloads with the given id.
pub fn ack_deeplink(inner: &mut Inner, id: &str)
    ensures
        final(inner).pending() == without_id(old(inner).pending(), id@),
        same_status(*final(inner), *old(inner)),
        final(inner).logs == old(inner).logs,
        final(inner).next_deep_link_id == old(inner).next_deep_link_id,
        final(inner).phase == old(inner).phase,
{
    let mut old_list: Vec<DeepLinkPayload> = Vec::new();
    std::mem::swap(&mut old_list, &mut inner.pending_deeplinks);
    let ghost src = payloads_view(old_list@);
    let mut out: Vec<DeepLinkPayload> = Vec::new();
    let mut i: usize = 0;
    while i < old_list.len()
        invariant
            i <= old_list@.len(),
            src == payloads_view(old_list@),
            payloads_view(out@) == without_id(src.take(i as int), id@),
        decreases old_list@.len() - i,
    {
        let p = &old_list[i];
        proof {
            assert(src.take(i + 1).drop_last() =~= src.take(i as int));
            assert(src.take(i + 1).last() == p@);
        }
        if !str_eq(p.id.as_str(), id) {
            out.push(p.copy());
        }
        assert(payloads_view(out@) =~= without_id(src.take(i + 1), id@));
        i = i + 1;
    }
    assert(src.take(old_list@.len() as int) =~= src);
    inner.pending_deeplinks = out;
}

/// The pending payloads after pruning them at `now_ms`.
pub fn get_pending_deeplinks(inner: &mut Inner, now_ms: u64) -> (r: Vec<DeepLinkPayload>)
    ensures
        final(inner).pending() == kept(old(inner).pending(), now_ms),
        payloads_view(r@) == final(inner).pending(),
        same_status(*final(inner), *old(inner)),
        final(inner).logs == old(inner).logs,
        final(inner).next_deep_link_id == old(inner).next_deep_link_id,
{
    inner.prune_expired_pending_deeplinks(now_ms);
    let mut out: Vec<DeepLinkPayload> = Vec::new();
    let mut i: usize = 0;
    while i < inner.pending_deeplinks.len()
        invariant
            i <= inner.pending_deeplinks@.len(),
            payloads_view(out@) == inner.pending().take(i as int),
            inner.pending() == kept(old(inner).pending(), now_ms),
            inner.logs == old(inner).logs,
            inner.next_deep_link_id == old(inner).next_deep_link_id,
            same_status(*inner, *old(inner)),
        decreases inner.pending_deeplinks@.len() - i,
    {
        assert(inner.pending()[i as int] == inner.pending_deeplinks@[i as int]@);
        let ghost prev = out@;
        let c = inner.pending_deeplinks[i].copy();
        out.push(c);
        assert(payloads_view(out@) =~= payloads_view(prev).push(c@));
        assert(payloads_view(out@) =~= inner.pending().take(i + 1));
        i = i + 1;
    }
    assert(inner.pending().take(inner.pending_deeplinks@.len() as int) =~= inner.pending());
    out
}

/// Builds the payload of a launch (a deep link or a second instance), numbering it
/// with the next id and stamping it with `now_ms`, and queues it. Returns the payload
/// and whether it was queued.
pub fn enqueue_launch_payload(
    inner: &mut Inner,
    source: String,
    url: String,
    raw: String,
    args: Vec<String>,
    cwd: String,
    now_ms: u64,
) -> (r: (DeepLinkPayload, bool))
    requires
        old(inner).next_deep_link_id < u64::MAX,
    ensures
        final(inner).next_deep_link_id == old(inner).next_deep_link_id + 1,
        r.0.id@ == seq!['d', 'l', '-'] + decimal(final(inner).next_deep_link_id as nat),
        r.0.received_at@ == decimal(now_ms as nat),
        r.0.source == source,
        r.0.url == url,
        r.0.raw == raw,
        r.0.args == args,
        r.0.cwd == cwd,
        r.1 == !has_same_launch(kept(old(inner).pending(), now_ms), r.0@),
        r.1 ==> final(inner).pending() == last_n(
            kept(old(inner).pending(), now_ms).push(r.0@),
            MAX_PENDING_DEEPLINKS as nat,
        ),
        same_status(*final(inner), *old(inner)),
        final(inner).logs == old(inner).logs,
        !r.1 ==> final(inner).pending() == kept(old(inner).pending(), now_ms),
{
    inner.next_deep_link_id = inner.next_deep_link_id + 1;
    let number = decimal_string(inner.next_deep_link_id as u128);
    let mut id = String::from_str("dl-");
    id.append(number.as_str());
    proof {
        reveal_strlit("dl-");
        assert(id@ =~= seq!['d', 'l', '-'] + decimal(inner.next_deep_link_id as nat));
    }
    let received_at = decimal_string(now_ms as u128);
    let payload = DeepLinkPayload { id, url, raw, received_at, source, args, cwd };
    let enqueued = enqueue_pending_deeplink(inner, &payload, now_ms);
    (payload, enqueued)
}

/// Appends a line to the in-memory log tail, dropping the oldest beyond the limit.
pub fn append_log(inner: &mut Inner, line: &str)
    ensures
        strings_view(final(inner).logs@) == last_n(
            strings_view(old(inner).logs@).push(line@),
            MAX_LOGS as nat,
        ),
        same_status(*final(inner), *old(inner)),
        final(inner).pending_deeplinks == old(inner).pending_deeplinks,
        final(inner).phase == old(inner).phase,
        final(inner).next_deep_link_id == old(inner).next_deep_link_id,
{
    inner.logs.push(line.to_owned());
    let ghost full = strings_view(old(inner).logs@).push(line@);
    assert(strings_view(inner.logs@) =~= full);
    let ghost mut removed: int = 0;
    while inner.logs.len() > MAX_LOGS
        invariant
            0 <= removed <= full.len(),
            removed == 0 || inner.logs@.len() >= MAX_LOGS,
            strings_view(inner.logs@) == full.skip(removed),
            inner.logs@.len() + removed == full.len(),
            same_status(*inner, *old(inner)),
            inner.pending_deeplinks == old(inner).pending_deeplinks,
            inner.phase == old(inner).phase,
            inner.next_deep_link_id == old(inner).next_deep_link_id,
        decreases inner.logs@.len(),
    {
        let ghost before = inner.logs@;
        inner.logs.remove(0);
        proof {
            assert(inner.logs@ =~= before.drop_first());
            assert(strings_view(before.drop_first()) =~= strings_view(before).drop_first());
            assert(full.skip(removed).drop_first() =~= full.skip(removed + 1));
            removed = removed + 1;
        }
    }
    assert(full.skip(0) =~= full);
    assert(strings_view(inner.logs@) =~= last_n(full, MAX_LOGS as nat));
}


pub proof fn lemma_kept_all_kept(s: Seq<PayloadView>, now_ms: u64)
    requires
        forall|i: int| 0 <= i < s.len() ==> keep_pending(#[trigger] s[i], now_ms),
    ensures
        kept(s, now_ms) == s,
    decreases s.len(),
{
    if s.len() > 0 {
        lemma_kept_all_kept(s.drop_last(), now_ms);
        assert(s.drop_last().push(s.last()) =~= s);
    }
}

pub proof fn lemma_kept_distinct(s: Seq<PayloadView>, now_ms: u64)
    requires
        distinct_launches(s),
    ensures
        distinct_launches(kept(s, now_ms)),
    decreases s.len(),
{
    if s.len() > 0 {
        let d = s.drop_last();
        assert(distinct_launches(d)) by {
            assert forall|i: int, j: int|
                0 <= i < d.len() && 0 <= j < d.len() && i != j implies !same_launch(#[trigger] d[i], #[trigger] d[j]) by {
                assert(d[i] == s[i] && d[j] == s[j]);
            }
        }
        lemma_kept_distinct(d, now_ms);
        lemma_kept_subset(d, now_ms);
        if keep_pending(s.last(), now_ms) {
            let k = kept(d, now_ms);
            let r = k.push(s.last());
            assert forall|i: int, j: int|
                0 <= i < r.len() && 0 <= j < r.len() && i != j implies !same_launch(#[trigger] r[i], #[trigger] r[j]) by {
                if i < k.len() && j < k.len() {
                    assert(r[i] == k[i] && r[j] == k[j]);
                } else if i < k.len() {
                    let a = choose|a: int| 0 <= a < d.len() && d[a] == k[i];
                    assert(s[a] == k[i] && s[s.len() - 1] == s.last());
                    assert(!same_launch(s[a], s[s.len() - 1]));
                } else {
                    let a = choose|a: int| 0 <= a < d.len() && d[a] == k[j];
                    assert(s[a] == k[j] && s[s.len() - 1] == s.last());
                    assert(!same_launch(s[s.len() - 1], s[a]));
                }
            }
        }
    }
}

/// Queueing keeps the pending queue free of duplicate launches and within its limit,
/// and a payload that is queued becomes the newest entry.
pub proof fn law_enqueue_keeps_queue_distinct_and_bounded(
    pending: Seq<PayloadView>,
    p: PayloadView,
    now_ms: u64,
)
    requires
        distinct_launches(pending),
    ensures
        distinct_launches(kept(pending, now_ms)),
        !has_same_launch(kept(pending, now_ms), p) ==> {
            let after = last_n(kept(pending, now_ms).push(p), MAX_PENDING_DEEPLINKS as nat);
            &&& distinct_launches(after)
            &&& after.len() <= MAX_PENDING_DEEPLINKS
            &&& after.last() == p
        },
{
    lemma_kept_distinct(pending, now_ms);
    let k = kept(pending, now_ms);
    if !has_same_launch(k, p) {
        let full = k.push(p);
        assert(distinct_launches(full)) by {
            assert forall|i: int, j: int|
                0 <= i < full.len() && 0 <= j < full.len() && i != j implies !same_launch(#[trigger] full[i], #[trigger] full[j]) by {
                if i < k.len() && j < k.len() {
                    assert(full[i] == k[i] && full[j] == k[j]);
                } else if i < k.len() {
                    assert(full[i] == k[i] && full[j] == p);
                    assert(!same_launch(k[i], p));
                } else {
                    assert(full[j] == k[j] && full[i] == p);
                    assert(!same_launch(k[j], p));
                }
            }
        }
        let after = last_n(full, MAX_PENDING_DEEPLINKS as nat);
        if full.len() > MAX_PENDING_DEEPLINKS {
            let off = full.len() - MAX_PENDING_DEEPLINKS;
            assert forall|i: int, j: int|
                0 <= i < after.len() && 0 <= j < after.len() && i != j implies !same_launch(#[trigger] after[i], #[trigger] after[j]) by {
                assert(after[i] == full[i + off] && after[j] == full[j + off]);
            }
            assert(after.last() == full.last());
        }
    }
}

/// Two payloads are the same launch exactly when they agree on source, URL, raw
/// text, arguments and working directory; a difference in any of these (say, other
/// arguments of a second instance) makes another launch, while the id and the time
/// received play no part.
pub proof fn law_launch_identity(l: PayloadView, r: PayloadView)
    ensures
        l.source != r.source ==> !same_launch(l, r),
        l.url != r.url ==> !same_launch(l, r),
        l.raw != r.raw ==> !same_launch(l, r),
        l.args != r.args ==> !same_launch(l, r),
        l.cwd != r.cwd ==> !same_launch(l, r),
        l.source == r.source && l.url == r.url && l.raw == r.raw && l.args == r.args && l.cwd
            == r.cwd ==> same_launch(l, r),
        same_launch(l, r) == same_launch(r, l),
{
}

/// A launch whose arguments differ from those of every pending payload is queued:
/// none of the payloads left after pruning is the same launch.
pub proof fn law_launch_with_new_args_is_queued(pending: Seq<PayloadView>, p: PayloadView, now_ms: u64)
    requires
        forall|i: int| 0 <= i < pending.len() ==> (#[trigger] pending[i]).args != p.args,
    ensures
        !has_same_launch(kept(pending, now_ms), p),
{
    lemma_kept_subset(pending, now_ms);
    let k = kept(pending, now_ms);
    assert forall|i: int| 0 <= i < k.len() implies !same_launch(#[trigger] k[i], p) by {
        assert(pending.contains(k[i]));
        let j = choose|j: int| 0 <= j < pending.len() && pending[j] == k[i];
        assert(pending[j].args != p.args);
    }
}

/// A launch that is still within its time to live is queued at most once: queueing the
/// same payload twice at the same time leaves it pending, so the second call refuses it.
pub proof fn law_enqueue_same_launch_twice(pending: Seq<PayloadView>, p: PayloadView, now_ms: u64)
    requires
        keep_pending(p, now_ms),
    ensures
        ({
            let k = kept(pending, now_ms);
            let after = if !has_same_launch(k, p) {
                last_n(k.push(p), MAX_PENDING_DEEPLINKS as nat)
            } else {
                k
            };
            has_same_launch(kept(after, now_ms), p)
        }),
{
    let k = kept(pending, now_ms);
    lemma_kept_subset(pending, now_ms);
    lemma_kept_all_kept(k, now_ms);
    if !has_same_launch(k, p) {
        let full = k.push(p);
        let after = last_n(full, MAX_PENDING_DEEPLINKS as nat);
        assert forall|i: int| 0 <= i < after.len() implies keep_pending(#[trigger] after[i], now_ms) by {
            if full.len() > MAX_PENDING_DEEPLINKS {
                assert(after[i] == full[i + (full.len() - MAX_PENDING_DEEPLINKS)]);
            }
        }
        lemma_kept_all_kept(after, now_ms);
        assert(after[after.len() - 1] == p);
        assert(same_launch(after[after.len() - 1], p));
    }
}

/// Acknowledging an id removes every pending payload with that id and keeps all others.
pub proof fn law_ack_removes_exactly_that_id(s: Seq<PayloadView>, id: Seq<char>)
    ensures
        forall|i: int| 0 <= i < without_id(s, id).len() ==> (#[trigger] without_id(s, id)[i]).id != id,
        forall|i: int| 0 <= i < s.len() && (#[trigger] s[i]).id != id ==> without_id(s, id).contains(s[i]),
        without_id(s, id).len() <= s.len(),
    decreases s.len(),
{
    if s.len() > 0 {
        let d = s.drop_last();
        law_ack_removes_exactly_that_id(d, id);
        let w = without_id(d, id);
        assert forall|i: int| 0 <= i < s.len() && (#[trigger] s[i]).id != id implies without_id(s, id).contains(s[i]) by {
            if i < s.len() - 1 {
                assert(s[i] == d[i]);
                let k = choose|k: int| 0 <= k < w.len() && w[k] == d[i];
                assert(without_id(s, id)[k] == s[i]);
            } else {
                assert(without_id(s, id)[without_id(s, id).len() - 1] == s.last());
            }
        }
    }
}


/// The log tail stays within its limit and its newest line is the one appended last.
pub proof fn law_log_tail_bounded(logs: Seq<Seq<char>>, line: Seq<char>)
    ensures
        last_n(logs.push(line), MAX_LOGS as nat).len() <= MAX_LOGS,
        last_n(logs.push(line), MAX_LOGS as nat).last() == line,
{
    let full = logs.push(line);
    if full.len() > MAX_LOGS {
        assert(last_n(full, MAX_LOGS as nat).last() == full[full.len() - 1]);
    }
}

/// A copy of an optional string.
pub fn copy_opt(o: &Option<String>) -> (r: Option<String>)
    ensures
        r == *o,
{
    match o {
        Some(s) => Some(s.clone()),
        None => None,
    }
}

/// The newest `n` entries of `s`, newest first.
pub open spec fn newest_first<T>(s: Seq<T>, n: nat) -> Seq<T> {
    Seq::new(
        if s.len() < n {
            s.len()
        } else {
            n
        },
        |i: int| s[s.len() - 1 - i],
    )
}

impl Inner {
    /// The state as the commands report it, with the newest log lines first.
    pub fn snapshot(&self) -> (r: RuntimeSnapshot)
        ensures
            r.phase == self.phase,
            r.message == self.message,
            r.url == self.url,
            r.dsh_installed == self.dsh_installed,
            r.node_found == self.node_found,
            r.dsh_version == self.dsh_version,
            r.log_dir == self.log_dir,
            r.logs@ == newest_first(self.logs@, SNAPSHOT_LOGS as nat),
    {
        let n = self.logs.len();
        let mut logs: Vec<String> = Vec::new();
        let mut i: usize = 0;
        while i < n && i < SNAPSHOT_LOGS
            invariant
                n == self.logs@.len(),
                i <= n,
                i <= SNAPSHOT_LOGS,
                logs@.len() == i,
                forall|k: int| 0 <= k < i ==> #[trigger] logs@[k] == self.logs@[n - 1 - k],
            decreases n - i,
        {
            logs.push(self.logs[n - 1 - i].clone());
            i = i + 1;
        }
        assert(logs@ =~= newest_first(self.logs@, SNAPSHOT_LOGS as nat));
        RuntimeSnapshot {
            phase: self.phase,
            message: self.message.clone(),
            url: copy_opt(&self.url),
            dsh_installed: self.dsh_installed,
            node_found: self.node_found,
            dsh_version: copy_opt(&self.dsh_version),
            log_dir: copy_opt(&self.log_dir),
            logs,
        }
    }

    /// Records a new phase with its message and URL.
    pub fn set_phase(&mut self, phase: RuntimePhase, message: String, url: Option<String>)
        ensures
            final(self).phase == phase,
            final(self).message == message,
            final(self).url == url,
            same_facts(*final(self), *old(self)),
            final(self).pending_deeplinks == old(self).pending_deeplinks,
            final(self).logs == old(self).logs,
            final(self).next_deep_link_id == old(self).next_deep_link_id,
    {
        self.phase = phase;
        self.message = message;
        self.url = url;
    }
}

/// The tray label of each phase.
pub open spec fn phase_label(phase: RuntimePhase) -> Seq<char> {
    match phase {
        RuntimePhase::Detecting => "检测中"@,
        RuntimePhase::MissingDsh => "未安装"@,
        RuntimePhase::Installing => "安装中"@,
        RuntimePhase::Starting => "启动中"@,
        RuntimePhase::Ready => "已就绪"@,
        RuntimePhase::Failed => "失败"@,
        RuntimePhase::Stopped => "已停止"@,
    }
}

pub fn tray_phase_label(phase: &RuntimePhase) -> (r: &'static str)
    ensures
        r@ == phase_label(*phase),
{
    match phase {
        RuntimePhase::Detecting => "检测中",
        RuntimePhase::MissingDsh => "未安装",
        RuntimePhase::Installing => "安装中",
        RuntimePhase::Starting => "启动中",
        RuntimePhase::Ready => "已就绪",
        RuntimePhase::Failed => "失败",
        RuntimePhase::Stopped => "已停止",
    }
}

/// Text and availability of the tray menu entries for a runtime snapshot.
#[derive(Debug, Clone)]
pub struct TrayMenuState {
    pub status_text: String,
    pub copy_url_enabled: bool,
    pub open_browser_enabled: bool,
    pub stop_enabled: bool,
    pub restart_enabled: bool,
    pub tooltip: String,
}

/// The tray menu for a snapshot: the URL entries only when ready with a URL, stop only
/// while starting or ready, restart except while installing.
pub fn tray_menu_state(snapshot: &RuntimeSnapshot) -> (r: TrayMenuState)
    ensures
        r.status_text@ == "DSH: "@ + phase_label(snapshot.phase),
        r.copy_url_enabled == (snapshot.phase == RuntimePhase::Ready && snapshot.url is Some),
        r.open_browser_enabled == r.copy_url_enabled,
        r.stop_enabled == (snapshot.phase == RuntimePhase::Starting || snapshot.phase
            == RuntimePhase::Ready),
        r.restart_enabled == (snapshot.phase != RuntimePhase::Installing),
        r.tooltip@ == "DSH Desktop - "@ + phase_label(snapshot.phase) + match snapshot.url {
            Some(u) => " ("@ + u@ + ")"@,
            None => Seq::<char>::empty(),
        },
{
    let label = tray_phase_label(&snapshot.phase);
    let mut status_text = String::from_str("DSH: ");
    status_text.append(label);
    let ready = match snapshot.phase {
        RuntimePhase::Ready => snapshot.url.is_some(),
        _ => false,
    };
    let running = match snapshot.phase {
        RuntimePhase::Starting | RuntimePhase::Ready => true,
        _ => false,
    };
    let restart = match snapshot.phase {
        RuntimePhase::Installing => false,
        _ => true,
    };
    let mut tooltip = String::from_str("DSH Desktop - ");
    tooltip.append(label);
    match &snapshot.url {
        Some(u) => {
            tooltip.append(" (");
            tooltip.append(u.as_str());
            tooltip.append(")");
        },
        None => {},
    }
    assert(tooltip@ =~= "DSH Desktop - "@ + phase_label(snapshot.phase) + match snapshot.url {
        Some(u) => " ("@ + u@ + ")"@,
        None => Seq::<char>::empty(),
    });
    TrayMenuState {
        status_text,
        copy_url_enabled: ready,
        open_browser_enabled: ready,
        stop_enabled: running,
        restart_enabled: restart,
        tooltip,
    }
}

/// The log line for one line of a child's output stream: trailing whitespace cut,
/// tagged `[label] `; blank lines give none.
pub open spec fn stream_line(label: Seq<char>, line: Seq<char>) -> Option<Seq<char>> {
    let t = crate::text::seq_trim_end(line);
    if t.len() == 0 {
        None
    } else {
        Some("["@ + label + "] "@ + t)
    }
}

pub fn stream_log_line(label: &str, line: &str) -> (r: Option<String>)
    ensures
        match stream_line(label@, line@) {
            Some(l) => r matches Some(s) && s@ == l,
            None => r is None,
        },
{
    let t = crate::text::trim_end(line);
    if t.unicode_len() == 0 {
        return None;
    }
    let mut out = String::from_str("[");
    out.append(label);
    out.append("] ");
    out.append(t);
    Some(out)
}

/// What a second launch of the application brings: the first argument that is a
/// `dsh-desktop://` link makes it a deep link to that URL, otherwise it is a plain
/// second instance without a URL.
pub open spec fn second_launch(args: Seq<Seq<char>>) -> (Seq<char>, Seq<char>) {
    if exists|i: int| 0 <= i < args.len() && crate::text::seq_starts_with(#[trigger] args[i], "dsh-desktop://"@) {
        let i = choose|i: int|
            0 <= i < args.len() && crate::text::seq_starts_with(#[trigger] args[i], "dsh-desktop://"@) && forall|j: int|
                0 <= j < i ==> !crate::text::seq_starts_with(#[trigger] args[j], "dsh-desktop://"@);
        ("deep_link"@, args[i])
    } else {
        ("second_instance"@, Seq::empty())
    }
}

/// The source and URL of a second launch's payload (its raw text is the URL too).
pub fn second_instance_launch(args: &Vec<String>) -> (r: (String, String))
    ensures
        (r.0@, r.1@) == second_launch(strings_view(args@)),
{
    let ghost a = strings_view(args@);
    let mut i: usize = 0;
    while i < args.len()
        invariant
            i <= args@.len(),
            a == strings_view(args@),
            forall|j: int| 0 <= j < i ==> !crate::text::seq_starts_with(#[trigger] a[j], "dsh-desktop://"@),
        decreases args@.len() - i,
    {
        assert(a[i as int] == args@[i as int]@);
        if crate::text::starts_with(args[i].as_str(), "dsh-desktop://") {
            let ghost k = choose|k: int|
                0 <= k < a.len() && crate::text::seq_starts_with(#[trigger] a[k], "dsh-desktop://"@) && forall|j: int|
                    0 <= j < k ==> !crate::text::seq_starts_with(#[trigger] a[j], "dsh-desktop://"@);
            proof {
                assert(0 <= i < a.len() && crate::text::seq_starts_with(a[i as int], "dsh-desktop://"@));
                if k < i {
                    assert(!crate::text::seq_starts_with(a[k], "dsh-desktop://"@));
                }
                if k > i {
                    assert(!crate::text::seq_starts_with(a[i as int], "dsh-desktop://"@));
                }
            }
            return (String::from_str("deep_link"), args[i].clone());
        }
        i = i + 1;
    }
    (String::from_str("second_instance"), String::new())
}

} // verus!
