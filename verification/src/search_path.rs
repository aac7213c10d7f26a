//! The executable search path of a desktop-launched process: reading `PATH` out of
//! system files and tool output, and merging lists of directories without
//! repeating one.
use crate::text::{
    contains, is_ws, lines, seq_contains, seq_lines, seq_split, seq_starts_with, seq_trim,
    split_char, strip_prefix, to_string, trim,
};
use vstd::prelude::*;
use vstd::utf8::{decode_utf8, valid_utf8};

verus! {

/// A text with its leading and trailing `"` removed.
pub open spec fn strip_quotes(s: Seq<char>) -> Seq<char> {
    strip_quotes_end(strip_quotes_start(s))
}

pub open spec fn strip_quotes_start(s: Seq<char>) -> Seq<char>
    decreases s.len(),
{
    if s.len() > 0 && s[0] == '"' {
        strip_quotes_start(s.drop_first())
    } else {
        s
    }
}

pub open spec fn strip_quotes_end(s: Seq<char>) -> Seq<char>
    decreases s.len(),
{
    if s.len() > 0 && s.last() == '"' {
        strip_quotes_end(s.drop_last())
    } else {
        s
    }
}

proof fn lemma_quotes_start_skip(s: Seq<char>, i: int)
    requires
        0 <= i <= s.len(),
        forall|j: int| 0 <= j < i ==> #[trigger] s[j] == '"',
    ensures
        strip_quotes_start(s) == strip_quotes_start(s.skip(i)),
    decreases i,
{
    if i > 0 {
        assert(s.drop_first().skip(i - 1) =~= s.skip(i));
        lemma_quotes_start_skip(s.drop_first(), i - 1);
    } else {
        assert(s.skip(0) =~= s);
    }
}

proof fn lemma_quotes_end_take(s: Seq<char>, j: int)
    requires
        0 <= j <= s.len(),
        forall|k: int| j <= k < s.len() ==> #[trigger] s[k] == '"',
    ensures
        strip_quotes_end(s) == strip_quotes_end(s.take(j)),
    decreases s.len() - j,
{
    if j < s.len() {
        assert(s.drop_last().take(j) =~= s.take(j));
        lemma_quotes_end_take(s.drop_last(), j);
    } else {
        assert(s.take(j) =~= s);
    }
}

/// `str::trim_matches('"')`.
pub fn trim_quotes(s: &str) -> (r: &str)
    ensures
        r@ == strip_quotes(s@),
{
    let n = s.unicode_len();
    let mut a: usize = 0;
    while a < n && s.get_char(a) == '"'
        invariant
            n == s@.len(),
            a <= n,
            forall|j: int| 0 <= j < a ==> #[trigger] s@[j] == '"',
        decreases n - a,
    {
        a = a + 1;
    }
    proof {
        lemma_quotes_start_skip(s@, a as int);
    }
    let mut b: usize = n;
    while b > a && s.get_char(b - 1) == '"'
        invariant
            n == s@.len(),
            a <= b <= n,
            forall|k: int| b <= k < n ==> #[trigger] s@[k] == '"',
        decreases b,
    {
        b = b - 1;
    }
    let ghost t = s@.skip(a as int);
    proof {
        assert(strip_quotes_start(t) == t);
        assert forall|k: int| (b - a) <= k < t.len() implies #[trigger] t[k] == '"' by {
            assert(t[k] == s@[k + a]);
        }
        lemma_quotes_end_take(t, b - a);
        assert(t.take(b - a) =~= s@.subrange(a as int, b as int));
        if b > a {
            assert(t.take(b - a).last() == s@[b - 1]);
        }
    }
    s.substring_char(a, b)
}

/// The `PATH` value of one line of an environment file (`PATH=...` or
/// `export PATH=...`, quotes and surrounding spaces removed), if it is such a line
/// with a non-empty value.
pub open spec fn exported_value(line: Seq<char>) -> Option<Seq<char>> {
    let l = seq_trim(line);
    let l = if seq_starts_with(l, "export "@) {
        l.skip(7)
    } else {
        l
    };
    if !seq_starts_with(l, "PATH="@) {
        None
    } else {
        let v = seq_trim(strip_quotes(seq_trim(l.skip(5))));
        if v.len() > 0 {
            Some(v)
        } else {
            None
        }
    }
}

/// The value of the first line that gives one.
pub open spec fn first_exported(ls: Seq<Seq<char>>) -> Option<Seq<char>>
    decreases ls.len(),
{
    if ls.len() == 0 {
        None
    } else if exported_value(ls[0]) is Some {
        exported_value(ls[0])
    } else {
        first_exported(ls.drop_first())
    }
}

proof fn lemma_first_exported_step(ls: Seq<Seq<char>>, i: int)
    requires
        0 <= i < ls.len(),
        exported_value(ls[i]) is None,
    ensures
        first_exported(ls.skip(i)) == first_exported(ls.skip(i + 1)),
{
    assert(ls.skip(i)[0] == ls[i]);
    assert(ls.skip(i).drop_first() =~= ls.skip(i + 1));
}

fn exported_line_value(line: &str) -> (r: Option<String>)
    ensures
        match exported_value(line@) {
            Some(v) => r matches Some(s) && s@ == v,
            None => r is None,
        },
{
    let l = trim(line);
    let l = match strip_prefix(l, "export ") {
        Some(rest) => rest,
        None => l,
    };
    proof {
        reveal_strlit("export ");
        reveal_strlit("PATH=");
    }
    match strip_prefix(l, "PATH=") {
        Some(value) => {
            let v = trim(trim_quotes(trim(value)));
            if v.unicode_len() > 0 {
                Some(to_string(v))
            } else {
                None
            }
        },
        None => None,
    }
}

/// The `PATH` of an environment file such as `/etc/environment`.
pub fn parse_exported_path_value(content: &str) -> (r: Option<String>)
    ensures
        match first_exported(seq_lines(content@)) {
            Some(v) => r matches Some(s) && s@ == v,
            None => r is None,
        },
{
    let ls = lines(content);
    let ghost spec_lines = seq_lines(content@);
    assert(spec_lines.skip(0) =~= spec_lines);
    let mut i: usize = 0;
    while i < ls.len()
        invariant
            i <= ls@.len(),
            ls@.len() == spec_lines.len(),
            spec_lines == seq_lines(content@),
            forall|k: int| 0 <= k < ls@.len() ==> #[trigger] ls@[k]@ == spec_lines[k],
            first_exported(spec_lines) == first_exported(spec_lines.skip(i as int)),
        decreases ls@.len() - i,
    {
        let v = exported_line_value(ls[i]);
        assert(ls@[i as int]@ == spec_lines[i as int]);
        if v.is_some() {
            assert(spec_lines.skip(i as int)[0] == spec_lines[i as int]);
            assert(spec_lines.skip(i as int).len() > 0);
            assert(first_exported(spec_lines.skip(i as int)) == exported_value(spec_lines[i as int]));
            return v;
        }
        proof {
            lemma_first_exported_step(spec_lines, i as int);
        }
        i = i + 1;
    }
    assert(spec_lines.skip(i as int).len() == 0);
    None
}

/// The characters that `String::from_utf8_lossy` makes of some bytes.
pub uninterp spec fn lossy_text(bytes: Seq<u8>) -> Seq<char>;

/// `String::from_utf8_lossy`: valid UTF-8 is decoded as it is; what it makes of
/// invalid input (replacement characters) is only named.
#[verifier::external_body]
fn utf8_lossy(bytes: &[u8]) -> (r: String)
    ensures
        r@ == lossy_text(bytes@),
        valid_utf8(bytes@) ==> r@ == decode_utf8(bytes@),
{
    String::from_utf8_lossy(bytes).into_owned()
}

/// The `PATH` that one line of `path_helper -s` output sets: the text after
/// `PATH=` up to the first `;`, trimmed, without one pair of surrounding quotes.
pub open spec fn helper_value(line: Seq<char>) -> Option<Seq<char>> {
    if !seq_starts_with(line, "PATH="@) {
        None
    } else {
        let v = seq_trim(seq_split(line.skip(5), ';')[0]);
        if v.len() >= 2 && v[0] == '"' && v.last() == '"' {
            Some(v.subrange(1, v.len() - 1))
        } else {
            Some(v)
        }
    }
}

/// The value of the first line that sets `PATH`.
pub open spec fn first_helper_value(ls: Seq<Seq<char>>) -> Option<Seq<char>>
    decreases ls.len(),
{
    if ls.len() == 0 {
        None
    } else if helper_value(ls[0]) is Some {
        helper_value(ls[0])
    } else {
        first_helper_value(ls.drop_first())
    }
}

fn helper_line_value(line: &str) -> (r: Option<String>)
    ensures
        match helper_value(line@) {
            Some(v) => r matches Some(s) && s@ == v,
            None => r is None,
        },
{
    proof {
        reveal_strlit("PATH=");
    }
    match strip_prefix(line, "PATH=") {
        Some(value) => {
            let pieces = split_char(value, ';');
            proof {
                crate::text::lemma_split_nonempty(value@, ';');
            }
            let v = trim(pieces[0]);
            let n = v.unicode_len();
            if n >= 2 && v.get_char(0) == '"' && v.get_char(n - 1) == '"' {
                Some(to_string(v.substring_char(1, n - 1)))
            } else {
                Some(to_string(v))
            }
        },
        None => None,
    }
}

/// The `PATH` in the output of macOS `path_helper -s`.
pub fn parse_path_helper_path(output: &[u8]) -> (r: Option<String>)
    ensures
        match first_helper_value(seq_lines(lossy_text(output@))) {
            Some(v) => r matches Some(s) && s@ == v,
            None => r is None,
        },
{
    let text = utf8_lossy(output);
    let ls = lines(text.as_str());
    let ghost spec_lines = seq_lines(text@);
    assert(spec_lines.skip(0) =~= spec_lines);
    let mut i: usize = 0;
    while i < ls.len()
        invariant
            i <= ls@.len(),
            ls@.len() == spec_lines.len(),
            spec_lines == seq_lines(text@),
            text@ == lossy_text(output@),
            forall|k: int| 0 <= k < ls@.len() ==> #[trigger] ls@[k]@ == spec_lines[k],
            first_helper_value(spec_lines) == first_helper_value(spec_lines.skip(i as int)),
        decreases ls@.len() - i,
    {
        let v = helper_line_value(ls[i]);
        assert(ls@[i as int]@ == spec_lines[i as int]);
        if v.is_some() {
            assert(spec_lines.skip(i as int)[0] == spec_lines[i as int]);
            assert(spec_lines.skip(i as int).len() > 0);
            assert(first_helper_value(spec_lines.skip(i as int)) == helper_value(spec_lines[i as int]));
            return v;
        }
        assert(spec_lines.skip(i as int)[0] == spec_lines[i as int]);
        assert(spec_lines.skip(i as int).drop_first() =~= spec_lines.skip(i + 1));
        i = i + 1;
    }
    assert(spec_lines.skip(i as int).len() == 0);
    None
}

/// Whether two paths name the same path to `std::path::Path`'s `==`, which compares
/// components (so `/a/` equals `/a`); which texts count as the same depends on the
/// platform, so only that equal texts are the same path is stated.
#[verifier::external_body]
fn same_path(a: &str, b: &str) -> (r: bool)
    ensures
        a@ == b@ ==> r,
{
    std::path::Path::new(a) == std::path::Path::new(b)
}

/// `t` is made of elements of `s` in their order (a subsequence).
pub open spec fn is_subsequence(t: Seq<Seq<char>>, s: Seq<Seq<char>>) -> bool
    decreases s.len(),
{
    if t.len() == 0 {
        true
    } else if s.len() == 0 {
        false
    } else if t.last() == s.last() {
        is_subsequence(t.drop_last(), s.drop_last())
    } else {
        is_subsequence(t, s.drop_last())
    }
}

proof fn lemma_subsequence_weaken(t: Seq<Seq<char>>, s: Seq<Seq<char>>, x: Seq<char>)
    requires
        is_subsequence(t, s),
    ensures
        is_subsequence(t, s.push(x)),
    decreases t.len() + s.len(), 1int,
{
    assert(s.push(x).drop_last() =~= s);
    if t.len() > 0 && t.last() == x {
        lemma_subsequence_drop(t, s);
    }
}

proof fn lemma_subsequence_drop(t: Seq<Seq<char>>, s: Seq<Seq<char>>)
    requires
        is_subsequence(t, s),
        t.len() > 0,
    ensures
        is_subsequence(t.drop_last(), s),
    decreases t.len() + s.len(), 0int,
{
    if s.len() > 0 {
        assert(s.drop_last().push(s.last()) =~= s);
        if t.last() == s.last() {
            lemma_subsequence_weaken(t.drop_last(), s.drop_last(), s.last());
        } else {
            lemma_subsequence_drop(t, s.drop_last());
            lemma_subsequence_weaken(t.drop_last(), s.drop_last(), s.last());
        }
    }
}

proof fn lemma_subsequence_extend(t: Seq<Seq<char>>, s: Seq<Seq<char>>, x: Seq<char>)
    requires
        is_subsequence(t, s),
    ensures
        is_subsequence(t, s.push(x)),
        is_subsequence(t.push(x), s.push(x)),
{
    lemma_subsequence_weaken(t, s, x);
    assert(s.push(x).drop_last() =~= s);
    assert(t.push(x).drop_last() =~= t);
}

pub open spec fn texts(v: Seq<String>) -> Seq<Seq<char>> {
    v.map_values(|s: String| s@)
}

/// The list that comes of appending `xs` in order to `list`, leaving out the extras
/// that `seen` marks as already present.
pub open spec fn unique_fold(list: Seq<Seq<char>>, xs: Seq<Seq<char>>, seen: Seq<bool>) -> Seq<Seq<char>>
    decreases xs.len(),
{
    if xs.len() == 0 {
        list
    } else {
        let prev = unique_fold(list, xs.drop_last(), seen.drop_last());
        if seen.last() {
            prev
        } else {
            prev.push(xs.last())
        }
    }
}

/// `seen` marks extras as present in a way the path comparison can: each extra whose
/// text is already in the list is marked, and only an extra compared with at least
/// one entry can be marked.
pub open spec fn skips_possible(list: Seq<Seq<char>>, xs: Seq<Seq<char>>, seen: Seq<bool>) -> bool {
    forall|k: int|
        0 <= k < xs.len() ==> {
            let cur = #[trigger] unique_fold(list, xs.take(k), seen.take(k));
            (cur.contains(xs[k]) ==> seen[k]) && (seen[k] ==> cur.len() > 0)
        }
}

/// Appends the directories of `extras` that are not yet in `entries` (as paths), in
/// their order: the existing entries stay first and unchanged, only extras are
/// appended, in order, and none is appended whose text equals an entry before it.
/// Which extras the platform's path comparison finds present is its own, except
/// that an extra whose text is already in the list is always found, and nothing is
/// found in an empty list.
pub fn append_unique_path_entries(entries: &mut Vec<String>, extras: Vec<String>)
    ensures
        exists|seen: Seq<bool>|
            seen.len() == extras@.len() && skips_possible(texts(old(entries)@), texts(extras@), seen) && texts(
                final(entries)@,
            ) == unique_fold(texts(old(entries)@), texts(extras@), seen),
        final(entries)@.len() >= old(entries)@.len(),
        final(entries)@.take(old(entries)@.len() as int) == old(entries)@,
        is_subsequence(texts(final(entries)@.skip(old(entries)@.len() as int)), texts(extras@)),
        forall|i: int, j: int|
            0 <= i < j < final(entries)@.len() && j >= old(entries)@.len() ==> #[trigger] final(entries)@[i]@
                != #[trigger] final(entries)@[j]@,
{
    let ghost start = entries@;
    let ghost n0 = entries@.len();
    let ghost xs = texts(extras@);
    let ghost marks: Seq<bool> = Seq::empty();
    let mut k: usize = 0;
    proof {
        assert(xs.take(0) =~= Seq::<Seq<char>>::empty());
    }
    while k < extras.len()
        invariant
            xs == texts(extras@),
            marks.len() == k,
            skips_possible(texts(start), xs.take(k as int), marks),
            texts(entries@) == unique_fold(texts(start), xs.take(k as int), marks),
            n0 == start.len(),
            entries@.len() >= n0,
            entries@.take(n0 as int) == start,
            is_subsequence(texts(entries@.skip(n0 as int)), texts(extras@.take(k as int))),
            forall|i: int, j: int|
                0 <= i < j < entries@.len() && j >= n0 ==> #[trigger] entries@[i]@ != #[trigger] entries@[j]@,
            k <= extras@.len(),
        decreases extras@.len() - k,
    {
        let candidate = &extras[k];
        let mut seen = false;
        let mut m: usize = 0;
        while m < entries.len()
            invariant
                m <= entries@.len(),
                seen ==> m > 0,
                !seen ==> forall|i: int| 0 <= i < m ==> entries@[i]@ != candidate@,
            decreases entries@.len() - m,
        {
            if same_path(entries[m].as_str(), candidate.as_str()) {
                seen = true;
            }
            m = m + 1;
        }
        let ghost before = entries@;
        proof {
            assert(texts(extras@.take(k + 1)) =~= texts(extras@.take(k as int)).push(candidate@));
            let ghost next = marks.push(seen);
            let ghost xk = xs.take(k + 1);
            assert(xk.drop_last() =~= xs.take(k as int));
            assert(next.drop_last() =~= marks);
            assert(xk.last() == candidate@);
            assert(xk.take(k as int) =~= xs.take(k as int));
            assert(next.take(k as int) =~= marks);
            assert(texts(before).contains(candidate@) ==> seen) by {
                if texts(before).contains(candidate@) {
                    let i = choose|i: int| 0 <= i < texts(before).len() && texts(before)[i] == candidate@;
                    assert(before[i]@ == candidate@);
                }
            }
            assert forall|j: int| 0 <= j < xk.len() implies {
                let cur = #[trigger] unique_fold(texts(start), xk.take(j), next.take(j));
                (cur.contains(xk[j]) ==> next[j]) && (cur.len() > 0 <== next[j])
            } by {
                if j < k {
                    assert(xk.take(j) =~= xs.take(k as int).take(j));
                    assert(next.take(j) =~= marks.take(j));
                    assert(xk[j] == xs.take(k as int)[j]);
                }
            }
            marks = next;
        }
        if !seen {
            entries.push(candidate.clone());
            proof {
                assert(entries@.take(n0 as int) =~= before.take(n0 as int));
                assert(texts(entries@.skip(n0 as int)) =~= texts(before.skip(n0 as int)).push(candidate@));
                lemma_subsequence_extend(texts(before.skip(n0 as int)), texts(extras@.take(k as int)), candidate@);
                assert forall|i: int, j: int|
                    0 <= i < j < entries@.len() && j >= n0 implies #[trigger] entries@[i]@ != #[trigger] entries@[j]@ by {
                    if j < before.len() {
                        assert(entries@[i] == before[i] && entries@[j] == before[j]);
                    } else {
                        assert(entries@[i] == before[i]);
                    }
                }
            }
        } else {
            proof {
                lemma_subsequence_extend(texts(before.skip(n0 as int)), texts(extras@.take(k as int)), candidate@);
            }
        }
        k = k + 1;
    }
    assert(extras@.take(k as int) =~= extras@);
    assert(xs.take(k as int) =~= xs);
}

/// The platforms whose common tool directories the shell adds to the search path.
#[derive(Debug, Clone, Copy, PartialEq, Eq, Structural)]
pub enum Platform {
    MacOs,
    Linux,
    Other,
}

/// The directories where package managers commonly put tools, by platform.
pub open spec fn common_dirs(platform: Platform) -> Seq<Seq<char>> {
    match platform {
        Platform::MacOs => seq!["/opt/homebrew/bin"@, "/opt/homebrew/sbin"@, "/usr/local/bin"@],
        Platform::Linux => seq![
            "/usr/local/bin"@,
            "/usr/bin"@,
            "/bin"@,
            "/usr/local/sbin"@,
            "/usr/sbin"@,
            "/sbin"@,
        ],
        Platform::Other => Seq::empty(),
    }
}

pub fn common_path_entries(platform: Platform) -> (r: Vec<String>)
    ensures
        texts(r@) == common_dirs(platform),
{
    let names: &[&str] = match platform {
        Platform::MacOs => &["/opt/homebrew/bin", "/opt/homebrew/sbin", "/usr/local/bin"],
        Platform::Linux => &["/usr/local/bin", "/usr/bin", "/bin", "/usr/local/sbin", "/usr/sbin", "/sbin"],
        Platform::Other => &[],
    };
    let mut out: Vec<String> = Vec::new();
    let mut i: usize = 0;
    while i < names.len()
        invariant
            i <= names@.len(),
            texts(out@) == names@.take(i as int).map_values(|s: &str| s@),
        decreases names@.len() - i,
    {
        let ghost before = out@;
        let ghost m = names@.map_values(|s: &str| s@);
        out.push(to_string(names[i]));
        assert(texts(out@) =~= texts(before).push(m[i as int]));
        assert(names@.take(i + 1).map_values(|s: &str| s@) =~= names@.take(i as int).map_values(|s: &str| s@).push(m[i as int]));
        i = i + 1;
    }
    assert(names@.take(names@.len() as int) =~= names@);
    assert(names@.map_values(|s: &str| s@) =~= common_dirs(platform));
    out
}

/// The directories listed in a path file such as `/etc/paths`: each line trimmed,
/// blank lines and `#` comments left out.
pub open spec fn listed_dirs(ls: Seq<Seq<char>>) -> Seq<Seq<char>>
    decreases ls.len(),
{
    if ls.len() == 0 {
        Seq::empty()
    } else {
        let t = seq_trim(ls.last());
        if t.len() == 0 || t[0] == '#' {
            listed_dirs(ls.drop_last())
        } else {
            listed_dirs(ls.drop_last()).push(t)
        }
    }
}

pub fn path_file_entries(content: &str) -> (r: Vec<String>)
    ensures
        texts(r@) == listed_dirs(seq_lines(content@)),
{
    let ls = lines(content);
    let ghost spec_lines = seq_lines(content@);
    let mut out: Vec<String> = Vec::new();
    let mut i: usize = 0;
    while i < ls.len()
        invariant
            i <= ls@.len(),
            ls@.len() == spec_lines.len(),
            forall|k: int| 0 <= k < ls@.len() ==> #[trigger] ls@[k]@ == spec_lines[k],
            texts(out@) == listed_dirs(spec_lines.take(i as int)),
        decreases ls@.len() - i,
    {
        let t = trim(ls[i]);
        let ghost before = out@;
        assert(spec_lines.take(i + 1).drop_last() =~= spec_lines.take(i as int));
        assert(spec_lines.take(i + 1).last() == ls@[i as int]@);
        if t.unicode_len() > 0 && t.get_char(0) != '#' {
            out.push(to_string(t));
            assert(texts(out@) =~= texts(before).push(t@));
        }
        i = i + 1;
    }
    assert(spec_lines.take(ls@.len() as int) =~= spec_lines);
    out
}

/// The `PATH` a login shell printed: its last non-blank line, trimmed.
pub open spec fn last_nonblank(ls: Seq<Seq<char>>) -> Option<Seq<char>>
    decreases ls.len(),
{
    if ls.len() == 0 {
        None
    } else if seq_trim(ls.last()).len() > 0 {
        Some(seq_trim(ls.last()))
    } else {
        last_nonblank(ls.drop_last())
    }
}

pub fn shell_path_from_output(output: &str) -> (r: Option<String>)
    ensures
        match last_nonblank(seq_lines(output@)) {
            Some(p) => r matches Some(s) && s@ == p,
            None => r is None,
        },
{
    let ls = lines(output);
    let ghost spec_lines = seq_lines(output@);
    let mut i: usize = ls.len();
    assert(spec_lines.take(i as int) =~= spec_lines);
    while i > 0
        invariant
            i <= ls@.len(),
            ls@.len() == spec_lines.len(),
            spec_lines == seq_lines(output@),
            forall|k: int| 0 <= k < ls@.len() ==> #[trigger] ls@[k]@ == spec_lines[k],
            last_nonblank(spec_lines) == last_nonblank(spec_lines.take(i as int)),
        decreases i,
    {
        let t = trim(ls[i - 1]);
        assert(spec_lines.take(i as int).last() == ls@[i - 1]@);
        assert(spec_lines.take(i as int).drop_last() =~= spec_lines.take(i - 1));
        if t.unicode_len() > 0 {
            return Some(to_string(t));
        }
        i = i - 1;
    }
    None
}

/// The length of the leading run of non-whitespace characters.
pub open spec fn word_len(s: Seq<char>) -> nat
    decreases s.len(),
{
    if s.len() > 0 && !is_ws(s[0]) {
        1 + word_len(s.drop_first())
    } else {
        0
    }
}

pub proof fn lemma_word_len_bound(s: Seq<char>)
    ensures
        word_len(s) <= s.len(),
    decreases s.len(),
{
    if s.len() > 0 && !is_ws(s[0]) {
        lemma_word_len_bound(s.drop_first());
    }
}

proof fn lemma_word_len_exact(s: Seq<char>, k: int)
    requires
        0 <= k <= s.len(),
        forall|j: int| 0 <= j < k ==> !is_ws(#[trigger] s[j]),
        k == s.len() || is_ws(s[k]),
    ensures
        word_len(s) == k,
    decreases k,
{
    if k > 0 {
        assert forall|j: int| 0 <= j < k - 1 implies !is_ws(#[trigger] s.drop_first()[j]) by {
            assert(s.drop_first()[j] == s[j + 1]);
        }
        lemma_word_len_exact(s.drop_first(), k - 1);
    }
}

/// The words of a text, as `str::split_whitespace` gives them.
pub open spec fn words(s: Seq<char>) -> Seq<Seq<char>>
    decreases s.len(),
{
    if s.len() == 0 {
        Seq::empty()
    } else if is_ws(s[0]) {
        words(s.drop_first())
    } else {
        proof {
            lemma_word_len_bound(s);
        }
        seq![s.take(word_len(s) as int)] + words(s.skip(word_len(s) as int))
    }
}

/// `str::split_whitespace`, collected.
pub fn split_whitespace<'a>(s: &'a str) -> (r: Vec<&'a str>)
    ensures
        r@.len() == words(s@).len(),
        forall|k: int| 0 <= k < r@.len() ==> #[trigger] r@[k]@ == words(s@)[k],
{
    let n = s.unicode_len();
    let mut out: Vec<&'a str> = Vec::new();
    let ghost mut done: Seq<Seq<char>> = Seq::empty();
    let mut i: usize = 0;
    assert(s@.skip(0) =~= s@);
    while i < n
        invariant
            n == s@.len(),
            i <= n,
            out@.len() == done.len(),
            forall|k: int| 0 <= k < out@.len() ==> #[trigger] out@[k]@ == done[k],
            words(s@) == done + words(s@.skip(i as int)),
        decreases n - i,
    {
        let ghost rest = s@.skip(i as int);
        assert(rest[0] == s@[i as int]);
        if crate::text::char_is_whitespace(s.get_char(i)) {
            assert(rest.drop_first() =~= s@.skip(i + 1));
            i = i + 1;
        } else {
            let mut j: usize = i + 1;
            while j < n && !crate::text::char_is_whitespace(s.get_char(j))
                invariant
                    n == s@.len(),
                    i < j <= n,
                    forall|m: int| i <= m < j ==> !is_ws(#[trigger] s@[m]),
                decreases n - j,
            {
                j = j + 1;
            }
            proof {
                assert forall|m: int| 0 <= m < j - i implies !is_ws(#[trigger] rest[m]) by {
                    assert(rest[m] == s@[m + i]);
                }
                if j < n {
                    assert(rest[j - i] == s@[j as int]);
                }
                lemma_word_len_exact(rest, j - i);
            }
            let word = s.substring_char(i, j);
            proof {
                assert(word@ =~= rest.take(j - i));
                assert(rest.skip(j - i) =~= s@.skip(j as int));
                assert(words(rest) == seq![rest.take(j - i)] + words(rest.skip(j - i)));
                done = done.push(word@);
                assert(done.drop_last() + (seq![word@] + words(s@.skip(j as int))) =~= done + words(s@.skip(j as int)));
            }
            out.push(word);
            i = j;
        }
    }
    assert(s@.skip(n as int).len() == 0);
    assert(done + words(s@.skip(n as int)) =~= done);
    out
}

/// Words joined by single spaces.
pub open spec fn join_spaced(ws: Seq<Seq<char>>) -> Seq<char>
    decreases ws.len(),
{
    if ws.len() == 0 {
        Seq::empty()
    } else if ws.len() == 1 {
        ws[0]
    } else {
        join_spaced(ws.drop_last()) + seq![' '] + ws.last()
    }
}

/// The value of a `reg query ... /v Path` output line (`Path  REG_EXPAND_SZ  value`):
/// the words after the first two, joined by spaces, trimmed and without surrounding
/// quotes; nothing for a line that does not mention `Path` or has no value.
pub open spec fn registry_value(line: Seq<char>) -> Option<Seq<char>> {
    let t = seq_trim(line);
    if !seq_contains(t, "Path"@) {
        None
    } else {
        let ws = words(t);
        let rest = if ws.len() > 2 {
            ws.skip(2)
        } else {
            Seq::empty()
        };
        let v = strip_quotes(seq_trim(join_spaced(rest)));
        if v.len() > 0 {
            Some(v)
        } else {
            None
        }
    }
}

pub fn parse_windows_registry_path_line(line: &str) -> (r: Option<String>)
    ensures
        match registry_value(line@) {
            Some(v) => r matches Some(s) && s@ == v,
            None => r is None,
        },
{
    let t = trim(line);
    if !contains(t, "Path") {
        return None;
    }
    let ws = split_whitespace(t);
    let ghost spec_ws = words(t@);
    let ghost rest = if spec_ws.len() > 2 {
        spec_ws.skip(2)
    } else {
        Seq::<Seq<char>>::empty()
    };
    let mut joined = String::new();
    let mut k: usize = 2;
    while k < ws.len()
        invariant
            ws@.len() == spec_ws.len(),
            forall|m: int| 0 <= m < ws@.len() ==> #[trigger] ws@[m]@ == spec_ws[m],
            2 <= k,
            ws@.len() > 2 ==> k <= ws@.len(),
            ws@.len() > 2 ==> rest == spec_ws.skip(2),
            ws@.len() > 2 ==> joined@ == join_spaced(rest.take(k - 2)),
            ws@.len() <= 2 ==> joined@.len() == 0,
        decreases ws@.len() - k,
    {
        let ghost before = joined@;
        if k > 2 {
            crate::text::push_char(&mut joined, ' ');
        }
        joined.append(ws[k]);
        proof {
            let t2 = rest.take(k - 1);
            assert(t2.drop_last() =~= rest.take(k - 2));
            assert(t2.last() == ws@[k as int]@);
            if k > 2 {
                assert(joined@ =~= before + seq![' '] + ws@[k as int]@);
            } else {
                assert(rest.take(0).len() == 0);
                assert(joined@ =~= ws@[k as int]@);
                assert(t2.len() == 1);
            }
        }
        k = k + 1;
    }
    proof {
        if ws@.len() > 2 {
            assert(rest.take(ws@.len() - 2) =~= rest);
        } else {
            assert(joined@.len() == 0);
            assert(join_spaced(rest) =~= Seq::<char>::empty());
        }
    }
    let v = trim_quotes(trim(joined.as_str()));
    if v.unicode_len() > 0 {
        Some(to_string(v))
    } else {
        None
    }
}

/// The names of the `%NAME%` references of a text, in order; a `%` without a
/// closing one starts no reference.
pub open spec fn env_refs(value: Seq<char>) -> Seq<Seq<char>>
    decreases value.len(),
{
    let i = crate::text::first_index(value, '%');
    proof {
        crate::text::lemma_first_index(value, '%');
    }
    if i >= value.len() {
        Seq::empty()
    } else {
        let after = value.skip(i + 1);
        let j = crate::text::first_index(after, '%');
        proof {
            crate::text::lemma_first_index(after, '%');
        }
        if j >= after.len() {
            env_refs(after)
        } else {
            seq![after.take(j)] + env_refs(after.skip(j + 1))
        }
    }
}

/// A text with its `%NAME%` references replaced, the values of the references taken
/// from `vals` in order (an unset one stays as written); a lone `%` stays.
pub open spec fn expand_with(value: Seq<char>, vals: Seq<Option<Seq<char>>>) -> Seq<char>
    decreases value.len(),
{
    let i = crate::text::first_index(value, '%');
    proof {
        crate::text::lemma_first_index(value, '%');
    }
    if i >= value.len() {
        value
    } else {
        let after = value.skip(i + 1);
        let j = crate::text::first_index(after, '%');
        proof {
            crate::text::lemma_first_index(after, '%');
        }
        if j >= after.len() {
            value.take(i) + seq!['%'] + expand_with(after, vals)
        } else {
            let name = after.take(j);
            let v = if vals.len() > 0 {
                vals[0]
            } else {
                None
            };
            let rest_vals = if vals.len() > 0 {
                vals.drop_first()
            } else {
                vals
            };
            value.take(i) + match v {
                Some(x) => x,
                None => seq!['%'] + name + seq!['%'],
            } + expand_with(after.skip(j + 1), rest_vals)
        }
    }
}

/// `getenv` may give `v` for the variable `name`.
pub open spec fn looked_up<F: Fn(&str) -> Option<String>>(getenv: F, name: Seq<char>, v: Option<Seq<char>>) -> bool {
    exists|arg: &str, res: Option<String>|
        #![trigger getenv.ensures((arg,), res)]
        arg@ == name && getenv.ensures((arg,), res) && v == match res {
            Some(s) => Some(s@),
            None => None,
        }
}

/// `%NAME%` references of a registry value replaced by the environment's values
/// (as `getenv` gives them, asked once per reference in order; an unset variable
/// stays as written).
pub fn expand_environment_vars(value: &str, getenv: impl Fn(&str) -> Option<String>) -> (r: String)
    requires
        forall|k: &str| getenv.requires((k,)),
    ensures
        exists|vals: Seq<Option<Seq<char>>>|
            vals.len() == env_refs(value@).len() && (forall|k: int|
                0 <= k < vals.len() ==> looked_up(getenv, #[trigger] env_refs(value@)[k], vals[k])) && r@
                == expand_with(value@, vals),
{
    let mut result = String::new();
    let mut rest: &str = value;
    let ghost mut names: Seq<Seq<char>> = Seq::empty();
    let ghost mut vals: Seq<Option<Seq<char>>> = Seq::empty();
    proof {
        assert forall|future: Seq<Option<Seq<char>>>| expand_with(value@, vals + future) == result@ + expand_with(rest@, future) by {
            assert(vals + future =~= future);
            assert(result@ + expand_with(rest@, future) =~= expand_with(rest@, future));
        }
        assert(names + env_refs(rest@) =~= env_refs(rest@));
    }
    loop
        invariant
            forall|k: &str| getenv.requires((k,)),
            env_refs(value@) == names + env_refs(rest@),
            vals.len() == names.len(),
            forall|k: int| 0 <= k < vals.len() ==> looked_up(getenv, #[trigger] names[k], vals[k]),
            forall|future: Seq<Option<Seq<char>>>|
                expand_with(value@, vals + future) == result@ + expand_with(rest@, future),
        decreases rest@.len(),
    {
        let n = rest.unicode_len();
        let i = crate::text::find_char(rest, '%');
        proof {
            crate::text::lemma_first_index(rest@, '%');
        }
        if i >= n {
            result.append(rest);
            proof {
                assert(env_refs(rest@) =~= Seq::<Seq<char>>::empty());
                assert(names + env_refs(rest@) =~= names);
                assert(vals + Seq::<Option<Seq<char>>>::empty() =~= vals);
                assert(expand_with(rest@, Seq::empty()) == rest@);
                assert(expand_with(value@, vals + Seq::<Option<Seq<char>>>::empty()) == expand_with(value@, vals));
            }
            return result;
        }
        let head = rest.substring_char(0, i);
        let after = rest.substring_char(i + 1, n);
        let m = after.unicode_len();
        let j = crate::text::find_char(after, '%');
        proof {
            crate::text::lemma_first_index(after@, '%');
            assert(head@ =~= rest@.take(i as int));
            assert(after@ =~= rest@.skip(i + 1));
        }
        if j >= m {
            let ghost old_result = result@;
            let ghost old_rest = rest@;
            result.append(head);
            crate::text::push_char(&mut result, '%');
            rest = after;
            proof {
                assert(env_refs(old_rest) == env_refs(after@));
                assert forall|future: Seq<Option<Seq<char>>>| expand_with(value@, vals + future) == result@ + expand_with(rest@, future) by {
                    assert(expand_with(old_rest, future) == old_rest.take(i as int) + seq!['%'] + expand_with(after@, future));
                    assert(result@ + expand_with(rest@, future) =~= old_result + (old_rest.take(i as int) + seq!['%'] + expand_with(after@, future)));
                }
            }
        } else {
            let name = after.substring_char(0, j);
            let tail = after.substring_char(j + 1, m);
            proof {
                assert(name@ =~= after@.take(j as int));
                assert(tail@ =~= after@.skip(j + 1));
            }
            let found = getenv(name);
            let ghost v = match &found {
                Some(s) => Some(s@),
                None => None::<Seq<char>>,
            };
            let ghost old_result = result@;
            let ghost old_rest = rest@;
            let ghost old_vals = vals;
            result.append(head);
            match &found {
                Some(x) => {
                    result.append(x.as_str());
                },
                None => {
                    crate::text::push_char(&mut result, '%');
                    result.append(name);
                    crate::text::push_char(&mut result, '%');
                },
            }
            rest = tail;
            proof {
                assert(looked_up(getenv, name@, v));
                let piece = match v {
                    Some(x) => x,
                    None => seq!['%'] + name@ + seq!['%'],
                };
                assert(result@ =~= old_result + old_rest.take(i as int) + piece);
                assert(env_refs(old_rest) == seq![name@] + env_refs(tail@));
                names = names.push(name@);
                vals = vals.push(v);
                assert(env_refs(value@) =~= names + env_refs(rest@));
                assert forall|k: int| 0 <= k < vals.len() implies looked_up(getenv, #[trigger] names[k], vals[k]) by {
                    if k < old_vals.len() {
                        assert(names[k] == names.drop_last()[k]);
                    }
                }
                assert forall|future: Seq<Option<Seq<char>>>| expand_with(value@, vals + future) == result@ + expand_with(rest@, future) by {
                    let f2 = seq![v] + future;
                    assert(vals + future =~= old_vals + f2);
                    assert(f2.len() > 0 && f2[0] == v);
                    assert(f2.drop_first() =~= future);
                    assert(expand_with(old_rest, f2) == old_rest.take(i as int) + piece + expand_with(tail@, future));
                    assert(result@ + expand_with(rest@, future) =~= old_result + (old_rest.take(i as int) + piece + expand_with(tail@, future)));
                }
            }
        }
    }
}

/// How long the login shell may take to print its `PATH`, in milliseconds.
pub const SHELL_PATH_TIMEOUT_MS: u64 = 1500;

/// The pause between two looks at the login shell, in milliseconds.
pub const SHELL_POLL_MS: u64 = 20;

/// What a look at the login shell process found.
#[derive(Debug, Clone, Copy, PartialEq, Eq, Structural)]
pub enum ShellProbe {
    /// It has exited, successfully or not.
    Exited(bool),
    /// It is still running.
    Running,
    /// Its state could not be read.
    Failed,
}

/// What to do after a look at the login shell.
#[derive(Debug, Clone, Copy, PartialEq, Eq, Structural)]
pub enum ShellWaitStep {
    /// Stop waiting; `Some(success)` when the shell exited, `None` otherwise.
    Finish(Option<bool>),
    /// The time is up: kill the shell and stop waiting (as not exited).
    KillAndFinish,
    /// Look again after this many milliseconds.
    Sleep(u64),
}

/// The step after a look at the login shell, `elapsed_ms` after it was started.
pub fn shell_wait_step(probe: ShellProbe, elapsed_ms: u64) -> (r: ShellWaitStep)
    ensures
        r == match probe {
            ShellProbe::Exited(success) => ShellWaitStep::Finish(Some(success)),
            ShellProbe::Failed => ShellWaitStep::Finish(None),
            ShellProbe::Running => if elapsed_ms >= SHELL_PATH_TIMEOUT_MS {
                ShellWaitStep::KillAndFinish
            } else {
                ShellWaitStep::Sleep(SHELL_POLL_MS)
            },
        },
{
    match probe {
        ShellProbe::Exited(success) => ShellWaitStep::Finish(Some(success)),
        ShellProbe::Failed => ShellWaitStep::Finish(None),
        ShellProbe::Running => if elapsed_ms >= SHELL_PATH_TIMEOUT_MS {
            ShellWaitStep::KillAndFinish
        } else {
            ShellWaitStep::Sleep(SHELL_POLL_MS)
        },
    }
}

/// The login shell's `PATH`: what it printed, kept only when it exited successfully.
pub fn shell_path_outcome(exited: Option<bool>, printed: Option<String>) -> (r: Option<String>)
    ensures
        exited == Some(true) ==> r == printed,
        exited != Some(true) ==> r is None,
{
    match exited {
        Some(true) => printed,
        _ => None,
    }
}

} // verus!
