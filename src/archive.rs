//! Naming rules of packed projects: the directory a project archive is
//! unpacked into, which directories are left out when packing, how entries are
//! renamed after the archive, and when an old unpacking session may go.
use vstd::prelude::*;
use crate::launch_args::{file_name_span, last_dot, trim_by, trim_chars, TrimSet};
use crate::platform::HostOs;
use crate::text::{push_char, push_str, string_of};

verus! {

/// Hours that the unpacked workspace of an earlier process is kept.
pub const WORKSPACE_SESSION_RETENTION_HOURS: u64 = 336;

/// The same retention in milliseconds.
pub const WORKSPACE_SESSION_RETENTION_MS: u128 = 1209600000;

/// FNV-1a offset basis.
pub const FNV_OFFSET_BASIS: u64 = 0xcbf29ce484222325;

/// FNV-1a prime.
pub const FNV_PRIME: u64 = 0x00000100000001B3;

/// The 64-bit FNV-1a state after feeding `bs` to state `h`.
pub open spec fn fnv1a_from(h: u64, bs: Seq<u8>) -> u64
    decreases bs.len(),
{
    if bs.len() == 0 {
        h
    } else {
        (((fnv1a_from(h, bs.drop_last()) ^ (bs.last() as u64)) as int * FNV_PRIME as int)
            % 0x1_0000_0000_0000_0000) as u64
    }
}

/// The 64-bit FNV-1a hash of `bs`.
pub open spec fn fnv1a(bs: Seq<u8>) -> u64 {
    fnv1a_from(FNV_OFFSET_BASIS, bs)
}

/// Feeds `bytes` to the FNV-1a state `hash`.
pub fn update_fnv64(hash: &mut u64, bytes: &[u8])
    ensures
        *final(hash) == fnv1a_from(*old(hash), bytes@),
{
    let mut k: usize = 0;
    while k < bytes.len()
        invariant
            0 <= k <= bytes@.len(),
            *hash == fnv1a_from(*old(hash), bytes@.subrange(0, k as int)),
        decreases bytes@.len() - k,
    {
        assert(bytes@.subrange(0, k + 1).drop_last() =~= bytes@.subrange(0, k as int));
        *hash = *hash ^ (bytes[k] as u64);
        *hash = hash.wrapping_mul(FNV_PRIME);
        k = k + 1;
    }
    assert(bytes@.subrange(0, k as int) =~= bytes@);
}

/// The FNV-1a hash of the UTF-8 bytes of `input`: stable across processes
/// and platforms.
pub fn stable_hash(input: &str) -> (r: u64)
    ensures
        r == fnv1a(vstd::string::StringSliceAdditionalSpecFns::spec_bytes(input)),
{
    let mut hash: u64 = FNV_OFFSET_BASIS;
    update_fnv64(&mut hash, input.as_bytes());
    hash
}

/// `c` may stand in a project name: an ASCII letter or digit, `-` or `_`.
pub open spec fn is_name_char(c: char) -> bool {
    ('a' <= c && c <= 'z') || ('A' <= c && c <= 'Z') || ('0' <= c && c <= '9') || c == '-' || c
        == '_'
}

pub open spec fn trim_underscores(s: Seq<char>) -> Seq<char> {
    trim_by(s, TrimSet::Only('_'))
}

/// Every other character becomes `_`; underscores at both ends are dropped;
/// what is left empty becomes `project`.
pub open spec fn sanitize_project_name_spec(name: Seq<char>) -> Seq<char> {
    let t = trim_underscores(name.map_values(|c: char| if is_name_char(c) { c } else { '_' }));
    if t.len() == 0 {
        "project"@
    } else {
        t
    }
}

/// A file-system-safe project name.
pub fn sanitize_project_name(name: &str) -> (r: String)
    ensures
        r@ == sanitize_project_name_spec(name@),
{
    let n = name.unicode_len();
    let mut mapped: Vec<char> = Vec::new();
    let mut k: usize = 0;
    while k < n
        invariant
            n == name@.len(),
            0 <= k <= n,
            mapped@ == name@.map_values(|c: char| if is_name_char(c) { c } else { '_' }).subrange(
                0,
                k as int,
            ),
        decreases n - k,
    {
        let c = name.get_char(k);
        let keep = ('a' <= c && c <= 'z') || ('A' <= c && c <= 'Z') || ('0' <= c && c <= '9') || c
            == '-' || c == '_';
        mapped.push(
            if keep {
                c
            } else {
                '_'
            },
        );
        k = k + 1;
        assert(mapped@ =~= name@.map_values(|c: char| if is_name_char(c) { c } else { '_' }).subrange(
            0,
            k as int,
        ));
    }
    assert(mapped@ =~= name@.map_values(|c: char| if is_name_char(c) { c } else { '_' }));
    let t = trim_chars(&mapped, TrimSet::Only('_'));
    if t.len() == 0 {
        let mut out = String::new();
        push_str(&mut out, "project");
        out
    } else {
        string_of(&t)
    }
}

/// Index of the first `c` in `s` from `from` on.
pub open spec fn find_from(s: Seq<char>, c: char, from: int) -> Option<int>
    decreases s.len() - from,
{
    if from < 0 || from >= s.len() {
        None
    } else if s[from] == c {
        Some(from)
    } else {
        find_from(s, c, from + 1)
    }
}

pub fn find_char(s: &Vec<char>, c: char, from: usize) -> (r: Option<usize>)
    requires
        from <= s@.len(),
    ensures
        match r {
            Some(i) => find_from(s@, c, from as int) == Some(i as int) && i < s@.len(),
            None => find_from(s@, c, from as int) is None,
        },
{
    let mut i = from;
    while i < s.len()
        invariant
            from <= i <= s@.len(),
            find_from(s@, c, from as int) == find_from(s@, c, i as int),
        decreases s@.len() - i,
    {
        if s[i] == c {
            return Some(i);
        }
        i = i + 1;
    }
    None
}

/// Every character of `s` is an ASCII digit.
pub open spec fn all_digit_chars(s: Seq<char>) -> bool {
    forall|i: int| 0 <= i < s.len() ==> '0' <= #[trigger] s[i] && s[i] <= '9'
}

/// The number that the ASCII digits `s` spell.
pub open spec fn digit_chars_value(s: Seq<char>) -> nat
    decreases s.len(),
{
    if s.len() == 0 {
        0
    } else {
        digit_chars_value(s.drop_last()) * 10 + ((s.last() as u32) - 48) as nat
    }
}

/// What `str::parse::<u128>` accepts: an optional `+`, then one or more
/// digits, spelling a number below 2^128.
pub open spec fn parse_u128_spec(s: Seq<char>) -> Option<u128> {
    let d = if s.len() > 0 && s[0] == '+' {
        s.drop_first()
    } else {
        s
    };
    if d.len() > 0 && all_digit_chars(d) && digit_chars_value(d) <= u128::MAX {
        Some(digit_chars_value(d) as u128)
    } else {
        None
    }
}

proof fn lemma_digit_chars_prefix_le(s: Seq<char>, k: int)
    requires
        all_digit_chars(s),
        0 <= k <= s.len(),
    ensures
        digit_chars_value(s.subrange(0, k)) <= digit_chars_value(s),
    decreases s.len(),
{
    if k == s.len() {
        assert(s.subrange(0, k) =~= s);
    } else {
        let t = s.drop_last();
        assert(t.subrange(0, k) =~= s.subrange(0, k));
        assert(all_digit_chars(t)) by {
            assert forall|i: int| 0 <= i < t.len() implies '0' <= #[trigger] t[i] && t[i] <= '9' by {
                assert(t[i] == s[i]);
            }
        }
        lemma_digit_chars_prefix_le(t, k);
    }
}

fn parse_u128(s: &Vec<char>, start: usize, end: usize) -> (r: Option<u128>)
    requires
        start <= end <= s@.len(),
    ensures
        r == parse_u128_spec(s@.subrange(start as int, end as int)),
{
    let ghost whole = s@.subrange(start as int, end as int);
    let mut p = start;
    if p < end && s[p] == '+' {
        p = p + 1;
    }
    let ghost d = s@.subrange(p as int, end as int);
    assert(d =~= (if whole.len() > 0 && whole[0] == '+' {
        whole.drop_first()
    } else {
        whole
    }));
    if p >= end {
        return None;
    }
    let mut value: u128 = 0;
    let mut k = p;
    while k < end
        invariant
            start <= p <= k <= end <= s@.len(),
            whole == s@.subrange(start as int, end as int),
            d == s@.subrange(p as int, end as int),
            d == (if whole.len() > 0 && whole[0] == '+' {
                whole.drop_first()
            } else {
                whole
            }),
            all_digit_chars(s@.subrange(p as int, k as int)),
            value as nat == digit_chars_value(s@.subrange(p as int, k as int)),
        decreases end - k,
    {
        let c = s[k];
        if c < '0' || c > '9' {
            assert(d[k - p] == c);
            assert(!all_digit_chars(d));
            return None;
        }
        let dv = (c as u32 - 48) as u128;
        let ghost pre = s@.subrange(p as int, (k + 1) as int);
        assert(pre.drop_last() =~= s@.subrange(p as int, k as int));
        assert(all_digit_chars(pre)) by {
            assert forall|i: int| 0 <= i < pre.len() implies '0' <= #[trigger] pre[i] && pre[i]
                <= '9' by {
                if i < pre.len() - 1 {
                    assert(pre[i] == s@.subrange(p as int, k as int)[i]);
                }
            }
        }
        assert(digit_chars_value(pre) == value * 10 + dv);
        if value > (u128::MAX - dv) / 10 {
            proof {
                assert(value * 10 + dv > u128::MAX) by (nonlinear_arith)
                    requires
                        value > (u128::MAX - dv) / 10,
                        dv <= 9,
                ;
                if all_digit_chars(d) {
                    assert(d.subrange(0, (k + 1 - p) as int) =~= pre);
                    lemma_digit_chars_prefix_le(d, (k + 1 - p) as int);
                }
            }
            return None;
        }
        assert(value * 10 + dv <= u128::MAX) by (nonlinear_arith)
            requires
                value <= (u128::MAX - dv) / 10,
                dv <= 9,
        ;
        value = value * 10 + dv;
        k = k + 1;
    }
    assert(s@.subrange(p as int, k as int) =~= d);
    Some(value)
}

/// Where the two dashes of a session identifier stand, if it has exactly two.
pub open spec fn session_dashes(id: Seq<char>) -> Option<(int, int)> {
    match find_from(id, '-', 0) {
        None => None,
        Some(a) => match find_from(id, '-', a + 1) {
            None => None,
            Some(b) => match find_from(id, '-', b + 1) {
                Some(_) => None,
                None => Some((a, b)),
            },
        },
    }
}

/// The start time in a session identifier `session-<pid>-<started_ms>`.
pub open spec fn session_start_spec(id: Seq<char>) -> Option<u128> {
    match session_dashes(id) {
        None => None,
        Some((a, b)) => if id.subrange(0, a) == "session"@ {
            parse_u128_spec(id.skip(b + 1))
        } else {
            None
        },
    }
}

/// The start time, in milliseconds, that a session identifier carries.
pub fn parse_session_start_ms(session_id: &str) -> (r: Option<u128>)
    ensures
        r == session_start_spec(session_id@),
{
    let cs = crate::text::chars_of(session_id);
    let a = match find_char(&cs, '-', 0) {
        None => return None,
        Some(a) => a,
    };
    let b = match find_char(&cs, '-', a + 1) {
        None => return None,
        Some(b) => b,
    };
    match find_char(&cs, '-', b + 1) {
        Some(_) => return None,
        None => {},
    }
    let expected = crate::text::chars_of("session");
    let mut head: Vec<char> = Vec::new();
    let mut k: usize = 0;
    while k < a
        invariant
            a < cs@.len(),
            0 <= k <= a,
            head@ == cs@.subrange(0, k as int),
        decreases a - k,
    {
        head.push(cs[k]);
        k = k + 1;
        assert(head@ =~= cs@.subrange(0, k as int));
    }
    if !crate::text::chars_eq(&head, &expected) {
        return None;
    }
    assert(cs@.subrange((b + 1) as int, cs@.len() as int) =~= cs@.skip(b + 1));
    parse_u128(&cs, b + 1, cs.len())
}

/// A session identifier whose start lies longer ago than the retention.
pub open spec fn is_stale_spec(id: Seq<char>, now_ms: u128) -> bool {
    match session_start_spec(id) {
        None => false,
        Some(start) => (if now_ms >= start {
            now_ms - start
        } else {
            0
        }) > WORKSPACE_SESSION_RETENTION_MS,
    }
}

/// Whether the workspace of session `session_id` may be removed at time
/// `now_ms`: only a well-formed identifier older than the retention.
pub fn is_stale_workspace_session(session_id: &str, now_ms: u128) -> (r: bool)
    ensures
        r == is_stale_spec(session_id@, now_ms),
{
    match parse_session_start_ms(session_id) {
        None => false,
        Some(started_ms) => now_ms.saturating_sub(started_ms) > WORKSPACE_SESSION_RETENTION_MS,
    }
}

/// Directories and files left out of packed archives.
pub open spec fn packed_skip_names() -> Seq<Seq<char>> {
    seq![
        "build"@,
        "dist"@,
        "target"@,
        "node_modules"@,
        ".git"@,
        ".idea"@,
        ".vscode"@,
        "out"@,
        ".DS_Store"@,
        "Thumbs.db"@,
    ]
}

/// ASCII lower case of a character; other characters stay.
pub open spec fn lower_char(c: char) -> char {
    if 'A' <= c && c <= 'Z' {
        (((c as u32) as u8) + 32) as char
    } else {
        c
    }
}

/// `a` and `b` are equal but for the case of ASCII letters.
pub open spec fn eq_ignore_ascii_case(a: Seq<char>, b: Seq<char>) -> bool {
    a.len() == b.len() && forall|i: int| 0 <= i < a.len() ==> lower_char(#[trigger] a[i]) == lower_char(b[i])
}

fn lower_char_exec(c: char) -> (r: char)
    ensures
        r == lower_char(c),
{
    if 'A' <= c && c <= 'Z' {
        (((c as u32) as u8) + 32) as char
    } else {
        c
    }
}

pub fn eq_ignore_case_exec(a: &Vec<char>, b: &Vec<char>) -> (r: bool)
    ensures
        r == eq_ignore_ascii_case(a@, b@),
{
    if a.len() != b.len() {
        return false;
    }
    let mut k: usize = 0;
    while k < a.len()
        invariant
            a@.len() == b@.len(),
            0 <= k <= a@.len(),
            forall|i: int| 0 <= i < k ==> lower_char(#[trigger] a@[i]) == lower_char(b@[i]),
        decreases a@.len() - k,
    {
        if lower_char_exec(a[k]) != lower_char_exec(b[k]) {
            return false;
        }
        k = k + 1;
    }
    true
}

pub open spec fn skip_component_spec(c: Seq<char>) -> bool {
    exists|i: int| 0 <= i < packed_skip_names().len() && eq_ignore_ascii_case(c, #[trigger] packed_skip_names()[i])
}

/// Whether a path component names something left out of packed archives,
/// compared without ASCII case.
pub fn should_skip_packed_component(component: &Vec<char>) -> (r: bool)
    ensures
        r == skip_component_spec(component@),
{
    let names: [&str; 10] = [
        "build",
        "dist",
        "target",
        "node_modules",
        ".git",
        ".idea",
        ".vscode",
        "out",
        ".DS_Store",
        "Thumbs.db",
    ];
    let mut k: usize = 0;
    while k < 10
        invariant
            0 <= k <= 10,
            forall|j: int| 0 <= j < 10 ==> (#[trigger] names@[j])@ == packed_skip_names()[j],
            forall|j: int| 0 <= j < k ==> !eq_ignore_ascii_case(component@, #[trigger] packed_skip_names()[j]),
        decreases 10 - k,
    {
        let candidate = crate::text::chars_of(names[k]);
        if eq_ignore_case_exec(component, &candidate) {
            return true;
        }
        k = k + 1;
    }
    false
}

/// The texts of a sequence of character vectors.
pub open spec fn vviews(v: Seq<Vec<char>>) -> Seq<Seq<char>> {
    v.map_values(|x: Vec<char>| x@)
}

/// The pieces of `s` between `sep` separators (one more than there are separators).
pub open spec fn segments(s: Seq<char>, sep: char) -> Seq<Seq<char>>
    decreases s.len(),
{
    if s.len() == 0 {
        seq![Seq::<char>::empty()]
    } else {
        let p = segments(s.drop_last(), sep);
        if s.last() == sep {
            p.push(Seq::<char>::empty())
        } else {
            p.update(p.len() - 1, p.last().push(s.last()))
        }
    }
}

pub proof fn lemma_segments_nonempty(s: Seq<char>, sep: char)
    ensures
        segments(s, sep).len() >= 1,
    decreases s.len(),
{
    if s.len() > 0 {
        lemma_segments_nonempty(s.drop_last(), sep);
    }
}

/// The pieces that are components: neither empty nor `.`.
pub open spec fn kept_segments(segs: Seq<Seq<char>>) -> Seq<Seq<char>>
    decreases segs.len(),
{
    if segs.len() == 0 {
        Seq::empty()
    } else {
        let p = kept_segments(segs.drop_last());
        if segs.last().len() == 0 || segs.last() == seq!['.'] {
            p
        } else {
            p.push(segs.last())
        }
    }
}

/// The components of a `/`-separated path, as `Path::components` yields them:
/// the root (`/`) or a leading `.` first, then every piece that is neither
/// empty nor `.`.
pub open spec fn components(s: Seq<char>) -> Seq<Seq<char>> {
    let segs = segments(s, '/');
    let head = if s.len() > 0 && s[0] == '/' {
        seq![seq!['/']]
    } else if segs[0] == seq!['.'] {
        seq![seq!['.']]
    } else if segs[0].len() > 0 {
        seq![segs[0]]
    } else {
        Seq::empty()
    };
    head + kept_segments(segs.skip(1))
}

pub fn split_segments(cs: &Vec<char>, sep: char) -> (r: Vec<Vec<char>>)
    ensures
        vviews(r@) == segments(cs@, sep),
{
    let mut done: Vec<Vec<char>> = Vec::new();
    let mut cur: Vec<char> = Vec::new();
    let mut k: usize = 0;
    assert(cs@.subrange(0, 0) =~= Seq::<char>::empty());
    assert(vviews(done@).push(cur@) =~= segments(cs@.subrange(0, 0), sep));
    while k < cs.len()
        invariant
            0 <= k <= cs@.len(),
            vviews(done@).push(cur@) == segments(cs@.subrange(0, k as int), sep),
        decreases cs@.len() - k,
    {
        let c = cs[k];
        let ghost before = vviews(done@);
        let ghost cur_before = cur@;
        assert(cs@.subrange(0, k + 1).drop_last() =~= cs@.subrange(0, k as int));
        assert(cs@.subrange(0, k + 1).last() == c);
        if c == sep {
            let finished = cur;
            done.push(finished);
            cur = Vec::new();
            assert(vviews(done@) =~= before.push(cur_before));
            assert(vviews(done@).push(cur@) =~= segments(cs@.subrange(0, k + 1), sep));
        } else {
            cur.push(c);
            assert(vviews(done@).push(cur@) =~= before.push(cur_before).update(
                before.len() as int,
                cur_before.push(c),
            ));
        }
        k = k + 1;
    }
    assert(cs@.subrange(0, k as int) =~= cs@);
    done.push(cur);
    done
}

/// Whether a path below the project's parent directory is left out of a
/// packed archive: some component after the first (the project directory
/// itself) names a build or tool directory.
pub open spec fn skip_relative_spec(relative: Seq<char>) -> bool {
    exists|i: int|
        1 <= i < components(relative).len() && skip_component_spec(
            #[trigger] components(relative)[i],
        )
}

pub fn should_skip_packed_relative(relative: &str) -> (r: bool)
    ensures
        r == skip_relative_spec(relative@),
{
    let cs = crate::text::chars_of(relative);
    let segs = split_segments(&cs, '/');
    proof {
        lemma_segments_nonempty(cs@, '/');
    }
    let ghost comps = components(cs@);
    let ghost segv = vviews(segs@);
    let first = &segs[0];
    let has_head = (cs.len() > 0 && cs[0] == '/') || (first.len() == 1 && first[0] == '.')
        || first.len() > 0;
    let head_len: usize = if has_head {
        1
    } else {
        0
    };
    assert(segv[0] == first@);
    assert(has_head == (comps.len() - kept_segments(segv.skip(1)).len() == 1)) by {
        if first@.len() == 1 && first@[0] == '.' {
            assert(first@ =~= seq!['.']);
        }
        if first@ == seq!['.'] {
            assert(first@[0] == '.');
        }
    }
    // Components after the first: the kept pieces, less the first of them when
    // no root or leading piece precedes.
    let mut found = false;
    let mut idx: usize = 1;
    let mut seen: usize = 0;
    let ghost kept_all = kept_segments(segv.skip(1));
    assert(comps =~= comps.subrange(0, head_len as int) + kept_all);
    let ghost mut kept_so_far = Seq::<Seq<char>>::empty();
    assert(segv.skip(1).subrange(0, 0) =~= Seq::<Seq<char>>::empty());
    while idx < segs.len()
        invariant
            segv == vviews(segs@),
            segv == segments(cs@, '/'),
            1 <= idx <= segs@.len(),
            comps == components(cs@),
            kept_all == kept_segments(segv.skip(1)),
            comps =~= comps.subrange(0, head_len as int) + kept_all,
            head_len == 0 || head_len == 1,
            comps.len() == head_len + kept_all.len(),
            kept_so_far == kept_segments(segv.skip(1).subrange(0, idx - 1)),
            seen == kept_so_far.len(),
            seen <= idx - 1,
            found == (exists|i: int|
                1 <= i < head_len + seen && skip_component_spec(#[trigger] comps[i])),
            kept_so_far.len() <= kept_all.len(),
            forall|j: int| 0 <= j < kept_so_far.len() ==> kept_so_far[j] == kept_all[j],
        decreases segs@.len() - idx,
    {
        let piece = &segs[idx];
        let ghost sub = segv.skip(1).subrange(0, idx as int);
        assert(sub.drop_last() =~= segv.skip(1).subrange(0, idx - 1));
        assert(sub.last() == piece@);
        let is_dot = piece.len() == 1 && piece[0] == '.';
        assert(is_dot == (piece@ == seq!['.'])) by {
            if piece@ == seq!['.'] {
                assert(seq!['.'][0] == '.');
            }
            if is_dot {
                assert(piece@ =~= seq!['.']);
            }
        }
        if piece.len() > 0 && !is_dot {
            proof {
                lemma_kept_prefix(segv.skip(1), idx as int);
                lemma_kept_len_le(segv.skip(1).subrange(0, idx - 1));
            }
            let ghost pos: int = head_len + seen;
            assert(segv.skip(1)[idx - 1] == piece@);
            assert(kept_all[seen as int] == piece@);
            assert(comps[pos] == piece@);
            let ghost old_found = found;
            let mut hit = false;
            if (head_len > 0 || seen > 0) && !found {
                hit = should_skip_packed_component(piece);
                if hit {
                    found = true;
                }
            }
            assert(found == (exists|i: int|
                1 <= i < pos + 1 && skip_component_spec(#[trigger] comps[i]))) by {
                if found && !old_found {
                    assert(1 <= pos && skip_component_spec(comps[pos]));
                }
                if !found {
                    assert forall|i: int| 1 <= i < pos + 1 implies !skip_component_spec(
                        #[trigger] comps[i],
                    ) by {
                        if i < pos {
                            assert(!(1 <= i < pos && skip_component_spec(comps[i])));
                        }
                    }
                }
            }
            proof {
                kept_so_far = kept_so_far.push(piece@);
            }
            seen = seen + 1;
        }
        idx = idx + 1;
    }
    assert(segv.skip(1).subrange(0, idx - 1) =~= segv.skip(1));
    found
}

proof fn lemma_kept_prefix(segs: Seq<Seq<char>>, n: int)
    requires
        1 <= n <= segs.len(),
    ensures
        kept_segments(segs.subrange(0, n - 1)).len() < kept_segments(segs).len() || segs[n - 1].len()
            == 0 || segs[n - 1] == seq!['.'],
        segs[n - 1].len() > 0 && segs[n - 1] != seq!['.'] ==> kept_segments(segs)[kept_segments(
            segs.subrange(0, n - 1),
        ).len() as int] == segs[n - 1],
    decreases segs.len(),
{
    if n < segs.len() {
        assert(segs.drop_last().subrange(0, n - 1) =~= segs.subrange(0, n - 1));
        assert(segs.drop_last()[n - 1] == segs[n - 1]);
        lemma_kept_prefix(segs.drop_last(), n);
        lemma_kept_len_mono(segs);
    } else {
        assert(segs.subrange(0, n - 1) =~= segs.drop_last());
    }
}

proof fn lemma_kept_len_le(segs: Seq<Seq<char>>)
    ensures
        kept_segments(segs).len() <= segs.len(),
    decreases segs.len(),
{
    if segs.len() > 0 {
        lemma_kept_len_le(segs.drop_last());
    }
}

proof fn lemma_kept_len_mono(segs: Seq<Seq<char>>)
    requires
        segs.len() >= 1,
    ensures
        kept_segments(segs.drop_last()).len() <= kept_segments(segs).len(),
        forall|j: int|
            0 <= j < kept_segments(segs.drop_last()).len() ==> #[trigger] kept_segments(segs)[j]
                == kept_segments(segs.drop_last())[j],
{
}

/// The name of an archive entry: the path below the project's parent, with
/// `\` read as `/`, its first component replaced by `root_name`.
pub open spec fn remap_entry_spec(relative: Seq<char>, root_name: Seq<char>) -> Seq<char> {
    let entry = relative.map_values(|c: char| if c == '\\' { '/' } else { c });
    match find_from(entry, '/', 0) {
        Some(i) => if i + 1 < entry.len() {
            root_name + seq!['/'] + entry.skip(i + 1)
        } else {
            root_name
        },
        None => root_name,
    }
}

pub fn remap_archive_entry_name(relative: &str, root_name: &str) -> (r: String)
    ensures
        r@ == remap_entry_spec(relative@, root_name@),
{
    let n = relative.unicode_len();
    let mut entry: Vec<char> = Vec::new();
    let mut k: usize = 0;
    while k < n
        invariant
            n == relative@.len(),
            0 <= k <= n,
            entry@ == relative@.map_values(|c: char| if c == '\\' { '/' } else { c }).subrange(
                0,
                k as int,
            ),
        decreases n - k,
    {
        let c = relative.get_char(k);
        entry.push(
            if c == '\\' {
                '/'
            } else {
                c
            },
        );
        k = k + 1;
        assert(entry@ =~= relative@.map_values(|c: char| if c == '\\' { '/' } else { c }).subrange(
            0,
            k as int,
        ));
    }
    assert(entry@ =~= relative@.map_values(|c: char| if c == '\\' { '/' } else { c }));
    let mut out = String::new();
    push_str(&mut out, root_name);
    match find_char(&entry, '/', 0) {
        Some(i) => if i + 1 < entry.len() {
            push_char(&mut out, '/');
            let mut q = i + 1;
            let ghost head = out@;
            while q < entry.len()
                invariant
                    i + 1 <= q <= entry@.len(),
                    out@ == head + entry@.subrange(i + 1, q as int),
                decreases entry@.len() - q,
            {
                push_char(&mut out, entry[q]);
                q = q + 1;
                assert(out@ =~= head + entry@.subrange(i + 1, q as int));
            }
            assert(entry@.subrange(i + 1, q as int) =~= entry@.skip(i + 1));
            out
        } else {
            out
        },
        None => out,
    }
}

/// The stem of a file name, as `Path::file_stem` finds it: all before the last
/// `.`, unless that `.` begins the name.
pub open spec fn stem_of(name: Seq<char>) -> Seq<char> {
    match last_dot(name, name.len() as int) {
        Some(d) => if d == 0 {
            name
        } else {
            name.subrange(0, d)
        },
        None => name,
    }
}

/// The stem of the path's file name, if it has one.
pub open spec fn file_stem_spec(path: Seq<char>, host: HostOs) -> Option<Seq<char>> {
    match file_name_span(path, path.len() as int, host) {
        None => None,
        Some((s, e)) => Some(stem_of(path.subrange(s, e))),
    }
}

fn file_stem(path: &Vec<char>, host: HostOs) -> (r: Option<Vec<char>>)
    ensures
        match r {
            Some(v) => file_stem_spec(path@, host) == Some(v@),
            None => file_stem_spec(path@, host) is None,
        },
{
    match crate::launch_args::file_name_bounds(path, host) {
        None => None,
        Some((s, e)) => {
            let ghost name = path@.subrange(s as int, e as int);
            let mut d = e;
            while d > s && path[d - 1] != '.'
                invariant
                    s <= d <= e <= path@.len(),
                    name == path@.subrange(s as int, e as int),
                    last_dot(name, name.len() as int) == last_dot(name, d - s),
                decreases d,
            {
                assert(name[d - s - 1] == path@[d - 1]);
                d = d - 1;
            }
            let stop = if d == s || d - 1 == s {
                e
            } else {
                d - 1
            };
            if d > s {
                assert(name[d - s - 1] == '.');
            }
            let mut out: Vec<char> = Vec::new();
            let mut q = s;
            while q < stop
                invariant
                    s <= q <= stop <= e <= path@.len(),
                    out@ == path@.subrange(s as int, q as int),
                decreases stop - q,
            {
                out.push(path[q]);
                q = q + 1;
                assert(out@ =~= path@.subrange(s as int, q as int));
            }
            assert(out@ =~= stem_of(name));
            Some(out)
        },
    }
}

/// The name of the top directory inside an archive: the archive's stem,
/// sanitised, or `project`.
pub open spec fn archive_root_name_spec(archive_path: Seq<char>, host: HostOs) -> Seq<char> {
    match file_stem_spec(archive_path, host) {
        Some(stem) => sanitize_project_name_spec(stem),
        None => sanitize_project_name_spec("project"@),
    }
}

pub fn archive_root_name_from_path(archive_path: &str, host: HostOs) -> (r: String)
    ensures
        r@ == archive_root_name_spec(archive_path@, host),
{
    let cs = crate::text::chars_of(archive_path);
    match file_stem(&cs, host) {
        Some(stem) => {
            let st = string_of(&stem);
            sanitize_project_name(st.as_str())
        },
        None => sanitize_project_name("project"),
    }
}

/// The archive path with `suffix` appended.
fn with_suffix(path: &str, suffix: &str) -> (r: String)
    ensures
        r@ == path@ + suffix@,
{
    let mut out = String::new();
    push_str(&mut out, path);
    push_str(&mut out, suffix);
    assert(out@ =~= path@ + suffix@);
    out
}

/// Where an archive is written before it replaces the old one.
pub fn build_archive_temp_path(archive_path: &str) -> (r: String)
    ensures
        r@ == archive_path@ + ".tmp"@,
{
    with_suffix(archive_path, ".tmp")
}

/// Where the old archive is kept while the new one replaces it.
pub fn build_archive_backup_path(archive_path: &str) -> (r: String)
    ensures
        r@ == archive_path@ + ".bak"@,
{
    with_suffix(archive_path, ".bak")
}

/// `n` in lower-case hexadecimal, exactly `width` digits (zero-padded, the
/// high digits dropped where it has more).
pub open spec fn hex_fixed(n: nat, width: nat) -> Seq<char>
    decreases width,
{
    if width == 0 {
        Seq::empty()
    } else {
        hex_fixed(n / 16, (width - 1) as nat).push(crate::launcher::hex_lower_digit(n % 16))
    }
}

fn push_hex_fixed(out: &mut String, n: u64, width: u32)
    ensures
        final(out)@ == old(out)@ + hex_fixed(n as nat, width as nat),
    decreases width,
{
    if width == 0 {
        assert(final(out)@ =~= old(out)@ + hex_fixed(n as nat, width as nat));
        return;
    }
    push_hex_fixed(out, n / 16, width - 1);
    let d = (n % 16) as u8;
    let c = if d < 10 {
        (48 + d) as char
    } else {
        (87 + d) as char
    };
    push_char(out, c);
    assert(final(out)@ =~= old(out)@ + hex_fixed(n as nat, width as nat));
}

/// The directory that an archive is unpacked into: its sanitised stem, a
/// dash and the sixteen-digit hash of its whole path.
pub open spec fn packed_workspace_name_spec(archive_path: Seq<char>, host: HostOs) -> Seq<char> {
    archive_root_name_spec(archive_path, host) + seq!['-'] + hex_fixed(
        fnv1a(vstd::utf8::encode_utf8(archive_path)) as nat,
        16,
    )
}

pub fn packed_workspace_name(archive_path: &str, host: HostOs) -> (r: String)
    ensures
        r@ == packed_workspace_name_spec(archive_path@, host),
{
    let mut out = archive_root_name_from_path(archive_path, host);
    push_char(&mut out, '-');
    push_hex_fixed(&mut out, stable_hash(archive_path), 16);
    out
}

/// ASCII decimal digits of `n`.
pub open spec fn decimal_chars(n: nat) -> Seq<char>
    decreases n,
{
    if n < 10 {
        seq![((48 + n) as u8) as char]
    } else {
        decimal_chars(n / 10).push(((48 + n % 10) as u8) as char)
    }
}

fn push_decimal_chars(out: &mut String, n: u128)
    ensures
        final(out)@ == old(out)@ + decimal_chars(n as nat),
    decreases n,
{
    if n >= 10 {
        push_decimal_chars(out, n / 10);
    }
    let d = (n % 10) as u8;
    push_char(out, (48 + d) as char);
    assert(final(out)@ =~= old(out)@ + decimal_chars(n as nat));
}

/// The identifier of this process's unpacking session,
/// `session-<pid>-<started_ms>`, which names its workspace directories.
pub struct WorkspaceSessionState {
    id: String,
}

impl WorkspaceSessionState {
    pub closed spec fn id_spec(&self) -> Seq<char> {
        self.id@
    }

    pub fn new(pid: u32, started_ms: u128) -> (r: Self)
        ensures
            r.id_spec() == "session-"@ + decimal_chars(pid as nat) + seq!['-'] + decimal_chars(
                started_ms as nat,
            ),
    {
        let mut id = String::new();
        push_str(&mut id, "session-");
        push_decimal_chars(&mut id, pid as u128);
        push_char(&mut id, '-');
        push_decimal_chars(&mut id, started_ms);
        WorkspaceSessionState { id }
    }

    pub fn id(&self) -> (r: &str)
        ensures
            r@ == self.id_spec(),
    {
        self.id.as_str()
    }
}

proof fn lemma_decimal_chars(n: nat)
    ensures
        decimal_chars(n).len() >= 1,
        all_digit_chars(decimal_chars(n)),
        digit_chars_value(decimal_chars(n)) == n,
    decreases n,
{
    if n >= 10 {
        lemma_decimal_chars(n / 10);
        let d = decimal_chars(n / 10);
        assert(decimal_chars(n).drop_last() =~= d);
        assert(((((48 + n % 10) as u8) as char) as u32) - 48 == n % 10);
        assert(digit_chars_value(decimal_chars(n)) == digit_chars_value(d) * 10 + n % 10);
    } else {
        assert(decimal_chars(n).drop_last() =~= Seq::<char>::empty());
        assert(((((48 + n) as u8) as char) as u32) - 48 == n);
        assert(digit_chars_value(decimal_chars(n)) == digit_chars_value(Seq::<char>::empty()) * 10 + n);
    }
}

proof fn lemma_find_skip(s: Seq<char>, c: char, from: int, to: int)
    requires
        0 <= from <= to <= s.len(),
        forall|j: int| from <= j < to ==> s[j] != c,
        to < s.len() ==> s[to] == c,
    ensures
        find_from(s, c, from) == (if to < s.len() {
            Some(to)
        } else {
            None::<int>
        }),
    decreases to - from,
{
    if from < to {
        lemma_find_skip(s, c, from + 1, to);
    }
}

/// A session identifier made by `WorkspaceSessionState::new` carries the
/// start time it was made with.
pub proof fn lemma_session_id_round_trip(pid: u32, started_ms: u128)
    ensures
        session_start_spec(
            "session-"@ + decimal_chars(pid as nat) + seq!['-'] + decimal_chars(started_ms as nat),
        ) == Some(started_ms),
{
    reveal_strlit("session-");
    reveal_strlit("session");
    let p = decimal_chars(pid as nat);
    let m = decimal_chars(started_ms as nat);
    lemma_decimal_chars(pid as nat);
    lemma_decimal_chars(started_ms as nat);
    let id = "session-"@ + p + seq!['-'] + m;
    let a = 7int;
    let b: int = 8 + p.len() as int;
    assert(id[a] == '-');
    assert forall|j: int| 0 <= j < a implies id[j] != '-' by {
        assert(id[j] == "session-"@[j]);
    }
    lemma_find_skip(id, '-', 0, a);
    assert forall|j: int| a + 1 <= j < b implies id[j] != '-' by {
        assert(id[j] == p[j - 8]);
    }
    assert(id[b] == '-');
    lemma_find_skip(id, '-', a + 1, b);
    assert forall|j: int| b + 1 <= j < id.len() implies id[j] != '-' by {
        assert(id[j] == m[j - b - 1]);
    }
    lemma_find_skip(id, '-', b + 1, id.len() as int);
    assert(id.subrange(0, a) =~= "session"@);
    assert(id.skip(b + 1) =~= m);
    assert(m[0] != '+');
}

} // verus!
