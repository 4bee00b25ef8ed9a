//! Project archives (`.umz`) named on the command line at launch, as plain
//! paths, quoted paths or `file://` URIs, and the queues that hold what
//! start-up found until the interface asks for it.
use vstd::prelude::*;
use vstd::string::StringSliceAdditionalSpecFns;
use crate::platform::HostOs;
use crate::text::{chars_of, from_utf8_lossy, string_of, utf8_lossy};

verus! {

/// Unicode White_Space, which `char::is_whitespace` tests.
pub open spec fn is_unicode_ws(c: char) -> bool {
    ('\u{9}' <= c && c <= '\u{d}') || c == ' ' || c == '\u{85}' || c == '\u{a0}' || c == '\u{1680}'
        || ('\u{2000}' <= c && c <= '\u{200a}') || c == '\u{2028}' || c == '\u{2029}' || c
        == '\u{202f}' || c == '\u{205f}' || c == '\u{3000}'
}

fn is_unicode_ws_exec(c: char) -> (r: bool)
    ensures
        r == is_unicode_ws(c),
{
    ('\u{9}' <= c && c <= '\u{d}') || c == ' ' || c == '\u{85}' || c == '\u{a0}' || c == '\u{1680}'
        || ('\u{2000}' <= c && c <= '\u{200a}') || c == '\u{2028}' || c == '\u{2029}' || c
        == '\u{202f}' || c == '\u{205f}' || c == '\u{3000}'
}

/// What a trim drops at both ends.
#[derive(PartialEq, Eq, Structural, Clone, Copy, Debug)]
pub enum TrimSet {
    /// Unicode whitespace, as `str::trim`.
    Whitespace,
    /// One character, as `trim_matches(c)`.
    Only(char),
}

pub open spec fn trimmed_char(c: char, set: TrimSet) -> bool {
    match set {
        TrimSet::Whitespace => is_unicode_ws(c),
        TrimSet::Only(x) => c == x,
    }
}

pub open spec fn trim_start_by(s: Seq<char>, set: TrimSet) -> Seq<char>
    decreases s.len(),
{
    if s.len() > 0 && trimmed_char(s[0], set) {
        trim_start_by(s.drop_first(), set)
    } else {
        s
    }
}

pub open spec fn trim_end_by(s: Seq<char>, set: TrimSet) -> Seq<char>
    decreases s.len(),
{
    if s.len() > 0 && trimmed_char(s.last(), set) {
        trim_end_by(s.drop_last(), set)
    } else {
        s
    }
}

/// Both ends of `s` stripped of the characters of `set`.
pub open spec fn trim_by(s: Seq<char>, set: TrimSet) -> Seq<char> {
    trim_end_by(trim_start_by(s, set), set)
}

fn trimmed_char_exec(c: char, set: TrimSet) -> (r: bool)
    ensures
        r == trimmed_char(c, set),
{
    match set {
        TrimSet::Whitespace => is_unicode_ws_exec(c),
        TrimSet::Only(x) => c == x,
    }
}

pub fn trim_chars(cs: &Vec<char>, set: TrimSet) -> (r: Vec<char>)
    ensures
        r@ == trim_by(cs@, set),
{
    let n = cs.len();
    let mut i: usize = 0;
    assert(cs@.skip(0) =~= cs@);
    while i < n && trimmed_char_exec(cs[i], set)
        invariant
            n == cs@.len(),
            0 <= i <= n,
            trim_start_by(cs@, set) == trim_start_by(cs@.skip(i as int), set),
        decreases n - i,
    {
        assert(cs@.skip(i as int).drop_first() =~= cs@.skip(i + 1));
        i = i + 1;
    }
    let mut j: usize = n;
    assert(cs@.subrange(i as int, n as int) =~= cs@.skip(i as int));
    while j > i && trimmed_char_exec(cs[j - 1], set)
        invariant
            n == cs@.len(),
            0 <= i <= j <= n,
            trim_start_by(cs@, set) == trim_start_by(cs@.skip(i as int), set),
            !(i < n && trimmed_char(cs@[i as int], set)),
            trim_by(cs@, set) == trim_end_by(cs@.subrange(i as int, j as int), set),
        decreases j,
    {
        assert(cs@.subrange(i as int, j as int).drop_last() =~= cs@.subrange(i as int, j - 1));
        j = j - 1;
    }
    let mut out: Vec<char> = Vec::new();
    let mut k = i;
    while k < j
        invariant
            i <= k <= j <= cs@.len(),
            out@ == cs@.subrange(i as int, k as int),
        decreases j - k,
    {
        out.push(cs[k]);
        k = k + 1;
        assert(out@ =~= cs@.subrange(i as int, k as int));
    }
    out
}

/// `cs` without the characters of `set` at its start.
pub fn trim_start_chars(cs: &Vec<char>, set: TrimSet) -> (r: Vec<char>)
    ensures
        r@ == trim_start_by(cs@, set),
{
    let n = cs.len();
    let mut i: usize = 0;
    assert(cs@.skip(0) =~= cs@);
    while i < n && trimmed_char_exec(cs[i], set)
        invariant
            n == cs@.len(),
            0 <= i <= n,
            trim_start_by(cs@, set) == trim_start_by(cs@.skip(i as int), set),
        decreases n - i,
    {
        assert(cs@.skip(i as int).drop_first() =~= cs@.skip(i + 1));
        i = i + 1;
    }
    let r = crate::text::sub_chars(cs, i, n);
    assert(r@ =~= cs@.skip(i as int));
    r
}

/// `cs` without the characters of `set` at its end.
pub fn trim_end_chars(cs: &Vec<char>, set: TrimSet) -> (r: Vec<char>)
    ensures
        r@ == trim_end_by(cs@, set),
{
    let mut j: usize = cs.len();
    assert(cs@.subrange(0, j as int) =~= cs@);
    while j > 0 && trimmed_char_exec(cs[j - 1], set)
        invariant
            0 <= j <= cs@.len(),
            trim_end_by(cs@, set) == trim_end_by(cs@.subrange(0, j as int), set),
        decreases j,
    {
        assert(cs@.subrange(0, j as int).drop_last() =~= cs@.subrange(0, j - 1));
        j = j - 1;
    }
    crate::text::sub_chars(cs, 0, j)
}

/// Lower case of an ASCII byte; other bytes stay.
pub open spec fn ascii_lower(b: u8) -> u8 {
    if 65 <= b && b <= 90 {
        (b + 32) as u8
    } else {
        b
    }
}

/// `s` begins with `p`, ASCII letters compared without case.
pub open spec fn starts_with_ci(s: Seq<u8>, p: Seq<u8>) -> bool {
    s.len() >= p.len() && forall|i: int|
        0 <= i < p.len() ==> ascii_lower(#[trigger] s[i]) == ascii_lower(p[i])
}

fn lower_byte(b: u8) -> (r: u8)
    ensures
        r == ascii_lower(b),
{
    if b >= 65 && b <= 90 {
        b + 32
    } else {
        b
    }
}

pub fn starts_with_ci_exec(s: &[u8], from: usize, p: &[u8]) -> (r: bool)
    requires
        from <= s@.len(),
    ensures
        r == starts_with_ci(s@.skip(from as int), p@),
{
    let n = s.len();
    if n - from < p.len() {
        return false;
    }
    let mut k: usize = 0;
    while k < p.len()
        invariant
            n == s@.len(),
            from <= s@.len(),
            s@.len() - from >= p@.len(),
            0 <= k <= p@.len(),
            forall|i: int|
                0 <= i < k ==> ascii_lower(#[trigger] s@.skip(from as int)[i]) == ascii_lower(
                    p@[i],
                ),
        decreases p@.len() - k,
    {
        if lower_byte(s[from + k]) != lower_byte(p[k]) {
            assert(s@.skip(from as int)[k as int] == s@[from + k]);
            return false;
        }
        k = k + 1;
    }
    true
}

/// Decodes `%XX` escapes of two hexadecimal digits into the byte they name;
/// anything else is kept.
pub open spec fn unescape_bytes(bs: Seq<u8>) -> Seq<u8>
    decreases bs.len(),
{
    if bs.len() == 0 {
        Seq::empty()
    } else if bs[0] == 37 && bs.len() > 2 && crate::uri::hex_value_spec(bs[1]) is Some
        && crate::uri::hex_value_spec(bs[2]) is Some {
        seq![
            (crate::uri::hex_value_spec(bs[1]).unwrap() * 16 + crate::uri::hex_value_spec(
                bs[2],
            ).unwrap()) as u8,
        ] + unescape_bytes(bs.skip(3))
    } else {
        seq![bs[0]] + unescape_bytes(bs.drop_first())
    }
}

fn hex_digit(b: u8) -> (r: Option<u8>)
    ensures
        r == crate::uri::hex_value_spec(b),
{
    if b >= 48 && b <= 57 {
        Some(b - 48)
    } else if b >= 97 && b <= 102 {
        Some(b - 97 + 10)
    } else if b >= 65 && b <= 70 {
        Some(b - 65 + 10)
    } else {
        None
    }
}

/// Percent-decodes `input` from byte `from` on; the bytes are then read as
/// UTF-8, invalid sequences replaced.
pub fn percent_decode(input: &[u8], from: usize) -> (r: String)
    requires
        from <= input@.len(),
    ensures
        r@ == utf8_lossy(unescape_bytes(input@.skip(from as int))),
{
    let n = input.len();
    let mut out: Vec<u8> = Vec::new();
    let mut i = from;
    let ghost whole = input@.skip(from as int);
    assert(input@.skip(from as int) =~= whole);
    assert(unescape_bytes(whole) =~= out@ + unescape_bytes(input@.skip(i as int)));
    while i < n
        invariant
            n == input@.len(),
            from <= i <= n,
            whole == input@.skip(from as int),
            unescape_bytes(whole) == out@ + unescape_bytes(input@.skip(i as int)),
        decreases n - i,
    {
        let ghost tail = input@.skip(i as int);
        let b = input[i];
        if b == 37 && n - i > 2 {
            match (hex_digit(input[i + 1]), hex_digit(input[i + 2])) {
                (Some(h), Some(l)) => {
                    assert(tail.skip(3) =~= input@.skip(i + 3));
                    out.push(h * 16 + l);
                    i = i + 3;
                    assert(unescape_bytes(whole) =~= out@ + unescape_bytes(input@.skip(i as int)));
                    continue;
                },
                _ => {},
            }
        }
        assert(tail.drop_first() =~= input@.skip(i + 1));
        out.push(b);
        i = i + 1;
        assert(unescape_bytes(whole) =~= out@ + unescape_bytes(input@.skip(i as int)));
    }
    assert(input@.skip(i as int) =~= Seq::<u8>::empty());
    assert(out@ =~= unescape_bytes(whole));
    from_utf8_lossy(out.as_slice())
}

/// `localhost/` as bytes.
pub open spec fn localhost_bytes() -> Seq<u8> {
    seq![108u8, 111u8, 99u8, 97u8, 108u8, 104u8, 111u8, 115u8, 116u8, 47u8]
}

/// A Windows path made of a decoded URI path: the `/` before a drive letter
/// dropped, a host name made a network path, and `/` turned into `\`.
pub open spec fn windows_uri_path(d: Seq<char>) -> Seq<char> {
    let n = if d.len() > 0 && d[0] == '/' && d.len() > 2 && d[2] == ':' {
        d.drop_first()
    } else if !(d.len() > 0 && d[0] == '/') && !d.contains(':') {
        seq!['\\', '\\'] + d
    } else {
        d
    };
    n.map_values(|c: char| if c == '/' { '\\' } else { c })
}

/// The path that a `file://` URI (scheme in any case, an optional
/// `localhost/` host) names, or `None` for anything else or an empty path.
pub open spec fn file_uri_path_spec(raw: Seq<u8>, host: HostOs) -> Option<Seq<char>> {
    if !starts_with_ci(raw, crate::uri::scheme_bytes()) {
        None
    } else {
        let body = raw.skip(7);
        let body2 = if starts_with_ci(body, localhost_bytes()) {
            body.skip(10)
        } else {
            body
        };
        if body2.len() == 0 {
            None
        } else {
            let decoded = utf8_lossy(unescape_bytes(body2));
            if host == HostOs::Windows {
                Some(windows_uri_path(decoded))
            } else {
                Some(decoded)
            }
        }
    }
}

fn windows_path_of(d: &Vec<char>) -> (r: Vec<char>)
    ensures
        r@ == windows_uri_path(d@),
{
    let mut has_colon = false;
    let mut k: usize = 0;
    while k < d.len()
        invariant
            0 <= k <= d@.len(),
            has_colon == (exists|i: int| 0 <= i < k && #[trigger] d@[i] == ':'),
        decreases d@.len() - k,
    {
        if d[k] == ':' {
            has_colon = true;
        }
        k = k + 1;
    }
    assert(has_colon == d@.contains(':'));
    let starts_slash = d.len() > 0 && d[0] == '/';
    let mut base: Vec<char> = Vec::new();
    let mut start: usize = 0;
    if starts_slash && d.len() > 2 && d[2] == ':' {
        start = 1;
    } else if !starts_slash && !has_colon {
        base.push('\\');
        base.push('\\');
    }
    let ghost pre = base@;
    let ghost n = if start == 1 {
        d@.drop_first()
    } else {
        pre + d@
    };
    assert(n == (if d@.len() > 0 && d@[0] == '/' && d@.len() > 2 && d@[2] == ':' {
        d@.drop_first()
    } else if !(d@.len() > 0 && d@[0] == '/') && !d@.contains(':') {
        seq!['\\', '\\'] + d@
    } else {
        d@
    })) by {
        if start == 0 && pre.len() == 0 {
            assert(pre + d@ =~= d@);
        }
    }
    let mut m: Vec<char> = base;
    let mut t = start;
    assert(d@.skip(start as int) =~= (if start == 1 { d@.drop_first() } else { d@ }));
    while t < d.len()
        invariant
            start <= t <= d@.len(),
            m@ == pre + d@.subrange(start as int, t as int),
        decreases d@.len() - t,
    {
        m.push(d[t]);
        t = t + 1;
        assert(m@ =~= pre + d@.subrange(start as int, t as int));
    }
    assert(m@ =~= n) by {
        if start == 1 {
            assert(pre.len() == 0);
            assert(pre + d@.subrange(1, d@.len() as int) =~= d@.drop_first());
        } else {
            assert(d@.subrange(0, d@.len() as int) =~= d@);
        }
    }
    let mut out: Vec<char> = Vec::new();
    let mut q: usize = 0;
    while q < m.len()
        invariant
            0 <= q <= m@.len(),
            m@ == n,
            out@ == n.map_values(|c: char| if c == '/' { '\\' } else { c }).subrange(0, q as int),
        decreases m@.len() - q,
    {
        let c = m[q];
        out.push(
            if c == '/' {
                '\\'
            } else {
                c
            },
        );
        q = q + 1;
        assert(out@ =~= n.map_values(|c: char| if c == '/' { '\\' } else { c }).subrange(
            0,
            q as int,
        ));
    }
    assert(out@ =~= n.map_values(|c: char| if c == '/' { '\\' } else { c }));
    out
}

/// The path that a `file://` URI names; `None` where `raw` is no such URI or
/// names an empty path.
pub fn parse_file_uri_path(raw: &str, host: HostOs) -> (r: Option<String>)
    ensures
        match r {
            Some(p) => file_uri_path_spec(raw.spec_bytes(), host) == Some(p@),
            None => file_uri_path_spec(raw.spec_bytes(), host) is None,
        },
{
    let bytes = raw.as_bytes();
    let scheme = vec![102u8, 105u8, 108u8, 101u8, 58u8, 47u8, 47u8];
    assert(scheme@ =~= crate::uri::scheme_bytes());
    let localhost = vec![108u8, 111u8, 99u8, 97u8, 108u8, 104u8, 111u8, 115u8, 116u8, 47u8];
    assert(localhost@ =~= localhost_bytes());
    assert(bytes@.skip(0) =~= bytes@);
    if !starts_with_ci_exec(bytes, 0, scheme.as_slice()) {
        return None;
    }
    let mut from: usize = 7;
    if starts_with_ci_exec(bytes, 7, localhost.as_slice()) {
        assert(bytes@.skip(7).skip(10) =~= bytes@.skip(17));
        from = 17;
    }
    if from >= bytes.len() {
        return None;
    }
    let decoded = percent_decode(bytes, from);
    if host == HostOs::Windows {
        let cs = chars_of(decoded.as_str());
        let w = windows_path_of(&cs);
        Some(string_of(&w))
    } else {
        Some(decoded)
    }
}

/// A path separator on the host.
pub open spec fn is_sep(c: char, host: HostOs) -> bool {
    c == '/' || (host == HostOs::Windows && c == '\\')
}

/// Start of the component that ends at `e`.
pub open spec fn component_start(p: Seq<char>, e: int, host: HostOs) -> int
    decreases e,
{
    if e <= 0 || is_sep(p[e - 1], host) {
        e
    } else {
        component_start(p, e - 1, host)
    }
}

/// The span of the file name of `p[..e]`, as `Path::file_name` finds it:
/// trailing separators and `.` components are passed over; `..` has none.
pub open spec fn file_name_span(p: Seq<char>, e: int, host: HostOs) -> Option<(int, int)>
    decreases e,
{
    if e <= 0 {
        None
    } else if is_sep(p[e - 1], host) {
        file_name_span(p, e - 1, host)
    } else {
        let s = component_start(p, e, host);
        if p.subrange(s, e) == seq!['.'] {
            if 0 <= s < e {
                file_name_span(p, s, host)
            } else {
                None
            }
        } else if p.subrange(s, e) == seq!['.', '.'] {
            None
        } else {
            Some((s, e))
        }
    }
}

/// Index of the last `.` in `n[..i]`, if any.
pub open spec fn last_dot(n: Seq<char>, i: int) -> Option<int>
    decreases i,
{
    if i <= 0 {
        None
    } else if n[i - 1] == '.' {
        Some(i - 1)
    } else {
        last_dot(n, i - 1)
    }
}

/// The extension of a file name, as `Path::extension` finds it: what follows
/// the last `.`, unless that `.` begins the name.
pub open spec fn extension_of(n: Seq<char>) -> Option<Seq<char>> {
    match last_dot(n, n.len() as int) {
        None => None,
        Some(d) => if d == 0 {
            None
        } else {
            Some(n.skip(d + 1))
        },
    }
}

/// `e` is `umz` in any ASCII case.
pub open spec fn is_umz(e: Seq<char>) -> bool {
    e.len() == 3 && (e[0] == 'u' || e[0] == 'U') && (e[1] == 'm' || e[1] == 'M') && (e[2] == 'z'
        || e[2] == 'Z')
}

/// The path has a file name whose extension is `umz` in any case.
pub open spec fn has_umz_extension(p: Seq<char>, host: HostOs) -> bool {
    match file_name_span(p, p.len() as int, host) {
        None => false,
        Some((s, e)) => match extension_of(p.subrange(s, e)) {
            None => false,
            Some(x) => is_umz(x),
        },
    }
}

fn is_sep_exec(c: char, host: HostOs) -> (r: bool)
    ensures
        r == is_sep(c, host),
{
    c == '/' || (host == HostOs::Windows && c == '\\')
}

/// Where the file name of a path stands, as `Path::file_name` finds it.
pub fn file_name_bounds(p: &Vec<char>, host: HostOs) -> (r: Option<(usize, usize)>)
    ensures
        match r {
            Some((s, e)) => file_name_span(p@, p@.len() as int, host) == Some((s as int, e as int))
                && s < e <= p@.len(),
            None => file_name_span(p@, p@.len() as int, host) is None,
        },
{
    let mut e = p.len();
    loop
        invariant
            e <= p@.len(),
            file_name_span(p@, p@.len() as int, host) == file_name_span(p@, e as int, host),
        decreases e,
    {
        if e == 0 {
            return None;
        }
        if is_sep_exec(p[e - 1], host) {
            e = e - 1;
            continue;
        }
        let mut s = e;
        while s > 0 && !is_sep_exec(p[s - 1], host)
            invariant
                s <= e <= p@.len(),
                e > 0 && !is_sep(p@[e - 1], host),
                component_start(p@, e as int, host) == component_start(p@, s as int, host),
            decreases s,
        {
            s = s - 1;
        }
        let len = e - s;
        let is_dot = len == 1 && p[s] == '.';
        let is_dotdot = len == 2 && p[s] == '.' && p[s + 1] == '.';
        let ghost seg = p@.subrange(s as int, e as int);
        assert(seg.len() == len);
        assert(len >= 1 ==> seg[0] == p@[s as int]);
        assert(len >= 2 ==> seg[1] == p@[s + 1]);
        assert(is_dot == (seg == seq!['.'])) by {
            if seg == seq!['.'] {
                assert(seq!['.'][0] == '.');
            }
            if is_dot {
                assert(seg =~= seq!['.']);
            }
        }
        assert(is_dotdot == (seg == seq!['.', '.'])) by {
            if seg == seq!['.', '.'] {
                assert(seq!['.', '.'][0] == '.' && seq!['.', '.'][1] == '.');
            }
            if is_dotdot {
                assert(seg =~= seq!['.', '.']);
            }
        }
        if is_dot {
            e = s;
            continue;
        }
        if is_dotdot {
            return None;
        }
        return Some((s, e));
    }
}

fn has_umz_extension_exec(p: &Vec<char>, host: HostOs) -> (r: bool)
    ensures
        r == has_umz_extension(p@, host),
{
    let (s, e) = match file_name_bounds(p, host) {
        None => return false,
        Some(span) => span,
    };
    let ghost name = p@.subrange(s as int, e as int);
    let mut d = e;
    while d > s && p[d - 1] != '.'
        invariant
            s <= d <= e <= p@.len(),
            name == p@.subrange(s as int, e as int),
            last_dot(name, name.len() as int) == last_dot(name, d - s),
        decreases d,
    {
        assert(name[d - s - 1] == p@[d - 1]);
        d = d - 1;
    }
    if d == s {
        return false;
    }
    assert(name[d - s - 1] == '.');
    if d - 1 == s {
        return false;
    }
    assert(name.skip(d - s) =~= p@.subrange(d as int, e as int));
    if e - d != 3 {
        return false;
    }
    let a = p[d];
    let b = p[d + 1];
    let c = p[d + 2];
    (a == 'u' || a == 'U') && (b == 'm' || b == 'M') && (c == 'z' || c == 'Z')
}

/// What a launch argument names, if it is a project archive: the argument,
/// with whitespace and then double quotes trimmed, must not start with `-`; a
/// `file://` URI is read as its path; the path must end in `.umz`, any case.
pub open spec fn launch_arg_spec(raw: Seq<char>, host: HostOs) -> Option<Seq<char>> {
    let t = trim_by(trim_by(raw, TrimSet::Whitespace), TrimSet::Only('"'));
    if t.len() == 0 || t[0] == '-' {
        None
    } else {
        let p = match file_uri_path_spec(vstd::utf8::encode_utf8(t), host) {
            Some(q) => q,
            None => t,
        };
        if has_umz_extension(p, host) {
            Some(p)
        } else {
            None
        }
    }
}

/// The project archive that a launch argument names, if any.
pub fn parse_launch_umz_arg(raw: &str, host: HostOs) -> (r: Option<String>)
    ensures
        match r {
            Some(p) => launch_arg_spec(raw@, host) == Some(p@),
            None => launch_arg_spec(raw@, host) is None,
        },
{
    let cs = chars_of(raw);
    let t1 = trim_chars(&cs, TrimSet::Whitespace);
    let t = trim_chars(&t1, TrimSet::Only('"'));
    if t.len() == 0 || t[0] == '-' {
        return None;
    }
    let ts = string_of(&t);
    let path = match parse_file_uri_path(ts.as_str(), host) {
        Some(q) => q,
        None => ts,
    };
    let pc = chars_of(path.as_str());
    if has_umz_extension_exec(&pc, host) {
        Some(path)
    } else {
        None
    }
}

/// The project archives that the launch arguments name, in order.
pub open spec fn collect_spec(args: Seq<Seq<char>>, host: HostOs) -> Seq<Seq<char>>
    decreases args.len(),
{
    if args.len() == 0 {
        Seq::empty()
    } else {
        let rest = collect_spec(args.drop_last(), host);
        match launch_arg_spec(args.last(), host) {
            Some(p) => rest.push(p),
            None => rest,
        }
    }
}

/// The project archives that the launch arguments name, in their order.
pub fn collect_umz_paths_from_args(args: &Vec<String>, host: HostOs) -> (r: Vec<String>)
    ensures
        r@.map_values(|s: String| s@) == collect_spec(args@.map_values(|s: String| s@), host),
{
    let ghost all = args@.map_values(|s: String| s@);
    let mut out: Vec<String> = Vec::new();
    let mut k: usize = 0;
    while k < args.len()
        invariant
            0 <= k <= args@.len(),
            all == args@.map_values(|s: String| s@),
            out@.map_values(|s: String| s@) == collect_spec(all.subrange(0, k as int), host),
        decreases args@.len() - k,
    {
        assert(all.subrange(0, k + 1).drop_last() =~= all.subrange(0, k as int));
        match parse_launch_umz_arg(args[k].as_str(), host) {
            Some(p) => {
                out.push(p);
            },
            None => {},
        }
        k = k + 1;
        assert(out@.map_values(|s: String| s@) =~= collect_spec(all.subrange(0, k as int), host));
    }
    assert(all.subrange(0, k as int) =~= all);
    out
}

/// The texts of a sequence of strings.
pub open spec fn views(v: Seq<String>) -> Seq<Seq<char>> {
    v.map_values(|s: String| s@)
}

/// Lines logged during start-up, kept until the interface takes them.
pub struct StartupLogState {
    lines: Vec<String>,
}

impl StartupLogState {
    pub closed spec fn lines(&self) -> Seq<Seq<char>> {
        views(self.lines@)
    }

    pub fn new() -> (r: Self)
        ensures
            r.lines() == Seq::<Seq<char>>::empty(),
    {
        let r = StartupLogState { lines: Vec::new() };
        assert(r.lines() =~= Seq::<Seq<char>>::empty());
        r
    }

    /// Keeps `lines` after those kept before.
    pub fn append(&mut self, lines: Vec<String>)
        ensures
            final(self).lines() == old(self).lines() + views(lines@),
    {
        let mut k: usize = 0;
        while k < lines.len()
            invariant
                0 <= k <= lines@.len(),
                self.lines() == old(self).lines() + views(lines@).subrange(
                    0,
                    k as int,
                ),
            decreases lines@.len() - k,
        {
            let item = lines[k].clone();
            assert(item@ == lines@[k as int]@);
            let ghost before = self.lines@;
            self.lines.push(item);
            assert(views(self.lines@) =~= views(before).push(item@));
            k = k + 1;
            assert(self.lines() =~= old(self).lines() + views(lines@).subrange(
                0,
                k as int,
            ));
        }
        assert(views(lines@).subrange(0, k as int) =~= views(lines@));
    }

    /// Hands over the kept lines and keeps none.
    pub fn take(&mut self) -> (r: Vec<String>)
        ensures
            r@.map_values(|s: String| s@) == old(self).lines(),
            final(self).lines() == Seq::<Seq<char>>::empty(),
    {
        let mut out: Vec<String> = Vec::new();
        std::mem::swap(&mut out, &mut self.lines);
        assert(self.lines() =~= Seq::<Seq<char>>::empty());
        out
    }
}

/// Project archives to open, kept until the interface takes them.
pub struct LaunchOpenState {
    pending_paths: Vec<String>,
}

impl LaunchOpenState {
    pub closed spec fn pending(&self) -> Seq<Seq<char>> {
        views(self.pending_paths@)
    }

    pub fn new() -> (r: Self)
        ensures
            r.pending() == Seq::<Seq<char>>::empty(),
    {
        let r = LaunchOpenState { pending_paths: Vec::new() };
        assert(r.pending() =~= Seq::<Seq<char>>::empty());
        r
    }

    /// Queues `paths`. The result says whether the interface is to be told
    /// that paths are waiting: only where there were any.
    pub fn queue(&mut self, paths: Vec<String>) -> (r: bool)
        ensures
            r == (paths@.len() > 0),
            final(self).pending() == old(self).pending() + views(paths@),
    {
        if paths.len() == 0 {
            assert(views(paths@) =~= Seq::<Seq<char>>::empty());
            assert(self.pending() =~= old(self).pending() + views(paths@));
            return false;
        }
        let mut k: usize = 0;
        while k < paths.len()
            invariant
                0 <= k <= paths@.len(),
                self.pending() == old(self).pending() + views(paths@).subrange(
                    0,
                    k as int,
                ),
            decreases paths@.len() - k,
        {
            let item = paths[k].clone();
            assert(item@ == paths@[k as int]@);
            let ghost before = self.pending_paths@;
            self.pending_paths.push(item);
            assert(views(self.pending_paths@) =~= views(before).push(item@));
            k = k + 1;
            assert(self.pending() =~= old(self).pending() + views(paths@).subrange(0, k as int));
        }
        assert(views(paths@).subrange(0, k as int) =~= views(paths@));
        true
    }

    /// Hands over the queued paths and keeps none.
    pub fn take(&mut self) -> (r: Vec<String>)
        ensures
            r@.map_values(|s: String| s@) == old(self).pending(),
            final(self).pending() == Seq::<Seq<char>>::empty(),
    {
        let mut out: Vec<String> = Vec::new();
        std::mem::swap(&mut out, &mut self.pending_paths);
        assert(self.pending() =~= Seq::<Seq<char>>::empty());
        out
    }
}

} // verus!
