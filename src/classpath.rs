//! Class paths as project files write them and as the Java tools take them.
use vstd::prelude::*;
use crate::archive::{segments, split_segments, vviews};
use crate::launch_args::{trim_by, trim_chars, TrimSet};
use crate::platform::HostOs;
use crate::text::{chars_of, push_str, string_of};

verus! {

/// The `:` at index 1 of a value that begins with a drive letter and goes on
/// with a path separator (`C:\...`, `C:/...`) separates nothing.
pub open spec fn is_drive_colon(cs: Seq<char>, i: int) -> bool {
    i == 1 && (('a' <= cs[0] && cs[0] <= 'z') || ('A' <= cs[0] && cs[0] <= 'Z')) && i + 1 < cs.len()
        && (cs[i + 1] == '\\' || cs[i + 1] == '/')
}

/// Entries are separated by `;`, and by `:` but for a drive colon.
pub open spec fn is_entry_separator(cs: Seq<char>, i: int) -> bool {
    cs[i] == ';' || (cs[i] == ':' && !is_drive_colon(cs, i))
}

/// The value with every separator written as `;`.
pub open spec fn separators_unified(cs: Seq<char>) -> Seq<char> {
    Seq::new(cs.len(), |i: int| if is_entry_separator(cs, i) { ';' } else { cs[i] })
}

/// The pieces, trimmed, that are not empty.
pub open spec fn nonempty_trimmed(pieces: Seq<Seq<char>>) -> Seq<Seq<char>>
    decreases pieces.len(),
{
    if pieces.len() == 0 {
        Seq::empty()
    } else {
        let p = nonempty_trimmed(pieces.drop_last());
        let t = trim_by(pieces.last(), TrimSet::Whitespace);
        if t.len() == 0 {
            p
        } else {
            p.push(t)
        }
    }
}

/// The entries of a class path value: the trimmed, non-empty pieces between
/// separators.
pub open spec fn split_classpath_spec(value: Seq<char>) -> Seq<Seq<char>> {
    nonempty_trimmed(segments(separators_unified(value), ';'))
}

pub open spec fn string_views(v: Seq<String>) -> Seq<Seq<char>> {
    v.map_values(|s: String| s@)
}

pub fn split_classpath(value: &str) -> (r: Vec<String>)
    ensures
        string_views(r@) == split_classpath_spec(value@),
{
    let cs = chars_of(value);
    let n = cs.len();
    let mut unified: Vec<char> = Vec::new();
    let mut i: usize = 0;
    while i < n
        invariant
            n == cs@.len(),
            0 <= i <= n,
            unified@ == separators_unified(cs@).subrange(0, i as int),
        decreases n - i,
    {
        let c = cs[i];
        let drive = i == 1 && (('a' <= cs[0] && cs[0] <= 'z') || ('A' <= cs[0] && cs[0] <= 'Z'))
            && i + 1 < n && (cs[i + 1] == '\\' || cs[i + 1] == '/');
        let sep = c == ';' || (c == ':' && !drive);
        unified.push(
            if sep {
                ';'
            } else {
                c
            },
        );
        i = i + 1;
        assert(unified@ =~= separators_unified(cs@).subrange(0, i as int));
    }
    assert(unified@ =~= separators_unified(cs@));
    let pieces = split_segments(&unified, ';');
    let ghost pv = vviews(pieces@);
    let mut out: Vec<String> = Vec::new();
    let mut k: usize = 0;
    assert(pv.subrange(0, 0) =~= Seq::<Seq<char>>::empty());
    assert(string_views(out@) =~= Seq::<Seq<char>>::empty());
    while k < pieces.len()
        invariant
            pv == vviews(pieces@),
            0 <= k <= pieces@.len(),
            string_views(out@) == nonempty_trimmed(pv.subrange(0, k as int)),
        decreases pieces@.len() - k,
    {
        assert(pv.subrange(0, k + 1).drop_last() =~= pv.subrange(0, k as int));
        assert(pv.subrange(0, k + 1).last() == pieces@[k as int]@);
        let t = trim_chars(&pieces[k], TrimSet::Whitespace);
        if t.len() > 0 {
            let ghost before = out@;
            out.push(string_of(&t));
            assert(string_views(out@) =~= string_views(before).push(t@));
        }
        k = k + 1;
    }
    assert(pv.subrange(0, k as int) =~= pv);
    out
}

/// The entries joined by `sep`.
pub open spec fn joined(entries: Seq<Seq<char>>, sep: Seq<char>) -> Seq<char>
    decreases entries.len(),
{
    if entries.len() == 0 {
        Seq::empty()
    } else if entries.len() == 1 {
        entries[0]
    } else {
        joined(entries.drop_last(), sep) + sep + entries.last()
    }
}

/// The class path separator of the host: `;` on Windows, `:` elsewhere.
pub open spec fn classpath_separator(os: HostOs) -> Seq<char> {
    if os == HostOs::Windows {
        ";"@
    } else {
        ":"@
    }
}

/// A class path made of `entries` for the host.
pub fn join_classpath(entries: &Vec<String>, os: HostOs) -> (r: String)
    ensures
        r@ == joined(string_views(entries@), classpath_separator(os)),
{
    let sep = if os == HostOs::Windows {
        ";"
    } else {
        ":"
    };
    let ghost ev = string_views(entries@);
    let mut out = String::new();
    let mut k: usize = 0;
    assert(ev.subrange(0, 0) =~= Seq::<Seq<char>>::empty());
    while k < entries.len()
        invariant
            ev == string_views(entries@),
            sep@ == classpath_separator(os),
            0 <= k <= entries@.len(),
            out@ == joined(ev.subrange(0, k as int), sep@),
        decreases entries@.len() - k,
    {
        assert(ev.subrange(0, k + 1).drop_last() =~= ev.subrange(0, k as int));
        if k > 0 {
            push_str(&mut out, sep);
        } else {
            assert(out@ =~= Seq::<char>::empty());
        }
        push_str(&mut out, entries[k].as_str());
        k = k + 1;
        proof {
            if k == 1 {
                assert(out@ =~= ev.subrange(0, 1)[0]);
            }
        }
    }
    assert(ev.subrange(0, k as int) =~= ev);
    out
}

} // verus!
