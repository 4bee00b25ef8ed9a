//! The interface's crash log: lines as they are stored, and when the file is
//! set aside for a new one.
use vstd::prelude::*;
use crate::archive::{segments, split_segments, vviews};
use crate::text::{chars_of, string_of, sub_chars};

verus! {

/// Characters kept of one stored line.
pub const CRASH_LINE_MAX_CHARS: usize = 4000;

/// Size from which the log is moved aside before the next append.
pub const CRASH_LOG_MAX_BYTES: u64 = 1048576;

/// The lines of `s` as `str::lines` yields them: split at `\n`, no last empty line.
pub open spec fn text_lines(s: Seq<char>) -> Seq<Seq<char>> {
    let segs = segments(s, '\n');
    if segs.last().len() == 0 {
        segs.drop_last()
    } else {
        segs
    }
}

/// Each stored line: every `\r` dropped, split into lines, each cut to its
/// first `CRASH_LINE_MAX_CHARS` characters.
pub open spec fn line_pieces(line: Seq<char>) -> Seq<Seq<char>> {
    text_lines(line.filter(|c: char| c != '\r')).map_values(
        |l: Seq<char>| if l.len() > CRASH_LINE_MAX_CHARS { l.subrange(0, CRASH_LINE_MAX_CHARS as int) } else { l },
    )
}

pub open spec fn normalized_lines(lines: Seq<Seq<char>>) -> Seq<Seq<char>>
    decreases lines.len(),
{
    if lines.len() == 0 {
        Seq::empty()
    } else {
        normalized_lines(lines.drop_last()) + line_pieces(lines.last())
    }
}

pub open spec fn string_views(v: Seq<String>) -> Seq<Seq<char>> {
    v.map_values(|s: String| s@)
}

fn without_cr(cs: &Vec<char>) -> (r: Vec<char>)
    ensures
        r@ == cs@.filter(|c: char| c != '\r'),
{
    let mut out: Vec<char> = Vec::new();
    let mut k: usize = 0;
    assert(cs@.subrange(0, 0).filter(|c: char| c != '\r') =~= Seq::<char>::empty());
    while k < cs.len()
        invariant
            0 <= k <= cs@.len(),
            out@ == cs@.subrange(0, k as int).filter(|c: char| c != '\r'),
        decreases cs@.len() - k,
    {
        let ghost pre = cs@.subrange(0, k + 1);
        assert(pre.drop_last() =~= cs@.subrange(0, k as int));
        reveal(Seq::filter);
        if cs[k] != '\r' {
            out.push(cs[k]);
        }
        k = k + 1;
        assert(out@ =~= cs@.subrange(0, k as int).filter(|c: char| c != '\r'));
    }
    assert(cs@.subrange(0, k as int) =~= cs@);
    out
}

/// The lines as they are stored.
pub fn normalize_lines(lines: &Vec<String>) -> (r: Vec<String>)
    ensures
        string_views(r@) == normalized_lines(string_views(lines@)),
{
    let ghost lv = string_views(lines@);
    let mut out: Vec<String> = Vec::new();
    let mut k: usize = 0;
    assert(lv.subrange(0, 0) =~= Seq::<Seq<char>>::empty());
    assert(string_views(out@) =~= Seq::<Seq<char>>::empty());
    while k < lines.len()
        invariant
            lv == string_views(lines@),
            0 <= k <= lines@.len(),
            string_views(out@) == normalized_lines(lv.subrange(0, k as int)),
        decreases lines@.len() - k,
    {
        assert(lv.subrange(0, k + 1).drop_last() =~= lv.subrange(0, k as int));
        assert(lv.subrange(0, k + 1).last() == lines@[k as int]@);
        let cs = without_cr(&chars_of(lines[k].as_str()));
        let segs = split_segments(&cs, '\n');
        let ghost sv = vviews(segs@);
        proof {
            crate::archive::lemma_segments_nonempty(cs@, '\n');
        }
        let count = if segs[segs.len() - 1].len() == 0 {
            segs.len() - 1
        } else {
            segs.len()
        };
        let ghost pieces = line_pieces(lines@[k as int]@);
        assert(sv.last() == segs@[segs.len() - 1]@);
        assert(pieces.len() == count);
        let ghost start = out@;
        let mut j: usize = 0;
        while j < count
            invariant
                sv == vviews(segs@),
                count <= segs@.len(),
                pieces == line_pieces(lines@[k as int]@),
                pieces.len() == count,
                0 <= j <= count,
                string_views(out@) == string_views(start) + pieces.subrange(0, j as int),
                forall|q: int| 0 <= q < count ==> #[trigger] pieces[q] == (if sv[q].len() > CRASH_LINE_MAX_CHARS {
                    sv[q].subrange(0, CRASH_LINE_MAX_CHARS as int)
                } else {
                    sv[q]
                }),
            decreases count - j,
        {
            let seg = &segs[j];
            let clipped = if seg.len() > CRASH_LINE_MAX_CHARS {
                sub_chars(seg, 0, CRASH_LINE_MAX_CHARS)
            } else {
                sub_chars(seg, 0, seg.len())
            };
            assert(clipped@ =~= pieces[j as int]);
            let ghost before = out@;
            out.push(string_of(&clipped));
            assert(string_views(out@) =~= string_views(before).push(clipped@));
            j = j + 1;
            assert(string_views(out@) =~= string_views(start) + pieces.subrange(0, j as int));
        }
        assert(pieces.subrange(0, j as int) =~= pieces);
        k = k + 1;
    }
    assert(lv.subrange(0, k as int) =~= lv);
    out
}

/// The log is moved aside once it has reached the size bound; a missing log
/// is not.
pub fn needs_rotation(size: Option<u64>) -> (r: bool)
    ensures
        r == (match size {
            Some(n) => n >= CRASH_LOG_MAX_BYTES,
            None => false,
        }),
{
    match size {
        Some(n) => n >= CRASH_LOG_MAX_BYTES,
        None => false,
    }
}

} // verus!
