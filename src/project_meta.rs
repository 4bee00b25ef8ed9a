//! The Eclipse project files that the language server needs, made from a
//! NetBeans-style `nbproject/project.properties` where the project has one.
use vstd::prelude::*;
use crate::archive::{find_char, find_from, segments, split_segments, vviews};
use crate::launch_args::{
    trim_by, trim_chars, trim_end_by, trim_end_chars, trim_start_by, trim_start_chars, TrimSet,
};
use crate::text::{chars_of, push_str, string_of, sub_chars};

verus! {

/// The entry that one trimmed line of a properties file sets: `key=value`
/// (or `key:value` where the line has no `=`), both sides trimmed; comments,
/// blank lines, lines without a key and lines without a separator set none.
pub open spec fn property_line(t: Seq<char>) -> Option<(Seq<char>, Seq<char>)> {
    if t.len() == 0 || t[0] == '#' || t[0] == '!' {
        None
    } else {
        let sep = match find_from(t, '=', 0) {
            Some(i) => Some(i),
            None => find_from(t, ':', 0),
        };
        match sep {
            None => None,
            Some(i) => if i <= 0 || i >= t.len() {
                None
            } else {
                let key = trim_by(t.subrange(0, i), TrimSet::Whitespace);
                let value = trim_by(t.skip(i + 1), TrimSet::Whitespace);
                if key.len() == 0 {
                    None
                } else {
                    Some((key, value))
                }
            },
        }
    }
}

/// The entries that `lines` set, in order.
pub open spec fn property_entries(lines: Seq<Seq<char>>) -> Seq<(Seq<char>, Seq<char>)>
    decreases lines.len(),
{
    if lines.len() == 0 {
        Seq::empty()
    } else {
        let p = property_entries(lines.drop_last());
        match property_line(trim_by(lines.last(), TrimSet::Whitespace)) {
            Some(e) => p.push(e),
            None => p,
        }
    }
}

/// The entries of a properties text, line by line.
pub open spec fn parse_properties_spec(text: Seq<char>) -> Seq<(Seq<char>, Seq<char>)> {
    property_entries(segments(text, '\n'))
}

/// The value of `key`: what the last entry that sets it says.
pub open spec fn lookup(entries: Seq<(Seq<char>, Seq<char>)>, key: Seq<char>) -> Option<Seq<char>>
    decreases entries.len(),
{
    if entries.len() == 0 {
        None
    } else if entries.last().0 == key {
        Some(entries.last().1)
    } else {
        lookup(entries.drop_last(), key)
    }
}

pub open spec fn entry_views(v: Seq<(String, String)>) -> Seq<(Seq<char>, Seq<char>)> {
    v.map_values(|e: (String, String)| (e.0@, e.1@))
}

fn property_line_exec(t: &Vec<char>) -> (r: Option<(String, String)>)
    ensures
        match r {
            Some(e) => property_line(t@) == Some((e.0@, e.1@)),
            None => property_line(t@) is None,
        },
{
    if t.len() == 0 || t[0] == '#' || t[0] == '!' {
        return None;
    }
    let sep = match find_char(t, '=', 0) {
        Some(i) => Some(i),
        None => find_char(t, ':', 0),
    };
    match sep {
        None => None,
        Some(i) => {
            if i == 0 {
                return None;
            }
            let key = trim_chars(&sub_chars(t, 0, i), TrimSet::Whitespace);
            let value_raw = sub_chars(t, i + 1, t.len());
            assert(value_raw@ =~= t@.skip(i + 1));
            let value = trim_chars(&value_raw, TrimSet::Whitespace);
            if key.len() == 0 {
                None
            } else {
                Some((string_of(&key), string_of(&value)))
            }
        },
    }
}

/// The entries of a properties file, in the order they stand.
pub struct Properties {
    entries: Vec<(String, String)>,
}

impl Properties {
    pub closed spec fn entries_spec(&self) -> Seq<(Seq<char>, Seq<char>)> {
        entry_views(self.entries@)
    }

    /// Reads the text of a properties file.
    pub fn parse(text: &str) -> (r: Self)
        ensures
            r.entries_spec() == parse_properties_spec(text@),
    {
        let cs = chars_of(text);
        let lines = split_segments(&cs, '\n');
        let ghost lv = vviews(lines@);
        let mut entries: Vec<(String, String)> = Vec::new();
        let mut k: usize = 0;
        assert(lv.subrange(0, 0) =~= Seq::<Seq<char>>::empty());
        assert(entry_views(entries@) =~= Seq::<(Seq<char>, Seq<char>)>::empty());
        while k < lines.len()
            invariant
                lv == vviews(lines@),
                lv == segments(cs@, '\n'),
                0 <= k <= lines@.len(),
                entry_views(entries@) == property_entries(lv.subrange(0, k as int)),
            decreases lines@.len() - k,
        {
            assert(lv.subrange(0, k + 1).drop_last() =~= lv.subrange(0, k as int));
            assert(lv.subrange(0, k + 1).last() == lines@[k as int]@);
            let t = trim_chars(&lines[k], TrimSet::Whitespace);
            let ghost before = entries@;
            match property_line_exec(&t) {
                Some(e) => {
                    entries.push(e);
                    assert(entry_views(entries@) =~= entry_views(before).push((e.0@, e.1@)));
                },
                None => {},
            }
            k = k + 1;
        }
        assert(lv.subrange(0, k as int) =~= lv);
        Properties { entries }
    }

    /// The value of `key`, where an entry sets it.
    pub fn get(&self, key: &str) -> (r: Option<String>)
        ensures
            match r {
                Some(v) => lookup(self.entries_spec(), key@) == Some(v@),
                None => lookup(self.entries_spec(), key@) is None,
            },
    {
        let mut k = self.entries.len();
        let ghost all = self.entries_spec();
        assert(all.subrange(0, k as int) =~= all);
        while k > 0
            invariant
                k <= self.entries@.len(),
                all == self.entries_spec(),
                lookup(all, key@) == lookup(all.subrange(0, k as int), key@),
            decreases k,
        {
            assert(all.subrange(0, k as int).drop_last() =~= all.subrange(0, k - 1));
            assert(all.subrange(0, k as int).last() == (self.entries@[k - 1].0@, self.entries@[k - 1].1@));
            if crate::updater::str_eq(self.entries[k - 1].0.as_str(), key) {
                return Some(self.entries[k - 1].1.clone());
            }
            k = k - 1;
        }
        None
    }
}

/// `\\` pairs read as one `\`, from left to right.
pub open spec fn unescape_backslashes(s: Seq<char>) -> Seq<char>
    decreases s.len(),
{
    if s.len() == 0 {
        Seq::empty()
    } else if s.len() >= 2 && s[0] == '\\' && s[1] == '\\' {
        seq!['\\'] + unescape_backslashes(s.skip(2))
    } else {
        seq![s[0]] + unescape_backslashes(s.drop_first())
    }
}

fn unescape_exec(s: &Vec<char>) -> (r: Vec<char>)
    ensures
        r@ == unescape_backslashes(s@),
{
    let n = s.len();
    let mut out: Vec<char> = Vec::new();
    let mut i: usize = 0;
    assert(s@.skip(0) =~= s@);
    assert(out@ + unescape_backslashes(s@.skip(0)) =~= unescape_backslashes(s@));
    while i < n
        invariant
            n == s@.len(),
            0 <= i <= n,
            out@ + unescape_backslashes(s@.skip(i as int)) == unescape_backslashes(s@),
        decreases n - i,
    {
        let ghost tail = s@.skip(i as int);
        if n - i >= 2 && s[i] == '\\' && s[i + 1] == '\\' {
            assert(tail.skip(2) =~= s@.skip(i + 2));
            out.push('\\');
            i = i + 2;
        } else {
            assert(tail.drop_first() =~= s@.skip(i + 1));
            out.push(s[i]);
            i = i + 1;
        }
        assert(out@ + unescape_backslashes(s@.skip(i as int)) =~= unescape_backslashes(s@));
    }
    assert(s@.skip(i as int) =~= Seq::<char>::empty());
    assert(out@ =~= out@ + Seq::<char>::empty());
    out
}

/// The entry of one logical line of a file that continues lines: like
/// `property_line` without the comment test, the value's `\\` read as `\`.
pub open spec fn continued_entry(logical: Seq<char>) -> Option<(Seq<char>, Seq<char>)> {
    let t = trim_by(logical, TrimSet::Whitespace);
    if t.len() == 0 {
        None
    } else {
        let sep = match find_from(t, '=', 0) {
            Some(i) => Some(i),
            None => find_from(t, ':', 0),
        };
        match sep {
            None => None,
            Some(i) => if i <= 0 || i >= t.len() {
                None
            } else {
                let key = trim_by(t.subrange(0, i), TrimSet::Whitespace);
                let value = unescape_backslashes(trim_by(t.skip(i + 1), TrimSet::Whitespace));
                if key.len() == 0 {
                    None
                } else {
                    Some((key, value))
                }
            },
        }
    }
}

/// Reading `lines` with continuations: a line ending in `\` goes on in the
/// next one (its trailing `\`s dropped, the next one's leading blanks too);
/// comment and blank lines count only where no line is being continued. The
/// result is the logical line still open and the entries read.
pub open spec fn continued_read(lines: Seq<Seq<char>>) -> (Seq<char>, Seq<(Seq<char>, Seq<char>)>)
    decreases lines.len(),
{
    if lines.len() == 0 {
        (Seq::empty(), Seq::empty())
    } else {
        let (buf, es) = continued_read(lines.drop_last());
        let te = trim_end_by(lines.last(), TrimSet::Whitespace);
        let ts = trim_start_by(te, TrimSet::Whitespace);
        if buf.len() == 0 && (ts.len() == 0 || ts[0] == '#' || ts[0] == '!') {
            (buf, es)
        } else {
            let continues = te.len() > 0 && te.last() == '\\';
            let segment = if continues {
                trim_end_by(te, TrimSet::Only('\\'))
            } else {
                te
            };
            let nb = buf + trim_start_by(segment, TrimSet::Whitespace);
            if continues {
                (nb, es)
            } else {
                (
                    Seq::empty(),
                    match continued_entry(nb) {
                        Some(e) => es.push(e),
                        None => es,
                    },
                )
            }
        }
    }
}

/// The entries of a properties text that continues lines; a logical line
/// still open at the end counts as well.
pub open spec fn parse_continued_spec(text: Seq<char>) -> Seq<(Seq<char>, Seq<char>)> {
    let (buf, es) = continued_read(segments(text, '\n'));
    if buf.len() > 0 {
        match continued_entry(buf) {
            Some(e) => es.push(e),
            None => es,
        }
    } else {
        es
    }
}

fn continued_entry_exec(logical: &Vec<char>) -> (r: Option<(String, String)>)
    ensures
        match r {
            Some(e) => continued_entry(logical@) == Some((e.0@, e.1@)),
            None => continued_entry(logical@) is None,
        },
{
    let t = trim_chars(logical, TrimSet::Whitespace);
    if t.len() == 0 {
        return None;
    }
    let sep = match find_char(&t, '=', 0) {
        Some(i) => Some(i),
        None => find_char(&t, ':', 0),
    };
    match sep {
        None => None,
        Some(i) => {
            if i == 0 {
                return None;
            }
            let key = trim_chars(&sub_chars(&t, 0, i), TrimSet::Whitespace);
            let value_raw = sub_chars(&t, i + 1, t.len());
            assert(value_raw@ =~= t@.skip(i + 1));
            let value = unescape_exec(&trim_chars(&value_raw, TrimSet::Whitespace));
            if key.len() == 0 {
                None
            } else {
                Some((string_of(&key), string_of(&value)))
            }
        },
    }
}

impl Properties {
    /// Reads the text of a properties file that continues lines ending in `\`.
    pub fn parse_with_continuations(text: &str) -> (r: Self)
        ensures
            r.entries_spec() == parse_continued_spec(text@),
    {
        let cs = chars_of(text);
        let lines = split_segments(&cs, '\n');
        let ghost lv = vviews(lines@);
        let mut entries: Vec<(String, String)> = Vec::new();
        let mut buffer: Vec<char> = Vec::new();
        let mut k: usize = 0;
        assert(lv.subrange(0, 0) =~= Seq::<Seq<char>>::empty());
        assert(entry_views(entries@) =~= Seq::<(Seq<char>, Seq<char>)>::empty());
        while k < lines.len()
            invariant
                lv == vviews(lines@),
                lv == segments(cs@, '\n'),
                0 <= k <= lines@.len(),
                continued_read(lv.subrange(0, k as int)) == (buffer@, entry_views(entries@)),
            decreases lines@.len() - k,
        {
            assert(lv.subrange(0, k + 1).drop_last() =~= lv.subrange(0, k as int));
            assert(lv.subrange(0, k + 1).last() == lines@[k as int]@);
            let te = trim_end_chars(&lines[k], TrimSet::Whitespace);
            let ts = trim_start_chars(&te, TrimSet::Whitespace);
            if buffer.len() == 0 && (ts.len() == 0 || ts[0] == '#' || ts[0] == '!') {
                k = k + 1;
                continue;
            }
            let continues = te.len() > 0 && te[te.len() - 1] == '\\';
            let segment = if continues {
                trim_end_chars(&te, TrimSet::Only('\\'))
            } else {
                te
            };
            let piece = trim_start_chars(&segment, TrimSet::Whitespace);
            push_all(&mut buffer, &piece);
            if !continues {
                let ghost before = entries@;
                match continued_entry_exec(&buffer) {
                    Some(e) => {
                        entries.push(e);
                        assert(entry_views(entries@) =~= entry_views(before).push((e.0@, e.1@)));
                    },
                    None => {},
                }
                buffer = Vec::new();
            }
            k = k + 1;
        }
        assert(lv.subrange(0, k as int) =~= lv);
        if buffer.len() > 0 {
            let ghost before = entries@;
            match continued_entry_exec(&buffer) {
                Some(e) => {
                    entries.push(e);
                    assert(entry_views(entries@) =~= entry_views(before).push((e.0@, e.1@)));
                },
                None => {},
            }
        }
        Properties { entries }
    }
}

/// The class path entries that `key` names in a properties text that
/// continues lines: none where the value is missing or blank; else the value
/// with its references expanded (keys trimmed), split into entries.
pub fn project_classpath_entries(text: &str, key: &str) -> (r: Vec<String>)
    ensures
        ({
            let props = parse_continued_spec(text@);
            let raw = value_or(props, key@, Seq::empty());
            if trim_by(raw, TrimSet::Whitespace).len() == 0 {
                r@.len() == 0
            } else {
                crate::classpath::string_views(r@) == crate::classpath::split_classpath_spec(
                    resolve_value_spec(raw, props, 0, true),
                )
            }
        }),
{
    let props = Properties::parse_with_continuations(text);
    let raw = match props.get(key) {
        Some(v) => chars_of(v.as_str()),
        None => Vec::new(),
    };
    if trim_chars(&raw, TrimSet::Whitespace).len() == 0 {
        return Vec::new();
    }
    let resolved = resolve_value(&raw, &props, 0, true);
    let text = string_of(&resolved);
    crate::classpath::split_classpath(text.as_str())
}

/// Nesting depth after which a `${key}` is no longer expanded.
pub const PROPERTY_RESOLUTION_MAX_DEPTH: usize = 8;

/// Index of the first `${` in `v` from `i` on.
pub open spec fn find_open(v: Seq<char>, i: int) -> Option<int>
    decreases v.len() - i,
{
    if i < 0 || i + 1 >= v.len() {
        None
    } else if v[i] == '$' && v[i + 1] == '{' {
        Some(i)
    } else {
        find_open(v, i + 1)
    }
}

pub open spec fn depth_budget(depth: nat) -> nat {
    if depth > 8 {
        0
    } else {
        (9 - depth) as nat
    }
}

/// `v` with each `${key}` replaced by the value of `key` (the key trimmed
/// first where `trim_key`), itself expanded two levels deeper; past the depth
/// bound a value is taken as it stands, and an unknown key gives nothing. A
/// `${` without a closing `}` stays as it is.
pub open spec fn resolve_value_spec(
    v: Seq<char>,
    entries: Seq<(Seq<char>, Seq<char>)>,
    depth: nat,
    trim_key: bool,
) -> Seq<char>
    decreases depth_budget(depth), v.len(),
{
    match find_open(v, 0) {
        None => v,
        Some(s) => if s < 0 || s + 1 >= v.len() {
            v
        } else {
            let after = v.skip(s);
            match find_from(after, '}', 0) {
                None => v,
                Some(e) => if e < 2 || e >= after.len() {
                    v
                } else {
                    let key = if trim_key {
                        trim_by(after.subrange(2, e), TrimSet::Whitespace)
                    } else {
                        after.subrange(2, e)
                    };
                    let replacement = match lookup(entries, key) {
                        None => Seq::empty(),
                        Some(x) => if depth >= 8 {
                            x
                        } else {
                            resolve_value_spec(x, entries, depth + 2, trim_key)
                        },
                    };
                    v.subrange(0, s) + replacement + resolve_value_spec(after.skip(e + 1), entries, depth, trim_key)
                },
            }
        },
    }
}

fn find_open_exec(v: &Vec<char>) -> (r: Option<usize>)
    ensures
        match r {
            Some(s) => find_open(v@, 0) == Some(s as int),
            None => find_open(v@, 0) is None,
        },
{
    let mut i: usize = 0;
    while v.len() > 1 && i < v.len() - 1
        invariant
            find_open(v@, 0) == find_open(v@, i as int),
        decreases v@.len() - i,
    {
        if v[i] == '$' && v[i + 1] == '{' {
            return Some(i);
        }
        i = i + 1;
    }
    None
}

/// Expands the `${key}` references in `value`.
pub fn resolve_value(value: &Vec<char>, props: &Properties, depth: usize, trim_key: bool) -> (r: Vec<char>)
    ensures
        r@ == resolve_value_spec(value@, props.entries_spec(), depth as nat, trim_key),
    decreases depth_budget(depth as nat), value@.len(),
{
    let mut out: Vec<char> = Vec::new();
    let mut rest = sub_chars(value, 0, value.len());
    assert(rest@ =~= value@);
    assert(out@ + resolve_value_spec(rest@, props.entries_spec(), depth as nat, trim_key) =~= resolve_value_spec(
        value@,
        props.entries_spec(),
        depth as nat,
        trim_key,
    ));
    loop
        invariant
            rest@.len() <= value@.len(),
            out@ + resolve_value_spec(rest@, props.entries_spec(), depth as nat, trim_key) == resolve_value_spec(
                value@,
                props.entries_spec(),
                depth as nat,
                trim_key,
            ),
        decreases rest@.len(),
    {
        let s = match find_open_exec(&rest) {
            None => {
                let ghost o = out@;
                push_all(&mut out, &rest);
                return out;
            },
            Some(s) => s,
        };
        proof {
            lemma_find_open_bounds(rest@, 0);
        }
        let after = sub_chars(&rest, s, rest.len());
        assert(after@ =~= rest@.skip(s as int));
        let e = match find_char(&after, '}', 0) {
            None => {
                push_all(&mut out, &rest);
                return out;
            },
            Some(e) => e,
        };
        proof {
            lemma_close_after_open(after@);
        }
        let key_raw = sub_chars(&after, 2, e);
        let key_chars = if trim_key {
            trim_chars(&key_raw, TrimSet::Whitespace)
        } else {
            key_raw
        };
        let key = string_of(&key_chars);
        let before = sub_chars(&rest, 0, s);
        push_all(&mut out, &before);
        match props.get(key.as_str()) {
            None => {},
            Some(x) => {
                let xc = chars_of(x.as_str());
                if depth >= 8 {
                    push_all(&mut out, &xc);
                } else {
                    let resolved = resolve_value(&xc, props, depth + 2, trim_key);
                    push_all(&mut out, &resolved);
                }
            },
        }
        let next = sub_chars(&after, e + 1, after.len());
        assert(next@ =~= after@.skip(e + 1));
        rest = next;
    }
}

proof fn lemma_find_open_bounds(v: Seq<char>, i: int)
    requires
        0 <= i,
    ensures
        match find_open(v, i) {
            Some(s) => i <= s && s + 1 < v.len() && v[s] == '$' && v[s + 1] == '{',
            None => true,
        },
    decreases v.len() - i,
{
    if i + 1 < v.len() && !(v[i] == '$' && v[i + 1] == '{') {
        lemma_find_open_bounds(v, i + 1);
    }
}

proof fn lemma_close_after_open(after: Seq<char>)
    requires
        after.len() >= 2,
        after[0] == '$',
        after[1] == '{',
    ensures
        match find_from(after, '}', 0) {
            Some(e) => 2 <= e < after.len(),
            None => true,
        },
{
    lemma_find_from_bounds(after, '}', 0);
}

proof fn lemma_find_from_bounds(s: Seq<char>, c: char, from: int)
    requires
        0 <= from,
    ensures
        match find_from(s, c, from) {
            Some(i) => from <= i < s.len() && s[i] == c && forall|j: int| from <= j < i ==> s[j] != c,
            None => true,
        },
    decreases s.len() - from,
{
    if from < s.len() && s[from] != c {
        lemma_find_from_bounds(s, c, from + 1);
    }
}

fn push_all(out: &mut Vec<char>, v: &Vec<char>)
    ensures
        final(out)@ == old(out)@ + v@,
{
    let mut k: usize = 0;
    while k < v.len()
        invariant
            0 <= k <= v@.len(),
            out@ == old(out)@ + v@.subrange(0, k as int),
        decreases v@.len() - k,
    {
        out.push(v[k]);
        k = k + 1;
        assert(out@ =~= old(out)@ + v@.subrange(0, k as int));
    }
    assert(v@.subrange(0, k as int) =~= v@);
}

/// The `.project` file of a Java project named `name`.
pub fn project_file_contents(name: &str) -> (r: String)
    ensures
        r@ == "<?xml version=\"1.0\" encoding=\"UTF-8\"?>\n<projectDescription>\n  <name>"@ + name@
            + "</name>\n  <comment></comment>\n  <projects></projects>\n  <buildSpec>\n    <buildCommand>\n      <name>org.eclipse.jdt.core.javabuilder</name>\n      <arguments></arguments>\n    </buildCommand>\n  </buildSpec>\n  <natures>\n    <nature>org.eclipse.jdt.core.javanature</nature>\n  </natures>\n</projectDescription>\n"@,
{
    let mut out = String::new();
    push_str(&mut out, "<?xml version=\"1.0\" encoding=\"UTF-8\"?>\n<projectDescription>\n  <name>");
    push_str(&mut out, name);
    push_str(
        &mut out,
        "</name>\n  <comment></comment>\n  <projects></projects>\n  <buildSpec>\n    <buildCommand>\n      <name>org.eclipse.jdt.core.javabuilder</name>\n      <arguments></arguments>\n    </buildCommand>\n  </buildSpec>\n  <natures>\n    <nature>org.eclipse.jdt.core.javanature</nature>\n  </natures>\n</projectDescription>\n",
    );
    out
}

/// The `.classpath` file: one source directory, the Java runtime, one output directory.
pub fn classpath_file_contents(src_dir: &str, output_dir: &str) -> (r: String)
    ensures
        r@ == "<?xml version=\"1.0\" encoding=\"UTF-8\"?>\n<classpath>\n  <classpathentry kind=\"src\" path=\""@
            + src_dir@
            + "\"/>\n  <classpathentry kind=\"con\" path=\"org.eclipse.jdt.launching.JRE_CONTAINER\"/>\n  <classpathentry kind=\"output\" path=\""@
            + output_dir@ + "\"/>\n</classpath>\n"@,
{
    let mut out = String::new();
    push_str(
        &mut out,
        "<?xml version=\"1.0\" encoding=\"UTF-8\"?>\n<classpath>\n  <classpathentry kind=\"src\" path=\"",
    );
    push_str(&mut out, src_dir);
    push_str(
        &mut out,
        "\"/>\n  <classpathentry kind=\"con\" path=\"org.eclipse.jdt.launching.JRE_CONTAINER\"/>\n  <classpathentry kind=\"output\" path=\"",
    );
    push_str(&mut out, output_dir);
    push_str(&mut out, "\"/>\n</classpath>\n");
    out
}

/// What stands where the `.classpath` file belongs.
pub enum ExistingClasspath {
    Missing,
    Unreadable,
    Text(String),
}

/// The `.classpath` file is (re)written where it is missing, or where it still
/// holds an unexpanded `${` reference; one that cannot be read is left alone.
pub fn needs_classpath_update(existing: &ExistingClasspath) -> (r: bool)
    ensures
        r == (match existing {
            ExistingClasspath::Missing => true,
            ExistingClasspath::Unreadable => false,
            ExistingClasspath::Text(t) => find_open(t@, 0) is Some,
        }),
{
    match existing {
        ExistingClasspath::Missing => true,
        ExistingClasspath::Unreadable => false,
        ExistingClasspath::Text(t) => {
            let cs = chars_of(t.as_str());
            find_open_exec(&cs).is_some()
        },
    }
}

/// The value of `key`, or `default` where no entry sets it.
pub open spec fn value_or(entries: Seq<(Seq<char>, Seq<char>)>, key: Seq<char>, default: Seq<char>) -> Seq<char> {
    match lookup(entries, key) {
        Some(v) => v,
        None => default,
    }
}

/// The source and class output directories that the properties name
/// (`src.dir`, `build.classes.dir`; by default `src` and `build/classes`),
/// their references expanded.
pub fn source_and_output_dirs(props: &Properties) -> (r: (String, String))
    ensures
        r.0@ == resolve_value_spec(
            value_or(props.entries_spec(), "src.dir"@, "src"@),
            props.entries_spec(),
            0,
            false,
        ),
        r.1@ == resolve_value_spec(
            value_or(props.entries_spec(), "build.classes.dir"@, "build/classes"@),
            props.entries_spec(),
            0,
            false,
        ),
{
    let raw_src = match props.get("src.dir") {
        Some(v) => chars_of(v.as_str()),
        None => chars_of("src"),
    };
    let raw_out = match props.get("build.classes.dir") {
        Some(v) => chars_of(v.as_str()),
        None => chars_of("build/classes"),
    };
    let src = resolve_value(&raw_src, props, 0, false);
    let out = resolve_value(&raw_out, props, 0, false);
    (string_of(&src), string_of(&out))
}

} // verus!
