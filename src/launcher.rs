//! Where the language server's private state lives, and how it is launched:
//! a configuration copy per server build, a workspace and a log file per
//! project root, and the fixed set of launch arguments.
use vstd::prelude::*;
use std::collections::hash_map::DefaultHasher;
use std::hash::{Hash, Hasher};
use vstd::std_specs::hash::DefaultHasherAdditionalSpecFns;
use vstd::string::StringSliceAdditionalSpecFns;
use vstd::utf8::encode_utf8;
use crate::text::{push_char, push_str};

verus! {

/// Lower-case hexadecimal digit of `d` (below 16).
pub open spec fn hex_lower_digit(d: nat) -> char {
    if d < 10 {
        ((48 + d) as u8) as char
    } else {
        ((87 + d) as u8) as char
    }
}

/// `n` in lower-case hexadecimal, no leading zeros (as `{:x}` formats it).
pub open spec fn hex_lower(n: nat) -> Seq<char>
    decreases n,
{
    if n < 16 {
        seq![hex_lower_digit(n)]
    } else {
        hex_lower(n / 16).push(hex_lower_digit(n % 16))
    }
}

/// Appends `n` in lower-case hexadecimal.
pub fn push_hex(out: &mut String, n: u64)
    ensures
        final(out)@ == old(out)@ + hex_lower(n as nat),
    decreases n,
{
    if n >= 16 {
        push_hex(out, n / 16);
    }
    let d = (n % 16) as u8;
    let c = if d < 10 {
        (48 + d) as char
    } else {
        (87 + d) as char
    };
    push_char(out, c);
    assert(final(out)@ =~= old(out)@ + hex_lower(n as nat));
}

/// The writes that `Hash for str` makes into a hasher for the text `s`.
pub uninterp spec fn str_hash_writes(s: Seq<char>) -> Seq<Seq<u8>>;

/// Relies on `Hash for str`: what it feeds to the hasher depends on the text alone.
#[verifier::external_body]
fn hash_str(s: &str, hasher: &mut DefaultHasher)
    ensures
        final(hasher)@ == old(hasher)@ + str_hash_writes(s@),
{
    s.hash(hasher);
}

/// The hash of a text by a hasher from `DefaultHasher::new`, whose keys are fixed.
fn default_hash(s: &str) -> (r: u64)
    ensures
        r == DefaultHasher::spec_finish(str_hash_writes(s@)),
{
    let mut hasher = DefaultHasher::new();
    hash_str(s, &mut hasher);
    assert(hasher@ =~= str_hash_writes(s@));
    hasher.finish()
}

/// The name under which a project root's server state is kept.
pub open spec fn path_hash_spec(root: Seq<char>) -> Seq<char> {
    hex_lower(DefaultHasher::spec_finish(str_hash_writes(root)) as nat)
}

/// A stable name for a project root: its hash in hexadecimal.
pub fn hash_path(root: &str) -> (r: String)
    ensures
        r@ == path_hash_spec(root@),
{
    let mut out = String::new();
    push_hex(&mut out, default_hash(root));
    out
}

/// `c` is kept in a directory name: an ASCII letter or digit.
pub open spec fn is_ascii_alnum(c: char) -> bool {
    ('a' <= c && c <= 'z') || ('A' <= c && c <= 'Z') || ('0' <= c && c <= '9')
}

pub open spec fn sanitize_name_spec(s: Seq<char>) -> Seq<char> {
    s.map_values(|c: char| if is_ascii_alnum(c) { c } else { '_' })
}

/// A directory name made of `value`: each character that is no ASCII letter
/// or digit becomes `_`.
pub fn sanitize_name(value: &str) -> (r: String)
    ensures
        r@ == sanitize_name_spec(value@),
{
    let n = value.unicode_len();
    let mut out = String::new();
    let mut k: usize = 0;
    while k < n
        invariant
            n == value@.len(),
            0 <= k <= n,
            out@ == sanitize_name_spec(value@).subrange(0, k as int),
        decreases n - k,
    {
        let c = value.get_char(k);
        let keep = ('a' <= c && c <= 'z') || ('A' <= c && c <= 'Z') || ('0' <= c && c <= '9');
        push_char(
            &mut out,
            if keep {
                c
            } else {
                '_'
            },
        );
        k = k + 1;
        assert(out@ =~= sanitize_name_spec(value@).subrange(0, k as int));
    }
    assert(sanitize_name_spec(value@).subrange(0, n as int) =~= sanitize_name_spec(value@));
    out
}

/// `base` and `name` joined by one `/` (none is added after a trailing `/`
/// or to an empty base).
pub open spec fn join_spec(base: Seq<char>, name: Seq<char>) -> Seq<char> {
    if base.len() == 0 || base.last() == '/' {
        base + name
    } else {
        base + seq!['/'] + name
    }
}

/// Appends one path component to `path`.
pub fn push_component(path: &mut String, name: &str)
    ensures
        final(path)@ == join_spec(old(path)@, name@),
{
    let n = path.as_str().unicode_len();
    if n > 0 && path.as_str().get_char(n - 1) != '/' {
        push_char(path, '/');
    }
    push_str(path, name);
}

/// The workspace directory of a project root, under the data directory.
pub fn workspace_dir(data_dir: &str, project_root: &str) -> (r: String)
    ensures
        r@ == join_spec(
            join_spec(data_dir@, "jdtls-workspaces"@),
            path_hash_spec(project_root@),
        ),
{
    let mut out = String::new();
    push_str(&mut out, data_dir);
    push_component(&mut out, "jdtls-workspaces");
    let hash = hash_path(project_root);
    push_component(&mut out, hash.as_str());
    out
}

/// The log file of a project root's server, under the data directory:
/// `<data>/logs/<hash>.log`.
pub fn log_path(data_dir: &str, project_root: &str) -> (r: String)
    ensures
        r@ == join_spec(join_spec(data_dir@, "logs"@), path_hash_spec(project_root@) + ".log"@),
{
    let mut out = String::new();
    push_str(&mut out, data_dir);
    push_component(&mut out, "logs");
    let mut name = hash_path(project_root);
    push_str(&mut name, ".log");
    push_component(&mut out, name.as_str());
    out
}

/// The private, writable copy of the server's default configuration for one
/// server build, under the data directory.
pub fn private_config_dir(data_dir: &str, build_id: &str, config_name: &str) -> (r: String)
    ensures
        r@ == join_spec(
            join_spec(join_spec(data_dir@, "jdtls-config"@), sanitize_name_spec(build_id@)),
            config_name@,
        ),
{
    let mut out = String::new();
    push_str(&mut out, data_dir);
    push_component(&mut out, "jdtls-config");
    let safe = sanitize_name(build_id);
    push_component(&mut out, safe.as_str());
    push_component(&mut out, config_name);
    out
}

/// `a` sorts before `b` byte by byte, a proper prefix first (the order of file names).
pub open spec fn bytes_lt(a: Seq<u8>, b: Seq<u8>) -> bool
    decreases a.len(),
{
    if a.len() == 0 {
        b.len() > 0
    } else if b.len() == 0 {
        false
    } else if a[0] != b[0] {
        a[0] < b[0]
    } else {
        bytes_lt(a.drop_first(), b.drop_first())
    }
}

fn bytes_less(a: &[u8], b: &[u8]) -> (r: bool)
    ensures
        r == bytes_lt(a@, b@),
{
    let mut k: usize = 0;
    assert(a@.skip(0) =~= a@ && b@.skip(0) =~= b@);
    while k < a.len() && k < b.len() && a[k] == b[k]
        invariant
            0 <= k <= a@.len(),
            k <= b@.len(),
            bytes_lt(a@, b@) == bytes_lt(a@.skip(k as int), b@.skip(k as int)),
        decreases a@.len() - k,
    {
        assert(a@.skip(k as int).drop_first() =~= a@.skip(k + 1));
        assert(b@.skip(k as int).drop_first() =~= b@.skip(k + 1));
        k = k + 1;
    }
    if k == a.len() {
        k < b.len()
    } else if k == b.len() {
        false
    } else {
        a[k] < b[k]
    }
}

pub open spec fn starts_with_bytes(s: Seq<u8>, p: Seq<u8>) -> bool {
    s.len() >= p.len() && s.subrange(0, p.len() as int) == p
}

pub open spec fn ends_with_bytes(s: Seq<u8>, p: Seq<u8>) -> bool {
    s.len() >= p.len() && s.subrange(s.len() - p.len(), s.len() as int) == p
}

fn has_prefix(s: &[u8], p: &[u8]) -> (r: bool)
    ensures
        r == starts_with_bytes(s@, p@),
{
    if s.len() < p.len() {
        return false;
    }
    let mut k: usize = 0;
    while k < p.len()
        invariant
            s@.len() >= p@.len(),
            0 <= k <= p@.len(),
            s@.subrange(0, k as int) =~= p@.subrange(0, k as int),
        decreases p@.len() - k,
    {
        if s[k] != p[k] {
            assert(s@.subrange(0, p@.len() as int)[k as int] != p@[k as int]);
            return false;
        }
        k = k + 1;
    }
    assert(p@.subrange(0, k as int) =~= p@);
    true
}

fn has_suffix(s: &[u8], p: &[u8]) -> (r: bool)
    ensures
        r == ends_with_bytes(s@, p@),
{
    if s.len() < p.len() {
        return false;
    }
    let n = s.len();
    let off = n - p.len();
    let mut k: usize = 0;
    while k < p.len()
        invariant
            n == s@.len(),
            off == s@.len() - p@.len(),
            off + p@.len() == n,
            0 <= k <= p@.len(),
            s@.subrange(off as int, off + k) =~= p@.subrange(0, k as int),
        decreases p@.len() - k,
    {
        if s[off + k] != p[k] {
            assert(s@.subrange(off as int, s@.len() as int)[k as int] != p@[k as int]);
            return false;
        }
        k = k + 1;
    }
    assert(p@.subrange(0, k as int) =~= p@);
    true
}

/// A file name of the server's launcher jar.
pub open spec fn is_launcher_jar(name: Seq<u8>) -> bool {
    starts_with_bytes(name, "org.eclipse.equinox.launcher_".spec_bytes()) && ends_with_bytes(
        name,
        ".jar".spec_bytes(),
    )
}

/// The launcher jar among the file names of the server's plugin directory:
/// of those that are launcher jars, the last in file-name order.
pub fn pick_launcher_jar(names: &Vec<String>) -> (r: Option<usize>)
    ensures
        match r {
            None => forall|i: int|
                0 <= i < names@.len() ==> !is_launcher_jar(#[trigger] encode_utf8(names@[i]@)),
            Some(k) => {
                &&& k < names@.len()
                &&& is_launcher_jar(encode_utf8(names@[k as int]@))
                &&& forall|i: int|
                    0 <= i < names@.len() && is_launcher_jar(#[trigger] encode_utf8(names@[i]@))
                        ==> !bytes_lt(encode_utf8(names@[k as int]@), encode_utf8(names@[i]@))
            },
        },
{
    let prefix = "org.eclipse.equinox.launcher_".as_bytes();
    let suffix = ".jar".as_bytes();
    let mut best: Option<usize> = None;
    let mut i: usize = 0;
    while i < names.len()
        invariant
            0 <= i <= names@.len(),
            prefix@ == "org.eclipse.equinox.launcher_".spec_bytes(),
            suffix@ == ".jar".spec_bytes(),
            match best {
                None => forall|j: int|
                    0 <= j < i ==> !is_launcher_jar(#[trigger] encode_utf8(names@[j]@)),
                Some(k) => {
                    &&& k < i
                    &&& is_launcher_jar(encode_utf8(names@[k as int]@))
                    &&& forall|j: int|
                        0 <= j < i && is_launcher_jar(#[trigger] encode_utf8(names@[j]@))
                            ==> !bytes_lt(encode_utf8(names@[k as int]@), encode_utf8(names@[j]@))
                },
            },
        decreases names@.len() - i,
    {
        let name = names[i].as_str().as_bytes();
        assert(name@ == encode_utf8(names@[i as int]@));
        let is_jar = has_prefix(name, prefix) && has_suffix(name, suffix);
        assert(is_jar == is_launcher_jar(encode_utf8(names@[i as int]@)));
        if is_jar {
            match best {
                None => {
                    proof {
                        lemma_bytes_lt_irreflexive(encode_utf8(names@[i as int]@));
                    }
                    best = Some(i);
                },
                Some(k) => {
                    let current = names[k].as_str().as_bytes();
                    assert(current@ == encode_utf8(names@[k as int]@));
                    if bytes_less(current, name) {
                        proof {
                            lemma_bytes_lt_trans_total(names@, k as int, i as int);
                        }
                        best = Some(i);
                    }
                },
            }
        }
        i = i + 1;
    }
    best
}

proof fn lemma_bytes_lt_irreflexive(a: Seq<u8>)
    ensures
        !bytes_lt(a, a),
    decreases a.len(),
{
    if a.len() > 0 {
        lemma_bytes_lt_irreflexive(a.drop_first());
    }
}

proof fn lemma_bytes_lt_trans(a: Seq<u8>, b: Seq<u8>, c: Seq<u8>)
    requires
        bytes_lt(a, b),
        bytes_lt(b, c),
    ensures
        bytes_lt(a, c),
    decreases a.len(),
{
    if a.len() > 0 && b.len() > 0 && c.len() > 0 && a[0] == b[0] && b[0] == c[0] {
        lemma_bytes_lt_trans(a.drop_first(), b.drop_first(), c.drop_first());
    }
}

proof fn lemma_bytes_lt_total(a: Seq<u8>, b: Seq<u8>)
    requires
        a != b,
    ensures
        bytes_lt(a, b) || bytes_lt(b, a),
    decreases a.len(),
{
    if a.len() > 0 && b.len() > 0 && a[0] == b[0] {
        assert(a =~= seq![a[0]] + a.drop_first());
        assert(b =~= seq![b[0]] + b.drop_first());
        lemma_bytes_lt_total(a.drop_first(), b.drop_first());
    } else if a.len() == 0 && b.len() == 0 {
        assert(a =~= b);
    }
}

proof fn lemma_bytes_lt_trans_total(names: Seq<String>, k: int, i: int)
    requires
        0 <= k < i < names.len(),
        bytes_lt(encode_utf8(names[k]@), encode_utf8(names[i]@)),
    ensures
        forall|j: int|
            0 <= j < i && !bytes_lt(encode_utf8(names[k]@), #[trigger] encode_utf8(names[j]@))
                ==> !bytes_lt(encode_utf8(names[i]@), encode_utf8(names[j]@)),
        !bytes_lt(encode_utf8(names[i]@), encode_utf8(names[i]@)),
{
    let bk = encode_utf8(names[k]@);
    let bi = encode_utf8(names[i]@);
    lemma_bytes_lt_irreflexive(bi);
    assert forall|j: int|
        0 <= j < i && !bytes_lt(bk, #[trigger] encode_utf8(names[j]@)) implies !bytes_lt(
        bi,
        encode_utf8(names[j]@),
    ) by {
        let bj = encode_utf8(names[j]@);
        if bytes_lt(bi, bj) {
            lemma_bytes_lt_trans(bk, bi, bj);
        }
    }
}

/// The arguments that launch the server: its application and product, full
/// logging into `log_file`, a 1 GiB heap, the module-system openings it needs,
/// then the launcher jar, the configuration directory and the workspace.
pub open spec fn server_args_spec(
    log_file: Seq<char>,
    launcher_jar: Seq<char>,
    config_dir: Seq<char>,
    workspace: Seq<char>,
) -> Seq<Seq<char>> {
    seq![
        "-Declipse.application=org.eclipse.jdt.ls.core.id1"@,
        "-Dosgi.bundles.defaultStartLevel=4"@,
        "-Declipse.product=org.eclipse.jdt.ls.core.product"@,
        "-Dlog.level=ALL"@,
        "-Dorg.eclipse.jdt.ls.log.file="@ + log_file,
        "-Xmx1G"@,
        "--add-modules=ALL-SYSTEM"@,
        "--add-opens"@,
        "java.base/java.util=ALL-UNNAMED"@,
        "--add-opens"@,
        "java.base/java.lang=ALL-UNNAMED"@,
        "-jar"@,
        launcher_jar,
        "-configuration"@,
        config_dir,
        "-data"@,
        workspace,
    ]
}

fn owned(s: &str) -> (r: String)
    ensures
        r@ == s@,
{
    let mut out = String::new();
    push_str(&mut out, s);
    assert(out@ =~= s@);
    out
}

/// The server's command-line arguments, after the Java launcher itself.
pub fn server_arguments(log_file: &str, launcher_jar: &str, config_dir: &str, workspace: &str) -> (r:
    Vec<String>)
    ensures
        r@.map_values(|a: String| a@) == server_args_spec(
            log_file@,
            launcher_jar@,
            config_dir@,
            workspace@,
        ),
{
    let mut args: Vec<String> = Vec::new();
    args.push(owned("-Declipse.application=org.eclipse.jdt.ls.core.id1"));
    args.push(owned("-Dosgi.bundles.defaultStartLevel=4"));
    args.push(owned("-Declipse.product=org.eclipse.jdt.ls.core.product"));
    args.push(owned("-Dlog.level=ALL"));
    let mut log_arg = owned("-Dorg.eclipse.jdt.ls.log.file=");
    push_str(&mut log_arg, log_file);
    args.push(log_arg);
    args.push(owned("-Xmx1G"));
    args.push(owned("--add-modules=ALL-SYSTEM"));
    args.push(owned("--add-opens"));
    args.push(owned("java.base/java.util=ALL-UNNAMED"));
    args.push(owned("--add-opens"));
    args.push(owned("java.base/java.lang=ALL-UNNAMED"));
    args.push(owned("-jar"));
    args.push(owned(launcher_jar));
    args.push(owned("-configuration"));
    args.push(owned(config_dir));
    args.push(owned("-data"));
    args.push(owned(workspace));
    assert(args@.map_values(|a: String| a@) =~= server_args_spec(
        log_file@,
        launcher_jar@,
        config_dir@,
        workspace@,
    ));
    args
}

} // verus!
