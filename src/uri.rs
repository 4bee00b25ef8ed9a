//! `file://` URIs for the paths that the language server is told about.
use vstd::prelude::*;
use vstd::string::StringSliceAdditionalSpecFns;
use crate::text::{push_char, string_of};

verus! {

/// RFC 3986 unreserved bytes: letters, digits, `-`, `.`, `_`, `~`.
pub open spec fn is_unreserved_spec(b: u8) -> bool {
    (97 <= b && b <= 122) || (65 <= b && b <= 90) || (48 <= b && b <= 57) || b == 45 || b == 46
        || b == 95 || b == 126
}

/// Upper-case hexadecimal digit of `d` (below 16).
pub open spec fn hex_upper(d: nat) -> char {
    if d < 10 {
        ((48 + d) as u8) as char
    } else {
        ((55 + d) as u8) as char
    }
}

/// How one byte of a path stands in a URI: unreserved bytes, `/` and `:` as
/// they are, every other byte as `%XX`.
pub open spec fn encode_byte(b: u8) -> Seq<char> {
    if is_unreserved_spec(b) || b == 47 || b == 58 {
        seq![b as char]
    } else {
        seq!['%', hex_upper((b / 16) as nat), hex_upper((b % 16) as nat)]
    }
}

pub open spec fn percent_encoded(bs: Seq<u8>) -> Seq<char>
    decreases bs.len(),
{
    if bs.len() == 0 {
        Seq::empty()
    } else {
        encode_byte(bs[0]) + percent_encoded(bs.drop_first())
    }
}

/// Value of a hexadecimal digit, either case.
pub open spec fn hex_value_spec(b: u8) -> Option<u8> {
    if 48 <= b && b <= 57 {
        Some((b - 48) as u8)
    } else if 97 <= b && b <= 102 {
        Some((b - 97 + 10) as u8)
    } else if 65 <= b && b <= 70 {
        Some((b - 65 + 10) as u8)
    } else {
        None
    }
}

/// Decodes `%XX` escapes, each byte standing for the character of that code
/// (0 to 255). A `%` that two hexadecimal digits do not follow is kept with the
/// two bytes after it; missing bytes at the end count as `0`.
pub open spec fn percent_decoded(bs: Seq<u8>) -> Seq<char>
    decreases bs.len(),
{
    if bs.len() == 0 {
        Seq::empty()
    } else if bs[0] == 37 {
        let hi = if bs.len() > 1 {
            bs[1]
        } else {
            48u8
        };
        let lo = if bs.len() > 2 {
            bs[2]
        } else {
            48u8
        };
        let rest = bs.skip(
            if bs.len() >= 3 {
                3
            } else {
                bs.len() as int
            },
        );
        match (hex_value_spec(hi), hex_value_spec(lo)) {
            (Some(h), Some(l)) => seq![((h * 16 + l) as u8) as char] + percent_decoded(rest),
            _ => seq!['%', hi as char, lo as char] + percent_decoded(rest),
        }
    } else {
        seq![bs[0] as char] + percent_decoded(bs.drop_first())
    }
}

/// `file://` as bytes.
pub open spec fn scheme_bytes() -> Seq<u8> {
    seq![102u8, 105u8, 108u8, 101u8, 58u8, 47u8, 47u8]
}

pub open spec fn scheme_chars() -> Seq<char> {
    seq!['f', 'i', 'l', 'e', ':', '/', '/']
}

/// The path with each `\` turned into `/`, and one more `/` in front of a
/// drive letter path (`C:/...`) and of a network path (`//host/...`).
pub open spec fn uri_path_bytes(path: Seq<u8>) -> Seq<u8> {
    let p = path.map_values(|b: u8| if b == 92 { 47u8 } else { b });
    let rooted = if p.len() >= 2 && p[1] == 58 {
        seq![47u8] + p
    } else {
        p
    };
    if rooted.len() >= 2 && rooted[0] == 47 && rooted[1] == 47 {
        seq![47u8] + rooted
    } else {
        rooted
    }
}

/// The URI of the path whose UTF-8 bytes are `path`.
pub open spec fn path_to_uri_spec(path: Seq<u8>) -> Seq<char> {
    scheme_chars() + percent_encoded(uri_path_bytes(path))
}

/// The bytes once every leading `file://` is removed.
pub open spec fn strip_scheme(bs: Seq<u8>) -> Seq<u8>
    decreases bs.len(),
{
    if bs.len() >= 7 && bs.subrange(0, 7) == scheme_bytes() {
        strip_scheme(bs.skip(7))
    } else {
        bs
    }
}

/// A decoded path of the form `/C:...`, longer than three characters: its
/// first three characters take three bytes and the third is `:`.
pub open spec fn is_drive_path(d: Seq<char>) -> bool {
    d.len() > 3 && d[0] == '/' && (d[1] as u32) < 128 && d[2] == ':'
}

pub open spec fn strip_leading_slashes(d: Seq<char>) -> Seq<char>
    decreases d.len(),
{
    if d.len() > 0 && d[0] == '/' {
        strip_leading_slashes(d.drop_first())
    } else {
        d
    }
}

/// The path that the URI whose UTF-8 bytes are `uri` names.
pub open spec fn uri_to_path_spec(uri: Seq<u8>) -> Seq<char> {
    let d = percent_decoded(strip_scheme(uri));
    if is_drive_path(d) {
        strip_leading_slashes(d)
    } else {
        d
    }
}

fn is_unreserved(byte: u8) -> (r: bool)
    ensures
        r == is_unreserved_spec(byte),
{
    (byte >= 97 && byte <= 122) || (byte >= 65 && byte <= 90) || (byte >= 48 && byte <= 57) || byte
        == 45 || byte == 46 || byte == 95 || byte == 126
}

fn hex_value(byte: u8) -> (r: Option<u8>)
    ensures
        r == hex_value_spec(byte),
{
    if byte >= 48 && byte <= 57 {
        Some(byte - 48)
    } else if byte >= 97 && byte <= 102 {
        Some(byte - 97 + 10)
    } else if byte >= 65 && byte <= 70 {
        Some(byte - 65 + 10)
    } else {
        None
    }
}

fn hex_upper_char(d: u8) -> (r: char)
    requires
        d < 16,
    ensures
        r == hex_upper(d as nat),
{
    if d < 10 {
        (48 + d) as char
    } else {
        (55 + d) as char
    }
}

fn percent_encode(input: &[u8]) -> (r: String)
    ensures
        r@ == percent_encoded(input@),
{
    let mut out = String::new();
    let mut i: usize = 0;
    assert(input@.skip(0) =~= input@);
    assert(percent_encoded(input@) =~= out@ + percent_encoded(input@.skip(0)));
    while i < input.len()
        invariant
            0 <= i <= input@.len(),
            percent_encoded(input@) == out@ + percent_encoded(input@.skip(i as int)),
        decreases input@.len() - i,
    {
        let b = input[i];
        assert(input@.skip(i as int).drop_first() =~= input@.skip(i + 1));
        if is_unreserved(b) || b == 47 || b == 58 {
            push_char(&mut out, b as char);
        } else {
            push_char(&mut out, '%');
            push_char(&mut out, hex_upper_char(b / 16));
            push_char(&mut out, hex_upper_char(b % 16));
        }
        i = i + 1;
        assert(percent_encoded(input@) == out@ + percent_encoded(input@.skip(i as int)));
    }
    assert(input@.skip(i as int) =~= Seq::<u8>::empty());
    assert(out@ =~= out@ + Seq::<char>::empty());
    out
}

fn percent_decode(input: &[u8]) -> (r: String)
    ensures
        r@ == percent_decoded(input@),
{
    let n = input.len();
    let mut out = String::new();
    let mut i: usize = 0;
    assert(input@.skip(0) =~= input@);
    assert(percent_decoded(input@) =~= out@ + percent_decoded(input@.skip(0)));
    while i < n
        invariant
            n == input@.len(),
            0 <= i <= n,
            percent_decoded(input@) == out@ + percent_decoded(input@.skip(i as int)),
        decreases n - i,
    {
        let ghost tail = input@.skip(i as int);
        let byte = input[i];
        if byte == 37 {
            let hi = if n - i > 1 {
                input[i + 1]
            } else {
                48u8
            };
            let lo = if n - i > 2 {
                input[i + 2]
            } else {
                48u8
            };
            let step: usize = if n - i >= 3 {
                3
            } else {
                n - i
            };
            assert(tail.skip(step as int) =~= input@.skip(i + step));
            match (hex_value(hi), hex_value(lo)) {
                (Some(h), Some(l)) => {
                    push_char(&mut out, (h * 16 + l) as char);
                },
                _ => {
                    push_char(&mut out, '%');
                    push_char(&mut out, hi as char);
                    push_char(&mut out, lo as char);
                },
            }
            i = i + step;
        } else {
            assert(tail.drop_first() =~= input@.skip(i + 1));
            push_char(&mut out, byte as char);
            i = i + 1;
        }
        assert(percent_decoded(input@) == out@ + percent_decoded(input@.skip(i as int)));
    }
    assert(input@.skip(i as int) =~= Seq::<u8>::empty());
    assert(out@ =~= out@ + Seq::<char>::empty());
    out
}

/// The `file://` URI of a path: `\` becomes `/`, a drive-letter or network
/// path gets a leading `/`, and bytes other than unreserved ones, `/` and `:`
/// are percent-encoded.
pub fn path_to_uri(path: &str) -> (r: String)
    ensures
        r@ == path_to_uri_spec(path.spec_bytes()),
{
    let bytes = path.as_bytes();
    let ghost p = bytes@.map_values(|b: u8| if b == 92 { 47u8 } else { b });
    let mut v: Vec<u8> = Vec::new();
    let mut k: usize = 0;
    while k < bytes.len()
        invariant
            0 <= k <= bytes@.len(),
            p == bytes@.map_values(|b: u8| if b == 92 { 47u8 } else { b }),
            v@ == p.subrange(0, k as int),
        decreases bytes@.len() - k,
    {
        let b = bytes[k];
        v.push(if b == 92 {
            47u8
        } else {
            b
        });
        k = k + 1;
        assert(v@ =~= p.subrange(0, k as int));
    }
    assert(v@ =~= p);
    if v.len() >= 2 && v[1] == 58 {
        v.insert(0, 47u8);
    }
    if v.len() >= 2 && v[0] == 47 && v[1] == 47 {
        v.insert(0, 47u8);
    }
    assert(v@ =~= uri_path_bytes(path.spec_bytes()));
    let encoded = percent_encode(v.as_slice());
    let mut out = String::new();
    push_char(&mut out, 'f');
    push_char(&mut out, 'i');
    push_char(&mut out, 'l');
    push_char(&mut out, 'e');
    push_char(&mut out, ':');
    push_char(&mut out, '/');
    push_char(&mut out, '/');
    assert(out@ =~= scheme_chars());
    crate::text::push_str(&mut out, encoded.as_str());
    out
}

/// The path that a `file://` URI names: every leading `file://` removed,
/// escapes decoded, and the `/` in front of a drive letter dropped.
pub fn uri_to_path(uri: &str) -> (r: String)
    ensures
        r@ == uri_to_path_spec(uri.spec_bytes()),
{
    let bytes = uri.as_bytes();
    let n = bytes.len();
    let mut s: usize = 0;
    assert(bytes@.skip(0) =~= bytes@);
    while n - s >= 7 && bytes[s] == 102 && bytes[s + 1] == 105 && bytes[s + 2] == 108 && bytes[s
        + 3] == 101 && bytes[s + 4] == 58 && bytes[s + 5] == 47 && bytes[s + 6] == 47
        invariant
            n == bytes@.len(),
            0 <= s <= n,
            strip_scheme(bytes@) == strip_scheme(bytes@.skip(s as int)),
        decreases n - s,
    {
        assert(bytes@.skip(s as int).subrange(0, 7) =~= scheme_bytes());
        assert(bytes@.skip(s as int).skip(7) =~= bytes@.skip(s + 7));
        s = s + 7;
    }
    let mut rest: Vec<u8> = Vec::new();
    let mut k = s;
    while k < n
        invariant
            n == bytes@.len(),
            s <= k <= n,
            rest@ == bytes@.subrange(s as int, k as int),
        decreases n - k,
    {
        rest.push(bytes[k]);
        k = k + 1;
        assert(rest@ =~= bytes@.subrange(s as int, k as int));
    }
    assert(rest@ =~= bytes@.skip(s as int));
    proof {
        if rest@.len() >= 7 && rest@.subrange(0, 7) == scheme_bytes() {
            assert(rest@.subrange(0, 7)[0] == 102u8);
            assert(rest@[0] == 102u8 && rest@[1] == 105u8 && rest@[2] == 108u8 && rest@[3] == 101u8
                && rest@[4] == 58u8 && rest@[5] == 47u8 && rest@[6] == 47u8);
        }
    }
    assert(strip_scheme(bytes@) == rest@);
    let decoded = percent_decode(rest.as_slice());
    let chars = crate::text::chars_of(decoded.as_str());
    if chars.len() > 3 && chars[0] == '/' && (chars[1] as u32) < 128 && chars[2] == ':' {
        let mut j: usize = 0;
        assert(chars@.skip(0) =~= chars@);
        while j < chars.len() && chars[j] == '/'
            invariant
                0 <= j <= chars@.len(),
                strip_leading_slashes(chars@) == strip_leading_slashes(chars@.skip(j as int)),
            decreases chars@.len() - j,
        {
            assert(chars@.skip(j as int).drop_first() =~= chars@.skip(j + 1));
            j = j + 1;
        }
        let mut tail: Vec<char> = Vec::new();
        let mut q = j;
        while q < chars.len()
            invariant
                j <= q <= chars@.len(),
                tail@ == chars@.subrange(j as int, q as int),
            decreases chars@.len() - q,
        {
            tail.push(chars[q]);
            q = q + 1;
            assert(tail@ =~= chars@.subrange(j as int, q as int));
        }
        assert(tail@ =~= chars@.skip(j as int));
        string_of(&tail)
    } else {
        decoded
    }
}

} // verus!
