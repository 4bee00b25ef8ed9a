//! Which directories the project tree and its change tokens pass over.
use vstd::prelude::*;
use crate::archive::{eq_ignore_ascii_case, eq_ignore_case_exec};
use crate::launch_args::{file_name_bounds, file_name_span};
use crate::platform::HostOs;
use crate::text::{chars_of, sub_chars};

verus! {

/// Directory names that the project tree leaves out.
pub open spec fn tree_skip_names() -> Seq<Seq<char>> {
    seq![
        "node_modules"@,
        "target"@,
        "dist"@,
        "out"@,
        ".git"@,
        ".idea"@,
        "bin"@,
        ".unimozer-next"@,
    ]
}

/// The path's file name is one of those names, compared without ASCII case.
pub open spec fn should_skip_dir_spec(path: Seq<char>, host: HostOs) -> bool {
    match file_name_span(path, path.len() as int, host) {
        None => false,
        Some((s, e)) => exists|i: int|
            0 <= i < tree_skip_names().len() && eq_ignore_ascii_case(
                path.subrange(s, e),
                #[trigger] tree_skip_names()[i],
            ),
    }
}

pub fn should_skip_dir(path: &str, host: HostOs) -> (r: bool)
    ensures
        r == should_skip_dir_spec(path@, host),
{
    let cs = chars_of(path);
    let (s, e) = match file_name_bounds(&cs, host) {
        None => return false,
        Some(span) => span,
    };
    let name = sub_chars(&cs, s, e);
    let names: [&str; 8] = ["node_modules", "target", "dist", "out", ".git", ".idea", "bin", ".unimozer-next"];
    let mut k: usize = 0;
    while k < 8
        invariant
            0 <= k <= 8,
            s < e <= cs@.len(),
            name@ == cs@.subrange(s as int, e as int),
            file_name_span(cs@, cs@.len() as int, host) == Some((s as int, e as int)),
            cs@ == path@,
            forall|j: int| 0 <= j < 8 ==> (#[trigger] names@[j])@ == tree_skip_names()[j],
            forall|j: int| 0 <= j < k ==> !eq_ignore_ascii_case(name@, #[trigger] tree_skip_names()[j]),
        decreases 8 - k,
    {
        let candidate = chars_of(names[k]);
        if eq_ignore_case_exec(&name, &candidate) {
            assert(candidate@ == tree_skip_names()[k as int]);
            assert(eq_ignore_ascii_case(path@.subrange(s as int, e as int), tree_skip_names()[k as int]));
            return true;
        }
        k = k + 1;
    }
    false
}

} // verus!
