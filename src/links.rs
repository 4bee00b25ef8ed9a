//! Which links the application hands to the system browser or mail program.
use vstd::prelude::*;
use crate::launch_args::{starts_with_ci, starts_with_ci_exec};

verus! {

pub open spec fn https_bytes() -> Seq<u8> {
    seq![104u8, 116u8, 116u8, 112u8, 115u8, 58u8, 47u8, 47u8]
}

pub open spec fn http_bytes() -> Seq<u8> {
    seq![104u8, 116u8, 116u8, 112u8, 58u8, 47u8, 47u8]
}

pub open spec fn mailto_bytes() -> Seq<u8> {
    seq![109u8, 97u8, 105u8, 108u8, 116u8, 111u8, 58u8]
}

/// A link opens only where it starts, in any ASCII case, with `https://`,
/// `http://` or `mailto:`.
pub open spec fn is_allowed_url_spec(url: Seq<u8>) -> bool {
    starts_with_ci(url, https_bytes()) || starts_with_ci(url, http_bytes()) || starts_with_ci(
        url,
        mailto_bytes(),
    )
}

pub fn is_allowed_url(url: &str) -> (r: bool)
    ensures
        r == is_allowed_url_spec(vstd::string::StringSliceAdditionalSpecFns::spec_bytes(url)),
{
    let bytes = url.as_bytes();
    let https = vec![104u8, 116u8, 116u8, 112u8, 115u8, 58u8, 47u8, 47u8];
    let http = vec![104u8, 116u8, 116u8, 112u8, 58u8, 47u8, 47u8];
    let mailto = vec![109u8, 97u8, 105u8, 108u8, 116u8, 111u8, 58u8];
    assert(https@ =~= https_bytes() && http@ =~= http_bytes() && mailto@ =~= mailto_bytes());
    assert(bytes@.skip(0) =~= bytes@);
    starts_with_ci_exec(bytes, 0, https.as_slice()) || starts_with_ci_exec(bytes, 0, http.as_slice())
        || starts_with_ci_exec(bytes, 0, mailto.as_slice())
}

} // verus!
