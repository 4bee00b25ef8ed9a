//! Decisions of the self-updater: which feed to ask, under which target name,
//! and what to report when installing is not possible.
use vstd::prelude::*;
use crate::text::{chars_eq, chars_of, push_char, push_str};

verus! {

/// Which release feed updates come from.
#[derive(PartialEq, Eq, Structural, Clone, Copy, Debug)]
pub enum UpdateChannel {
    Stable,
    Prerelease,
}

pub open spec fn channel_name(c: UpdateChannel) -> Seq<char> {
    match c {
        UpdateChannel::Stable => "stable"@,
        UpdateChannel::Prerelease => "prerelease"@,
    }
}

pub open spec fn endpoint_prefix(c: UpdateChannel) -> Seq<char> {
    match c {
        UpdateChannel::Stable => "https://github.com/haan/UnimozerNext/releases/latest/download/latest-"@,
        UpdateChannel::Prerelease => "https://github.com/haan/UnimozerNext/releases/download/updater-prerelease/latest-"@,
    }
}

impl UpdateChannel {
    pub fn as_str(self) -> (r: &'static str)
        ensures
            r@ == channel_name(self),
    {
        match self {
            UpdateChannel::Stable => "stable",
            UpdateChannel::Prerelease => "prerelease",
        }
    }

    /// The feed of this channel for `target`: its template with `{target}`
    /// filled in.
    pub fn endpoint_for_target(self, target: &str) -> (r: String)
        ensures
            r@ == endpoint_prefix(self) + target@ + ".json"@,
    {
        let mut out = String::new();
        match self {
            UpdateChannel::Stable => push_str(
                &mut out,
                "https://github.com/haan/UnimozerNext/releases/latest/download/latest-",
            ),
            UpdateChannel::Prerelease => push_str(
                &mut out,
                "https://github.com/haan/UnimozerNext/releases/download/updater-prerelease/latest-",
            ),
        }
        push_str(&mut out, target);
        push_str(&mut out, ".json");
        out
    }
}

/// Whether `a` and `b` hold the same text.
pub fn str_eq(a: &str, b: &str) -> (r: bool)
    ensures
        r == (a@ == b@),
{
    let x = chars_of(a);
    let y = chars_of(b);
    chars_eq(&x, &y)
}

pub open spec fn normalize_arch_spec(arch: Seq<char>) -> Seq<char> {
    if arch == "arm"@ {
        "armv7"@
    } else {
        arch
    }
}

/// The architecture as update feeds name it: `arm` is `armv7`, every other
/// name stays.
pub fn normalize_arch(arch: &str) -> (r: String)
    ensures
        r@ == normalize_arch_spec(arch@),
{
    let mut out = String::new();
    if str_eq(arch, "arm") {
        push_str(&mut out, "armv7");
    } else {
        push_str(&mut out, arch);
    }
    out
}

pub open spec fn updater_target_spec(os: Seq<char>, arch: Seq<char>, installer_kind: Seq<char>) -> Seq<
    char,
> {
    let a = normalize_arch_spec(arch);
    if os == "windows"@ {
        "windows-"@ + a + "-"@ + installer_kind
    } else if os == "macos"@ {
        "darwin-"@ + a
    } else if os == "linux"@ {
        "linux-"@ + a
    } else {
        os + "-"@ + a
    }
}

/// The target name under which the feed lists builds for this system, from
/// the names that `std::env::consts` gives and, on Windows, the installer kind.
pub fn resolve_updater_target(os: &str, arch: &str, installer_kind: &str) -> (r: String)
    ensures
        r@ == updater_target_spec(os@, arch@, installer_kind@),
{
    let a = normalize_arch(arch);
    let mut out = String::new();
    if str_eq(os, "windows") {
        push_str(&mut out, "windows-");
        push_str(&mut out, a.as_str());
        push_char(&mut out, '-');
        push_str(&mut out, installer_kind);
    } else if str_eq(os, "macos") {
        push_str(&mut out, "darwin-");
        push_str(&mut out, a.as_str());
    } else if str_eq(os, "linux") {
        push_str(&mut out, "linux-");
        push_str(&mut out, a.as_str());
    } else {
        push_str(&mut out, os);
        push_char(&mut out, '-');
        push_str(&mut out, a.as_str());
    }
    proof {
        reveal_strlit("-");
        assert("-"@ =~= seq!['-']);
    }
    out
}

/// Whether this installation can update itself, and why not.
pub struct UpdateInstallability {
    pub installable: bool,
    pub reason: Option<String>,
    pub install_path: String,
}

/// An update that the feed offers.
pub struct UpdateSummary {
    pub current_version: String,
    pub version: String,
    pub notes: Option<String>,
    pub pub_date: Option<String>,
    pub target: String,
    pub download_url: String,
}

/// The answer to an update check.
pub struct UpdateCheckResult {
    pub channel: String,
    pub target: String,
    pub update: Option<UpdateSummary>,
    pub installability: UpdateInstallability,
}

/// The outcome of an install request.
pub struct UpdateInstallResult {
    pub installed: bool,
    pub version: Option<String>,
    pub message: Option<String>,
}

pub open spec fn not_writable_prefix() -> Seq<char> {
    "Installation directory is not writable for this user: "@
}

/// Installability on Windows, by installer kind: only an NSIS installation
/// updates itself; `None` means that the write probe decides.
pub fn windows_installer_block(installer_kind: &str, install_path: String) -> (r: Option<
    UpdateInstallability,
>)
    ensures
        installer_kind@ == "nsis"@ ==> r is None,
        installer_kind@ != "nsis"@ ==> r is Some && !r.unwrap().installable && r.unwrap().reason is Some
            && r.unwrap().install_path@ == install_path@ && r.unwrap().reason.unwrap()@ == (
            if installer_kind@ == "msi"@ {
                "Self-update is disabled for MSI installations. Use the NSIS installer to enable in-app updates."@
            } else {
                "Self-update is disabled because the installer type could not be detected."@
            }),
{
    if str_eq(installer_kind, "nsis") {
        return None;
    }
    let mut reason = String::new();
    if str_eq(installer_kind, "msi") {
        push_str(
            &mut reason,
            "Self-update is disabled for MSI installations. Use the NSIS installer to enable in-app updates.",
        );
    } else {
        push_str(
            &mut reason,
            "Self-update is disabled because the installer type could not be detected.",
        );
    }
    Some(UpdateInstallability { installable: false, reason: Some(reason), install_path })
}

/// Installability from the probe that tries to create a file in the
/// installation directory: `Ok` where it could, else the error text.
pub fn installability_from_probe(install_path: String, probe: Result<(), String>) -> (r:
    UpdateInstallability)
    ensures
        r.install_path@ == install_path@,
        r.installable == probe is Ok,
        match probe {
            Ok(()) => r.reason is None,
            Err(e) => r.reason is Some && r.reason.unwrap()@ == not_writable_prefix() + e@,
        },
{
    match probe {
        Ok(()) => UpdateInstallability { installable: true, reason: None, install_path },
        Err(e) => {
            let mut reason = String::new();
            push_str(&mut reason, "Installation directory is not writable for this user: ");
            push_str(&mut reason, e.as_str());
            UpdateInstallability { installable: false, reason: Some(reason), install_path }
        },
    }
}

/// The install result where installing is not possible here: its reason.
pub fn install_blocked(installability: UpdateInstallability) -> (r: UpdateInstallResult)
    ensures
        !r.installed,
        r.version is None,
        r.message == installability.reason,
{
    UpdateInstallResult { installed: false, version: None, message: installability.reason }
}

/// The install result where the feed offers nothing newer.
pub fn install_nothing_newer() -> (r: UpdateInstallResult)
    ensures
        !r.installed,
        r.version is None,
        r.message is Some && r.message.unwrap()@ == "No update is available."@,
{
    let mut m = String::new();
    push_str(&mut m, "No update is available.");
    UpdateInstallResult { installed: false, version: None, message: Some(m) }
}

/// The install result once `version` is downloaded and about to be applied.
pub fn install_done(version: String) -> (r: UpdateInstallResult)
    ensures
        r.installed,
        r.version is Some && r.version.unwrap()@ == version@,
        r.message is Some && r.message.unwrap()@
            == "Update downloaded. Unimozer Next will now close to apply it."@,
{
    let mut m = String::new();
    push_str(&mut m, "Update downloaded. Unimozer Next will now close to apply it.");
    UpdateInstallResult { installed: true, version: Some(version), message: Some(m) }
}

/// A Windows path as installation paths are compared: `/` read as `\`,
/// trailing `\` dropped, ASCII letters in lower case.
pub open spec fn path_for_compare(p: Seq<char>) -> Seq<char> {
    crate::launch_args::trim_end_by(
        p.map_values(|c: char| if c == '/' { '\\' } else { c }),
        crate::launch_args::TrimSet::Only('\\'),
    ).map_values(|c: char| crate::archive::lower_char(c))
}

pub fn normalize_path_for_compare(path: &str) -> (r: String)
    ensures
        r@ == path_for_compare(path@),
{
    let cs = chars_of(path);
    let mut slashed: Vec<char> = Vec::new();
    let mut k: usize = 0;
    while k < cs.len()
        invariant
            0 <= k <= cs@.len(),
            slashed@ == cs@.map_values(|c: char| if c == '/' { '\\' } else { c }).subrange(0, k as int),
        decreases cs@.len() - k,
    {
        slashed.push(if cs[k] == '/' {
            '\\'
        } else {
            cs[k]
        });
        k = k + 1;
        assert(slashed@ =~= cs@.map_values(|c: char| if c == '/' { '\\' } else { c }).subrange(
            0,
            k as int,
        ));
    }
    assert(slashed@ =~= cs@.map_values(|c: char| if c == '/' { '\\' } else { c }));
    let trimmed = crate::launch_args::trim_end_chars(&slashed, crate::launch_args::TrimSet::Only('\\'));
    let mut out = String::new();
    let mut q: usize = 0;
    while q < trimmed.len()
        invariant
            0 <= q <= trimmed@.len(),
            out@ == trimmed@.map_values(|c: char| crate::archive::lower_char(c)).subrange(0, q as int),
        decreases trimmed@.len() - q,
    {
        let c = trimmed[q];
        let lower = if 'A' <= c && c <= 'Z' {
            (((c as u32) as u8) + 32) as char
        } else {
            c
        };
        push_char(&mut out, lower);
        q = q + 1;
        assert(out@ =~= trimmed@.map_values(|c: char| crate::archive::lower_char(c)).subrange(
            0,
            q as int,
        ));
    }
    assert(trimmed@.map_values(|c: char| crate::archive::lower_char(c)).subrange(0, q as int)
        =~= trimmed@.map_values(|c: char| crate::archive::lower_char(c)));
    out
}

/// Two Windows paths name the same installation.
pub fn paths_match(left: &str, right: &str) -> (r: bool)
    ensures
        r == (path_for_compare(left@) == path_for_compare(right@)),
{
    let a = normalize_path_for_compare(left);
    let b = normalize_path_for_compare(right);
    str_eq(a.as_str(), b.as_str())
}

} // verus!
