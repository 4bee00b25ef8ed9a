//! Names of the bundled runtime and server configuration, chosen by the
//! operating system and processor architecture that the application runs on.
use vstd::prelude::*;
use crate::text::push_str;

verus! {

/// Operating system families that the bundle distinguishes.
#[derive(PartialEq, Eq, Structural, Clone, Copy, Debug)]
pub enum HostOs {
    Windows,
    MacOs,
    /// Linux and every other system.
    Linux,
}

/// Processor architectures that the bundle distinguishes.
#[derive(PartialEq, Eq, Structural, Clone, Copy, Debug)]
pub enum HostArch {
    Aarch64,
    /// x86-64 and every other architecture.
    X64,
}

pub open spec fn config_dir_spec(os: HostOs, arch: HostArch) -> Seq<char> {
    match os {
        HostOs::Windows => "config_win"@,
        HostOs::MacOs => if arch == HostArch::Aarch64 {
            "config_mac_arm"@
        } else {
            "config_mac"@
        },
        HostOs::Linux => if arch == HostArch::Aarch64 {
            "config_linux_arm"@
        } else {
            "config_linux"@
        },
    }
}

/// The directory, inside the bundled server, of its default configuration.
pub fn config_dir_name(os: HostOs, arch: HostArch) -> (r: &'static str)
    ensures
        r@ == config_dir_spec(os, arch),
{
    match os {
        HostOs::Windows => "config_win",
        HostOs::MacOs => if arch == HostArch::Aarch64 {
            "config_mac_arm"
        } else {
            "config_mac"
        },
        HostOs::Linux => if arch == HostArch::Aarch64 {
            "config_linux_arm"
        } else {
            "config_linux"
        },
    }
}

/// The server configuration directory, relative to the bundled resources.
pub fn jdtls_config_relative_dir(os: HostOs, arch: HostArch) -> (r: String)
    ensures
        r@ == "jdtls/"@ + config_dir_spec(os, arch),
{
    let mut out = String::new();
    push_str(&mut out, "jdtls/");
    push_str(&mut out, config_dir_name(os, arch));
    out
}

pub open spec fn jdk_dir_spec(os: HostOs, arch: HostArch) -> Seq<char> {
    match (os, arch) {
        (HostOs::Windows, HostArch::Aarch64) => "jdk/win-arm64"@,
        (HostOs::Windows, HostArch::X64) => "jdk/win-x64"@,
        (HostOs::MacOs, HostArch::Aarch64) => "jdk/mac-arm64"@,
        (HostOs::MacOs, HostArch::X64) => "jdk/mac-x64"@,
        (HostOs::Linux, HostArch::Aarch64) => "jdk/linux-arm64"@,
        (HostOs::Linux, HostArch::X64) => "jdk/linux-x64"@,
    }
}

/// The bundled Java runtime, relative to the bundled resources.
pub fn jdk_relative_dir(os: HostOs, arch: HostArch) -> (r: &'static str)
    ensures
        r@ == jdk_dir_spec(os, arch),
{
    match (os, arch) {
        (HostOs::Windows, HostArch::Aarch64) => "jdk/win-arm64",
        (HostOs::Windows, HostArch::X64) => "jdk/win-x64",
        (HostOs::MacOs, HostArch::Aarch64) => "jdk/mac-arm64",
        (HostOs::MacOs, HostArch::X64) => "jdk/mac-x64",
        (HostOs::Linux, HostArch::Aarch64) => "jdk/linux-arm64",
        (HostOs::Linux, HostArch::X64) => "jdk/linux-x64",
    }
}

/// The `java` launcher of the bundled runtime, relative to the bundled resources.
pub fn java_executable_name(os: HostOs, arch: HostArch) -> (r: String)
    ensures
        r@ == jdk_dir_spec(os, arch) + (if os == HostOs::Windows {
            "/bin/java.exe"@
        } else {
            "/bin/java"@
        }),
{
    let mut out = String::new();
    push_str(&mut out, jdk_relative_dir(os, arch));
    if os == HostOs::Windows {
        push_str(&mut out, "/bin/java.exe");
    } else {
        push_str(&mut out, "/bin/java");
    }
    out
}

/// The `javac` compiler of the bundled runtime, relative to the bundled resources.
pub fn javac_executable_name(os: HostOs, arch: HostArch) -> (r: String)
    ensures
        r@ == jdk_dir_spec(os, arch) + (if os == HostOs::Windows {
            "/bin/javac.exe"@
        } else {
            "/bin/javac"@
        }),
{
    let mut out = String::new();
    push_str(&mut out, jdk_relative_dir(os, arch));
    if os == HostOs::Windows {
        push_str(&mut out, "/bin/javac.exe");
    } else {
        push_str(&mut out, "/bin/javac");
    }
    out
}

} // verus!
