//! The closed set of platforms a channel can publish repodata for, plus the
//! distinguished platform-agnostic value `NoArch`.

use vstd::prelude::*;

verus! {

/// An architecture/OS pair, or `NoArch` for platform-agnostic packages.
///
/// `NoArch` is always consulted alongside any concrete platform: a channel is
/// expected to publish a `noarch` subdirectory even if it is empty, so a
/// missing `NoArch` subdirectory is fatal while a missing concrete platform is
/// not.
#[derive(Debug, Clone, Copy, PartialEq, Eq, Hash, Structural)]
pub enum Platform {
    Linux32,
    Linux64,
    LinuxAarch64,
    Osx64,
    OsxArm64,
    Win32,
    Win64,
    NoArch,
}

impl Platform {
    /// The subdirectory name of this platform as a sequence of characters.
    pub open spec fn spec_name(self) -> Seq<char> {
        match self {
            Platform::Linux32 => "linux-32"@,
            Platform::Linux64 => "linux-64"@,
            Platform::LinuxAarch64 => "linux-aarch64"@,
            Platform::Osx64 => "osx-64"@,
            Platform::OsxArm64 => "osx-arm64"@,
            Platform::Win32 => "win-32"@,
            Platform::Win64 => "win-64"@,
            Platform::NoArch => "noarch"@,
        }
    }

    /// The subdirectory name of this platform (`linux-64`, `noarch`, ...).
    pub fn name(self) -> (r: &'static str)
        ensures
            r@ == self.spec_name(),
    {
        match self {
            Platform::Linux32 => "linux-32",
            Platform::Linux64 => "linux-64",
            Platform::LinuxAarch64 => "linux-aarch64",
            Platform::Osx64 => "osx-64",
            Platform::OsxArm64 => "osx-arm64",
            Platform::Win32 => "win-32",
            Platform::Win64 => "win-64",
            Platform::NoArch => "noarch",
        }
    }

    /// True exactly on the platform-agnostic value.
    pub fn is_noarch(self) -> (r: bool)
        ensures
            r == (self == Platform::NoArch),
    {
        match self {
            Platform::NoArch => true,
            _ => false,
        }
    }

    /// True on the Windows platforms.
    pub open spec fn spec_is_windows(self) -> bool {
        self == Platform::Win32 || self == Platform::Win64
    }

    /// True on the Windows platforms.
    pub fn is_windows(self) -> (r: bool)
        ensures
            r == self.spec_is_windows(),
    {
        match self {
            Platform::Win32 | Platform::Win64 => true,
            _ => false,
        }
    }

    /// True on the macOS platforms.
    pub open spec fn spec_is_osx(self) -> bool {
        self == Platform::Osx64 || self == Platform::OsxArm64
    }

    /// True on the macOS platforms.
    pub fn is_osx(self) -> (r: bool)
        ensures
            r == self.spec_is_osx(),
    {
        match self {
            Platform::Osx64 | Platform::OsxArm64 => true,
            _ => false,
        }
    }
}

} // verus!
