//! Which of a release's files to download on this machine.

use vstd::prelude::*;

use crate::text;
use crate::text::{chars_of, contains, lowercase, same};

verus! {

broadcast use vstd::string::group_string_axioms;

/// The platform a file is for.
#[derive(Debug, Clone, Copy, PartialEq, Eq, Structural)]
pub enum AssetPlatform {
    MacOS,
    Windows,
    Linux,
    Unknown,
}

/// The architecture a file is for.
#[derive(Debug, Clone, Copy, PartialEq, Eq, Structural)]
pub enum AssetArch {
    Arm64,
    X86_64,
    Universal,
    Unknown,
}

/// The architecture of this machine.
#[derive(Debug, Clone, Copy, PartialEq, Eq, Structural)]
pub enum HostArch {
    Arm64,
    X86_64,
}

impl HostArch {
    /// The architecture that `target` names, as the compiler names its target.
    pub fn current(target: &str) -> (h: HostArch)
        ensures
            h == if target@ == "aarch64"@ {
                HostArch::Arm64
            } else {
                HostArch::X86_64
            },
    {
        if same(target, "aarch64") {
            HostArch::Arm64
        } else {
            HostArch::X86_64
        }
    }
}

/// Whether a file's name mentions `word`, in whatever case.
pub open spec fn mentions(name: Seq<char>, word: Seq<char>) -> bool {
    text::has(text::lowercased(name), word)
}

/// The platform a file's name speaks of.
pub open spec fn platform_of(name: Seq<char>) -> AssetPlatform {
    if mentions(name, "macos"@) || mentions(name, "osx"@) || mentions(name, "darwin"@) {
        AssetPlatform::MacOS
    } else if mentions(name, "windows"@) || mentions(name, "win32"@) || mentions(name, "winnt"@)
        || mentions(name, ".exe"@) {
        AssetPlatform::Windows
    } else if mentions(name, "linux"@) || mentions(name, ".appimage"@) || mentions(name, ".deb"@)
        || mentions(name, ".rpm"@) {
        AssetPlatform::Linux
    } else {
        AssetPlatform::Unknown
    }
}

/// The architecture a file's name speaks of.
pub open spec fn arch_of(name: Seq<char>) -> AssetArch {
    if mentions(name, "arm64"@) || mentions(name, "aarch64"@) {
        AssetArch::Arm64
    } else if mentions(name, "x86_64"@) || mentions(name, "x64"@) || mentions(name, "amd64"@)
        || mentions(name, "intel"@) {
        AssetArch::X86_64
    } else if mentions(name, "universal"@) {
        AssetArch::Universal
    } else {
        AssetArch::Unknown
    }
}

/// Whether a file is an archive with a game build, for a platform that might be ours.
pub open spec fn usable(name: Seq<char>) -> bool {
    let is_archive = mentions(name, ".zip"@) || mentions(name, ".tar.gz"@) || mentions(
        name,
        ".tgz"@,
    );
    let is_build = !(mentions(name, "symbols"@) || mentions(name, "installer"@) || mentions(
        name,
        "debug"@,
    ) || mentions(name, "source"@));
    is_archive && is_build && (platform_of(name) == AssetPlatform::MacOS || platform_of(name)
        == AssetPlatform::Unknown)
}

/// Whether a build runs on `host`. Intel builds run on Apple Silicon under Rosetta;
/// universal and unrecognised builds are assumed to run anywhere.
pub open spec fn runnable(name: Seq<char>, host: HostArch) -> bool {
    !(arch_of(name) == AssetArch::Arm64 && host == HostArch::X86_64)
}

/// How well a file fits `host`; lower is better.
pub open spec fn rank_of(name: Seq<char>, host: HostArch) -> (u8, u8) {
    (
        if platform_of(name) == AssetPlatform::MacOS {
            0
        } else {
            1
        },
        match (arch_of(name), host) {
            (AssetArch::Arm64, HostArch::Arm64) => 0,
            (AssetArch::X86_64, HostArch::X86_64) => 0,
            (AssetArch::Universal, _) => 1,
            (AssetArch::Unknown, _) => 2,
            _ => 3,
        },
    )
}

/// Whether one rank is better than another.
pub open spec fn better(a: (u8, u8), b: (u8, u8)) -> bool {
    a.0 < b.0 || (a.0 == b.0 && a.1 < b.1)
}

/// Whether a file can be used on `host` at all.
pub open spec fn fits(name: Seq<char>, host: HostArch) -> bool {
    usable(name) && runnable(name, host)
}

/// One release asset, before we decide whether we want it.
#[derive(Debug, PartialEq, Eq)]
pub struct Candidate {
    pub name: String,
    pub url: String,
    pub bytes: u64,
}

/// One release asset.
pub struct CandidateView {
    pub name: Seq<char>,
    pub url: Seq<char>,
    pub bytes: u64,
}

impl View for Candidate {
    type V = CandidateView;

    open spec fn view(&self) -> CandidateView {
        CandidateView { name: self.name@, url: self.url@, bytes: self.bytes }
    }
}

/// What each asset is.
pub open spec fn candidates_of(v: Seq<Candidate>) -> Seq<CandidateView> {
    Seq::new(v.len(), |i: int| v[i]@)
}

/// The best of the first `n` files for `host`: the first of those that nothing beats.
pub open spec fn best(all: Seq<CandidateView>, host: HostArch, n: int) -> Option<int>
    decreases n,
{
    if n <= 0 {
        None
    } else {
        let before = best(all, host, n - 1);
        let name = all[n - 1].name;
        if !fits(name, host) {
            before
        } else {
            match before {
                Some(i) => if better(rank_of(name, host), rank_of(all[i].name, host)) {
                    Some(n - 1)
                } else {
                    before
                },
                None => Some(n - 1),
            }
        }
    }
}

/// The best file for `host`, if any can be used on it.
pub open spec fn choice(all: Seq<CandidateView>, host: HostArch) -> Option<int> {
    best(all, host, all.len() as int)
}

impl Candidate {
    /// Whether the file's name mentions `needle`, which is in lower case.
    pub fn has(&self, needle: &str) -> (r: bool)
        ensures
            r == mentions(self.name@, needle@),
    {
        contains(&lowercase(&chars_of(self.name.as_str())), &chars_of(needle))
    }

    pub fn platform(&self) -> (r: AssetPlatform)
        ensures
            r == platform_of(self.name@),
    {
        if self.has("macos") || self.has("osx") || self.has("darwin") {
            AssetPlatform::MacOS
        } else if self.has("windows") || self.has("win32") || self.has("winnt") || self.has(
            ".exe",
        ) {
            AssetPlatform::Windows
        } else if self.has("linux") || self.has(".appimage") || self.has(".deb") || self.has(
            ".rpm",
        ) {
            AssetPlatform::Linux
        } else {
            AssetPlatform::Unknown
        }
    }

    /// Longer names first: `x86_64` must never be read as `x86`, and `aarch64` must not
    /// fall through to the generic branch.
    pub fn arch(&self) -> (r: AssetArch)
        ensures
            r == arch_of(self.name@),
    {
        if self.has("arm64") || self.has("aarch64") {
            AssetArch::Arm64
        } else if self.has("x86_64") || self.has("x64") || self.has("amd64") || self.has("intel") {
            AssetArch::X86_64
        } else if self.has("universal") {
            AssetArch::Universal
        } else {
            AssetArch::Unknown
        }
    }

    /// An archive that is a game build, for a platform that might be ours.
    ///
    /// An `Unknown` platform is accepted rather than discarded: a future release might
    /// name a macOS build in a way we do not recognise, and rejecting it outright would
    /// make the game silently uninstallable.
    pub fn is_usable(&self) -> (r: bool)
        ensures
            r == usable(self.name@),
    {
        let is_archive: bool = self.has(".zip") || self.has(".tar.gz") || self.has(".tgz");
        let is_build: bool = !(self.has("symbols") || self.has("installer") || self.has("debug")
            || self.has("source"));
        let platform: AssetPlatform = self.platform();
        is_archive && is_build && (platform == AssetPlatform::MacOS || platform
            == AssetPlatform::Unknown)
    }

    pub fn runs_on(&self, host: HostArch) -> (r: bool)
        ensures
            r == runnable(self.name@, host),
    {
        !(self.arch() == AssetArch::Arm64 && host == HostArch::X86_64)
    }

    /// Lower sorts first.
    pub fn rank(&self, host: HostArch) -> (r: (u8, u8))
        ensures
            r == rank_of(self.name@, host),
    {
        let platform: u8 = match self.platform() {
            AssetPlatform::MacOS => 0,
            _ => 1,
        };
        let arch: u8 = match (self.arch(), host) {
            (AssetArch::Arm64, HostArch::Arm64) => 0,
            (AssetArch::X86_64, HostArch::X86_64) => 0,
            (AssetArch::Universal, _) => 1,
            (AssetArch::Unknown, _) => 2,
            // Anything left runs only through translation.
            _ => 3,
        };
        (platform, arch)
    }
}

/// The best download for this host, or `None` when the release offers nothing runnable.
/// `None` is a normal outcome, not an error: OpenLoco publishes no Intel macOS build.
pub fn choose_asset(candidates: &Vec<Candidate>, host: HostArch) -> (r: Option<&Candidate>)
    ensures
        r is Some <==> choice(candidates_of(candidates@), host) is Some,
        r matches Some(c) ==> c@ == candidates@[choice(candidates_of(candidates@), host)->0]@,
{
    let ghost all = candidates_of(candidates@);
    let mut found: Option<usize> = None;
    let mut i: usize = 0;
    while i < candidates.len()
        invariant
            i <= candidates.len(),
            all == candidates_of(candidates@),
            found is Some <==> best(all, host, i as int) is Some,
            found matches Some(k) ==> best(all, host, i as int) == Some(k as int) && k < i,
        decreases candidates.len() - i,
    {
        let c: &Candidate = &candidates[i];
        if c.is_usable() && c.runs_on(host) {
            match found {
                Some(k) => {
                    let (a, b): ((u8, u8), (u8, u8)) = (c.rank(host), candidates[k].rank(host));
                    if a.0 < b.0 || (a.0 == b.0 && a.1 < b.1) {
                        found = Some(i);
                    }
                },
                None => {
                    found = Some(i);
                },
            }
        }
        i += 1;
    }
    match found {
        Some(k) => Some(&candidates[k]),
        None => None,
    }
}

/// What makes a file the best: it can be used, nothing that can be used beats it, and
/// whatever comes before it is worse. There is none only where nothing can be used.
pub proof fn choice_is_best(all: Seq<CandidateView>, host: HostArch, n: int)
    requires
        0 <= n <= all.len(),
    ensures
        best(all, host, n) matches Some(i) ==> {
            &&& 0 <= i < n
            &&& fits(all[i].name, host)
            &&& forall|j: int|
                0 <= j < n && fits(#[trigger] all[j].name, host) ==> !better(
                    rank_of(all[j].name, host),
                    rank_of(all[i].name, host),
                )
            &&& forall|j: int|
                0 <= j < i && fits(#[trigger] all[j].name, host) ==> better(
                    rank_of(all[i].name, host),
                    rank_of(all[j].name, host),
                )
        },
        best(all, host, n) is None ==> forall|j: int|
            0 <= j < n ==> !fits(#[trigger] all[j].name, host),
    decreases n,
{
    if n > 0 {
        choice_is_best(all, host, n - 1);
    }
}

/// Whether a file's name has a word in it, in whatever case.
pub open spec fn says(name: Seq<char>, word: Seq<char>) -> bool {
    text::has(text::lowercased(name), word)
}

/// Whether a file's name says that it is for a Mac.
pub open spec fn says_mac(name: Seq<char>) -> bool {
    says(name, "macos"@) || says(name, "osx"@) || says(name, "darwin"@)
}

/// Whether a file's name says that it is for another system.
pub open spec fn says_elsewhere(name: Seq<char>) -> bool {
    ||| says(name, "windows"@)
    ||| says(name, "win32"@)
    ||| says(name, "winnt"@)
    ||| says(name, ".exe"@)
    ||| says(name, "linux"@)
    ||| says(name, ".appimage"@)
    ||| says(name, ".deb"@)
    ||| says(name, ".rpm"@)
}

/// Whether a file's name says that it is for Apple's own processors.
pub open spec fn says_arm(name: Seq<char>) -> bool {
    says(name, "arm64"@) || says(name, "aarch64"@)
}

/// Whether a file's name says that it is for Intel's, and for no other.
pub open spec fn says_intel(name: Seq<char>) -> bool {
    !says_arm(name) && (says(name, "x86_64"@) || says(name, "x64"@) || says(name, "amd64"@)
        || says(name, "intel"@))
}

/// Whether a file is a game build that could be for this machine.
pub open spec fn is_a_build_for(name: Seq<char>, host: HostArch) -> bool {
    &&& says(name, ".zip"@) || says(name, ".tar.gz"@) || says(name, ".tgz"@)
    &&& !says(name, "symbols"@)
    &&& !says(name, "installer"@)
    &&& !says(name, "debug"@)
    &&& !says(name, "source"@)
    &&& says_mac(name) || !says_elsewhere(name)
    &&& says_arm(name) ==> host == HostArch::Arm64
}

/// What is chosen is an archive with a game build, not for another system nor for a
/// processor this machine has not got; and something is chosen wherever there is such a
/// file.
pub proof fn what_is_chosen_can_be_used(all: Seq<CandidateView>, host: HostArch)
    ensures
        choice(all, host) matches Some(i) ==> 0 <= i < all.len() && is_a_build_for(
            all[i].name,
            host,
        ),
        forall|j: int|
            0 <= j < all.len() && is_a_build_for(#[trigger] all[j].name, host) ==> choice(all, host)
                is Some,
{
    choice_is_best(all, host, all.len() as int);
    assert forall|j: int| 0 <= j < all.len() implies is_a_build_for(#[trigger] all[j].name, host)
        == fits(all[j].name, host) by {}
}

/// A file for this machine's own processor is chosen before a universal one, that before
/// one whose name says nothing of processors, and that before one for another processor;
/// but a file that says it is for a Mac before any that does not. Of files that are alike
/// in this the first is chosen.
pub proof fn the_closest_file_is_chosen(all: Seq<CandidateView>, host: HostArch, j: int)
    requires
        choice(all, host) is Some,
        0 <= j < all.len(),
        is_a_build_for(all[j].name, host),
    ensures
        ({
            let i = choice(all, host)->0;
            let own = |name: Seq<char>|
                match host {
                    HostArch::Arm64 => says_arm(name),
                    HostArch::X86_64 => says_intel(name),
                };
            let named = |name: Seq<char>| says_arm(name) || says_intel(name);
            let (a, b) = (all[i].name, all[j].name);
            &&& says_mac(b) ==> says_mac(a)
            &&& says_mac(a) == says_mac(b) ==> {
                &&& own(b) ==> own(a)
                &&& !named(b) && says(b, "universal"@) ==> own(a) || !named(a) && says(
                    a,
                    "universal"@,
                )
                &&& !named(b) ==> own(a) || !named(a)
                &&& own(a) == own(b) && named(a) == named(b) && (named(a) || says(
                    a,
                    "universal"@,
                ) == says(b, "universal"@)) ==> i <= j
            }
        }),
{
    choice_is_best(all, host, all.len() as int);
    let i = choice(all, host)->0;
    assert(is_a_build_for(all[j].name, host) == fits(all[j].name, host));
    assert(!better(rank_of(all[j].name, host), rank_of(all[i].name, host)));
    if j < i {
        assert(better(rank_of(all[i].name, host), rank_of(all[j].name, host)));
    }
}

} // verus!
