//! Self-update decisions: which archive a platform takes, which release to offer,
//! and whether a download is the one the release lists.
use vstd::prelude::*;

use crate::chars::{
    all_digits, chars_of, digits_value, str_equal, string_of, trim, trim_space, trim_start_in,
    trim_start_set,
};
use crate::version::{is_newer, spec_is_newer};

verus! {

pub const REPOSITORY: &'static str = "xpepelok/cutix";

pub const UPDATED_FLAG: &'static str = "--updated";

pub const CHECKSUMS_ASSET: &'static str = "checksums.txt";

pub const WORK_DIR: &'static str = ".cutix-update";

pub const STAGED_DIR: &'static str = "staged";

pub const LOCK_FILE: &'static str = "lock";

pub const PROBE_FILE: &'static str = ".cutix-update-probe";

pub const LEFTOVERS_FILE: &'static str = ".cutix-leftovers";

pub const OLD_SUFFIX: &'static str = ".old";

pub const MAX_METADATA_BYTES: u64 = 1048576;

/// Why an update did not go through.
#[derive(Clone, Copy, Debug, PartialEq, Eq, Structural)]
pub enum UpdateError {
    Network,
    Checksum,
    Archive,
    Install,
}

impl UpdateError {
    /// The translation key of the message shown for the error.
    pub open spec fn message_key_spec(self) -> Seq<char> {
        match self {
            UpdateError::Network => "update.error.network"@,
            UpdateError::Checksum => "update.error.checksum"@,
            UpdateError::Archive => "update.error.archive"@,
            UpdateError::Install => "update.error.install"@,
        }
    }

    /// The translation key of the message shown for the error.
    pub fn message_key(self) -> (key: &'static str)
        ensures
            key@ == self.message_key_spec(),
    {
        match self {
            UpdateError::Network => "update.error.network",
            UpdateError::Checksum => "update.error.checksum",
            UpdateError::Archive => "update.error.archive",
            UpdateError::Install => "update.error.install",
        }
    }
}

/// A release that can be installed: its tag and where its archive and checksum
/// listing are.
#[derive(Clone, Debug, PartialEq, Eq)]
pub struct Release {
    pub tag: String,
    pub asset_name: String,
    pub asset_url: String,
    pub checksums_url: String,
}

impl Release {
    /// A copy of the release.
    pub fn duplicate(&self) -> (r: Release)
        ensures
            r == *self,
    {
        Release {
            tag: self.tag.clone(),
            asset_name: self.asset_name.clone(),
            asset_url: self.asset_url.clone(),
            checksums_url: self.checksums_url.clone(),
        }
    }

    /// The tag as shown to people, always with a leading `v`.
    pub fn label(&self) -> (label: String)
        ensures
            label@ == seq!['v'] + trim_start_in(self.tag@, seq!['v', 'V']),
    {
        let tag = chars_of(self.tag.as_str());
        let vees = ['v', 'V'];
        let bare = trim_start_set(tag.as_slice(), &vees);
        assert(vees@ =~= seq!['v', 'V']);
        let mut out: Vec<char> = Vec::new();
        out.push('v');
        let mut i: usize = 0;
        while i < bare.len()
            invariant
                i <= bare@.len(),
                out@ =~= seq!['v'] + bare@.take(i as int),
            decreases bare@.len() - i,
        {
            out.push(bare[i]);
            i = i + 1;
        }
        assert(bare@.take(bare@.len() as int) =~= bare@);
        string_of(out.as_slice())
    }
}

/// The archive a platform installs from. NixOS has none of its own: the copies that
/// can update run outside the store and take the generic tarball.
pub open spec fn spec_asset_for(os: Seq<char>, arch: Seq<char>) -> Option<Seq<char>> {
    if os == "windows"@ && arch == "x86_64"@ {
        Some("cutix-windows-x64.zip"@)
    } else if os == "windows"@ && arch == "aarch64"@ {
        Some("cutix-windows-arm64.zip"@)
    } else if os == "linux"@ && arch == "x86_64"@ {
        Some("cutix-linux-x64.tar.gz"@)
    } else if os == "linux"@ && arch == "aarch64"@ {
        Some("cutix-linux-arm64.tar.gz"@)
    } else {
        None
    }
}

/// The release archive for a platform.
pub fn asset_for(os: &str, arch: &str) -> (r: Option<&'static str>)
    ensures
        match r {
            Some(name) => spec_asset_for(os@, arch@) == Some(name@),
            None => spec_asset_for(os@, arch@) is None,
        },
{
    let windows = str_equal(os, "windows");
    let linux = str_equal(os, "linux");
    let x64 = str_equal(arch, "x86_64");
    let arm = str_equal(arch, "aarch64");
    if windows && x64 {
        Some("cutix-windows-x64.zip")
    } else if windows && arm {
        Some("cutix-windows-arm64.zip")
    } else if linux && x64 {
        Some("cutix-linux-x64.tar.gz")
    } else if linux && arm {
        Some("cutix-linux-arm64.tar.gz")
    } else {
        None
    }
}

/// One asset of a release, as the releases API lists it.
#[derive(Clone, Debug, PartialEq, Eq)]
pub struct ApiAsset {
    pub name: String,
    pub browser_download_url: String,
}

/// A release as the releases API describes it.
#[derive(Clone, Debug, PartialEq, Eq)]
pub struct ApiRelease {
    pub tag_name: String,
    pub draft: bool,
    pub prerelease: bool,
    pub assets: Vec<ApiAsset>,
}

/// The download URL of the first asset called `name`.
pub open spec fn asset_url(assets: Seq<ApiAsset>, name: Seq<char>) -> Option<Seq<char>>
    decreases assets.len(),
{
    if assets.len() == 0 {
        None
    } else if assets[0].name@ == name {
        Some(assets[0].browser_download_url@)
    } else {
        asset_url(assets.drop_first(), name)
    }
}

/// Whether `picked` is the release `release` describes, for `asset`.
pub open spec fn picks(release: ApiRelease, current: Seq<char>, asset: Seq<char>) -> bool {
    &&& !release.draft
    &&& !release.prerelease
    &&& spec_is_newer(release.tag_name@, current)
    &&& asset_url(release.assets@, asset) is Some
    &&& asset_url(release.assets@, "checksums.txt"@) is Some
}

/// The URL of the first asset called `name`.
fn find_asset(assets: &Vec<ApiAsset>, name: &str) -> (r: Option<String>)
    ensures
        match r {
            Some(url) => asset_url(assets@, name@) == Some(url@),
            None => asset_url(assets@, name@) is None,
        },
{
    let mut i: usize = 0;
    assert(assets@.skip(0) =~= assets@);
    while i < assets.len()
        invariant
            i <= assets@.len(),
            asset_url(assets@, name@) == asset_url(assets@.skip(i as int), name@),
        decreases assets@.len() - i,
    {
        assert(assets@.skip(i as int).drop_first() =~= assets@.skip(i + 1));
        assert(assets@.skip(i as int)[0] == assets@[i as int]);
        if str_equal(assets[i].name.as_str(), name) {
            return Some(assets[i].browser_download_url.clone());
        }
        i = i + 1;
    }
    None
}

/// The release described by a `releases/latest` payload, when it is newer than
/// `current` and carries both the archive for `asset` and the checksum listing.
pub fn pick_release(release: ApiRelease, current: &str, asset: &str) -> (r: Option<Release>)
    ensures
        r is Some <==> picks(release, current@, asset@),
        r matches Some(picked) ==> {
            &&& picked.tag@ == release.tag_name@
            &&& picked.asset_name@ == asset@
            &&& asset_url(release.assets@, asset@) == Some(picked.asset_url@)
            &&& asset_url(release.assets@, "checksums.txt"@) == Some(picked.checksums_url@)
        },
{
    if release.draft || release.prerelease || !is_newer(release.tag_name.as_str(), current) {
        return None;
    }
    let asset_url = match find_asset(&release.assets, asset) {
        Some(url) => url,
        None => return None,
    };
    let checksums_url = match find_asset(&release.assets, CHECKSUMS_ASSET) {
        Some(url) => url,
        None => return None,
    };
    Some(
        Release {
            asset_url,
            checksums_url,
            asset_name: string_of(chars_of(asset).as_slice()),
            tag: release.tag_name,
        },
    )
}

/// What a check for updates reports, given what the releases API answered for the
/// latest release: `fetched` is the network's error, no release when the payload was
/// not one, or the release it described.
pub fn check(fetched: Result<Option<ApiRelease>, UpdateError>, current: &str, asset: &str) -> (r: Result<
    Option<Release>,
    UpdateError,
>)
    ensures
        fetched matches Err(e) ==> r == Err::<Option<Release>, UpdateError>(e),
        fetched matches Ok(None) ==> r == Ok::<Option<Release>, UpdateError>(None),
        fetched matches Ok(Some(release)) ==> {
            &&& r is Ok
            &&& (r->Ok_0 is Some <==> picks(release, current@, asset@))
            &&& r->Ok_0 matches Some(picked) ==> {
                &&& picked.tag@ == release.tag_name@
                &&& picked.asset_name@ == asset@
                &&& asset_url(release.assets@, asset@) == Some(picked.asset_url@)
                &&& asset_url(release.assets@, "checksums.txt"@) == Some(picked.checksums_url@)
            }
        },
{
    match fetched {
        Err(e) => Err(e),
        Ok(None) => Ok(None),
        Ok(Some(release)) => Ok(pick_release(release, current, asset)),
    }
}

// ---------------------------------------------------------------------------------
// Digests

/// The lower-case hexadecimal digit for `n` below sixteen.
pub open spec fn hex_digit(n: nat) -> char {
    if n < 10 {
        ((n + 48) as u32) as char
    } else {
        ((n + 87) as u32) as char
    }
}

/// Two lower-case hexadecimal digits per byte (`format!("{byte:02x}")`).
pub open spec fn hex_of(bytes: Seq<u8>) -> Seq<char>
    decreases bytes.len(),
{
    if bytes.len() == 0 {
        Seq::empty()
    } else {
        hex_of(bytes.drop_last()) + seq![
            hex_digit((bytes.last() / 16) as nat),
            hex_digit((bytes.last() % 16) as nat),
        ]
    }
}

fn hex_char(n: u8) -> (c: char)
    requires
        n < 16,
    ensures
        c == hex_digit(n as nat),
{
    if n < 10 {
        (n + 48) as char
    } else {
        (n + 87) as char
    }
}

/// The bytes as lower-case hexadecimal, two digits each.
pub fn hex(bytes: &[u8]) -> (text: String)
    ensures
        text@ == hex_of(bytes@),
{
    let mut out: Vec<char> = Vec::new();
    let mut i: usize = 0;
    assert(bytes@.take(0) =~= Seq::<u8>::empty());
    while i < bytes.len()
        invariant
            i <= bytes@.len(),
            out@ == hex_of(bytes@.take(i as int)),
        decreases bytes@.len() - i,
    {
        let b = bytes[i];
        out.push(hex_char(b / 16));
        out.push(hex_char(b % 16));
        proof {
            assert(bytes@.take(i + 1).drop_last() =~= bytes@.take(i as int));
            assert(bytes@.take(i + 1).last() == b);
        }
        assert(out@ =~= hex_of(bytes@.take(i + 1)));
        i = i + 1;
    }
    assert(bytes@.take(bytes@.len() as int) =~= bytes@);
    string_of(out.as_slice())
}

/// The SHA-256 digest of `data`.
pub uninterp spec fn sha256(data: Seq<u8>) -> Seq<u8>;

/// `sha2::Sha256::digest`: claims that the digest is [`sha256`] of exactly the bytes
/// given, and that it is 32 bytes long. Which 32 bytes is not stated.
#[verifier::external_body]
fn sha256_digest(data: &[u8]) -> (digest: Vec<u8>)
    ensures
        digest@ == sha256(data@),
        digest@.len() == 32,
{
    <sha2::Sha256 as sha2::Digest>::digest(data).to_vec()
}

/// The sha256 of `data` in lower-case hexadecimal.
pub fn sha256_hex(data: &[u8]) -> (text: String)
    ensures
        text@ == hex_of(sha256(data@)),
{
    let digest = sha256_digest(data);
    hex(digest.as_slice())
}

/// The downloaded archive is the one the listing names: its sha256 must be
/// `expected`, else the install stops with a checksum error.
pub fn verify_download(data: &[u8], expected: &str) -> (r: Result<(), UpdateError>)
    ensures
        r is Ok <==> hex_of(sha256(data@)) == expected@,
        r matches Err(e) ==> e == UpdateError::Checksum,
{
    let actual = sha256_hex(data);
    if str_equal(actual.as_str(), expected) {
        Ok(())
    } else {
        Err(UpdateError::Checksum)
    }
}

/// A download is complete unless the server announced a length it did not deliver.
pub fn download_complete(total: Option<u64>, written: u64) -> (r: Result<(), UpdateError>)
    ensures
        r is Ok <==> (match total {
            Some(t) => t == written,
            None => true,
        }),
        r matches Err(e) ==> e == UpdateError::Network,
{
    match total {
        Some(t) => if t != written {
            Err(UpdateError::Network)
        } else {
            Ok(())
        },
        None => Ok(()),
    }
}

// ---------------------------------------------------------------------------------
// The install lock

/// The process id a lock file holds: its trimmed text as `u32::from_str` reads it (an
/// optional `+`, then decimal digits that fit in a `u32`).
pub open spec fn spec_parse_pid(text: Seq<char>) -> Option<u32> {
    let t = trim(text);
    let d = if t.len() > 0 && t[0] == '+' {
        t.drop_first()
    } else {
        t
    };
    if d.len() > 0 && all_digits(d) && digits_value(d) <= u32::MAX {
        Some(digits_value(d) as u32)
    } else {
        None
    }
}

/// The process id a lock file holds, if it holds one.
pub fn parse_pid(text: &str) -> (pid: Option<u32>)
    ensures
        pid == spec_parse_pid(text@),
{
    let chars = chars_of(text);
    let t = trim_space(chars.as_slice());
    let from: usize = if t.len() > 0 && t[0] == '+' {
        1
    } else {
        0
    };
    let d = crate::chars::copy_range(t.as_slice(), from, t.len());
    assert(d@ =~= (if t@.len() > 0 && t@[0] == '+' {
        t@.drop_first()
    } else {
        t@
    }));
    match crate::version::parse_component(d.as_slice()) {
        Some(v) => {
            if v <= 0xFFFF_FFFF {
                Some(v as u32)
            } else {
                None
            }
        },
        None => {
            proof {
                if d@.len() > 0 && all_digits(d@) && digits_value(d@) <= u32::MAX {
                    assert(digits_value(d@) <= u64::MAX);
                }
            }
            None
        },
    }
}

// ---------------------------------------------------------------------------------
// Eligibility

/// Whether `path` (as text) lies in the Nix store; backslashes count as slashes.
pub open spec fn spec_in_nix_store(path: Seq<char>) -> bool {
    let prefix = "/nix/store/"@;
    &&& path.len() >= prefix.len()
    &&& forall|i: int|
        0 <= i < prefix.len() ==> (if path[i] == '\\' {
            '/'
        } else {
            path[i]
        }) == prefix[i]
}

pub fn in_nix_store(path: &str) -> (r: bool)
    ensures
        r == spec_in_nix_store(path@),
{
    let text = chars_of(path);
    let prefix = chars_of("/nix/store/");
    if text.len() < prefix.len() {
        return false;
    }
    let mut i: usize = 0;
    while i < prefix.len()
        invariant
            i <= prefix@.len() <= text@.len(),
            prefix@ == "/nix/store/"@,
            text@ == path@,
            forall|j: int|
                0 <= j < i ==> (if text@[j] == '\\' {
                    '/'
                } else {
                    text@[j]
                }) == prefix@[j],
        decreases prefix@.len() - i,
    {
        let c = if text[i] == '\\' {
            '/'
        } else {
            text[i]
        };
        if c != prefix[i] {
            assert((if text@[i as int] == '\\' {
                '/'
            } else {
                text@[i as int]
            }) != "/nix/store/"@[i as int]);
            return false;
        }
        i = i + 1;
    }
    true
}

/// Whether this copy may update itself. `disabled`: updates are switched off; a debug
/// build needs `forced`; the platform needs an archive; the executable must not live
/// in the Nix store; its directory must hold `lang/` and take new files.
pub fn may_self_update(
    disabled: bool,
    debug_build: bool,
    forced: bool,
    has_asset: bool,
    in_store: bool,
    has_lang: bool,
    writable: bool,
) -> (r: bool)
    ensures
        r == (!disabled && (!debug_build || forced) && has_asset && !in_store && has_lang
            && writable),
{
    if disabled {
        return false;
    }
    if debug_build && !forced {
        return false;
    }
    has_asset && !in_store && has_lang && writable
}

} // verus!
