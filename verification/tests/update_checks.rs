use cutix_native::archive::{archive_kind, check_staged, entry_path, ArchiveKind};
use cutix_native::checksum::checksum_for;
use cutix_native::update::{
    asset_for, check, download_complete, hex, in_nix_store, may_self_update, parse_pid,
    pick_release, sha256_hex, verify_download, ApiAsset, ApiRelease, Release, UpdateError,
};
use cutix_native::version::{is_newer, parse_version};

fn parts(path: &[&str]) -> Vec<String> {
    path.iter().map(|part| part.to_string()).collect()
}

#[test]
fn versions_compare_numerically() {
    assert!(is_newer("v0.0.3", "0.0.2"));
    assert!(is_newer("0.1.0", "0.0.9"));
    assert!(is_newer("v0.0.10", "0.0.9"));
    assert!(is_newer("1.0", "0.9.9"));
    assert!(!is_newer("v0.0.2", "0.0.2"));
    assert!(!is_newer("0.0.2.0", "0.0.2"));
    assert!(!is_newer("v0.0.1", "0.0.2"));
    assert!(is_newer("v0.0.3-beta", "0.0.2"));
    assert!(!is_newer("nightly", "0.0.2"));
    assert!(!is_newer("", "0.0.2"));
    assert_eq!(parse_version("v1.2.3+build"), Some(vec![1, 2, 3]));
    assert_eq!(parse_version("1..2"), None);
}

#[test]
fn checksums_are_read_per_file() {
    let a = "a".repeat(64);
    let b = "B".repeat(64);
    let listing = format!(
        "{a}  cutix-windows-x64.zip\n{b} *cutix-linux-x64.tar.gz\nnot a line\nabc  short.zip\n"
    );
    assert_eq!(
        checksum_for(&listing, "cutix-windows-x64.zip").as_deref(),
        Some(a.as_str())
    );
    assert_eq!(
        checksum_for(&listing, "cutix-linux-x64.tar.gz"),
        Some("b".repeat(64))
    );
    assert_eq!(checksum_for(&listing, "short.zip"), None);
    assert_eq!(checksum_for(&listing, "cutix-linux-arm64.tar.gz"), None);
}

#[test]
fn assets_follow_the_platform_and_never_name_the_nixos_wrapper() {
    assert_eq!(
        asset_for("windows", "x86_64"),
        Some("cutix-windows-x64.zip")
    );
    assert_eq!(
        asset_for("windows", "aarch64"),
        Some("cutix-windows-arm64.zip")
    );
    assert_eq!(asset_for("linux", "x86_64"), Some("cutix-linux-x64.tar.gz"));
    assert_eq!(
        asset_for("linux", "aarch64"),
        Some("cutix-linux-arm64.tar.gz")
    );
    assert_eq!(asset_for("macos", "aarch64"), None);
    assert_eq!(asset_for("windows", "x86"), None);
    for (os, arch) in [("linux", "x86_64"), ("linux", "aarch64")] {
        assert!(
            !asset_for(os, arch).unwrap_or_default().contains("nixos"),
            "the nixos tarball only runs from the CI's store"
        );
    }
}

fn payload(tag: &str, assets: &[&str]) -> ApiRelease {
    ApiRelease {
        tag_name: tag.to_string(),
        draft: false,
        prerelease: false,
        assets: assets
            .iter()
            .map(|name| ApiAsset {
                name: name.to_string(),
                browser_download_url: format!("https://example.com/{name}"),
            })
            .collect(),
    }
}

#[test]
fn a_release_needs_a_newer_tag_the_archive_and_checksums() {
    let full = payload("v0.0.3", &["checksums.txt", "cutix-windows-x64.zip"]);
    let picked = pick_release(full.clone(), "0.0.2", "cutix-windows-x64.zip").expect("newer");
    assert_eq!(picked.label(), "v0.0.3");
    assert_eq!(
        picked.asset_url,
        "https://example.com/cutix-windows-x64.zip"
    );
    assert_eq!(picked.checksums_url, "https://example.com/checksums.txt");

    assert!(pick_release(full.clone(), "0.0.3", "cutix-windows-x64.zip").is_none());
    assert!(pick_release(full.clone(), "0.0.2", "cutix-linux-x64.tar.gz").is_none());
    let unsigned = payload("v0.0.3", &["cutix-windows-x64.zip"]);
    assert!(pick_release(unsigned, "0.0.2", "cutix-windows-x64.zip").is_none());
    let mut draft = full.clone();
    draft.draft = true;
    assert!(pick_release(draft, "0.0.2", "cutix-windows-x64.zip").is_none());
    // A payload that does not parse as a release reaches the check as no release.
    assert_eq!(check(Ok(None), "0.0.2", "cutix-windows-x64.zip"), Ok(None));
}

#[test]
fn a_prerelease_is_never_offered() {
    let mut release = payload("v9.0.0", &["checksums.txt", "cutix-linux-x64.tar.gz"]);
    release.prerelease = true;
    assert!(pick_release(release, "0.0.1", "cutix-linux-x64.tar.gz").is_none());
}

#[test]
fn the_first_asset_with_a_name_wins() {
    let mut release = payload("v1.0.0", &["checksums.txt", "cutix-linux-x64.tar.gz"]);
    release.assets.push(ApiAsset {
        name: "cutix-linux-x64.tar.gz".to_string(),
        browser_download_url: "https://mirror.example.com/second".to_string(),
    });
    let picked = pick_release(release, "0.9", "cutix-linux-x64.tar.gz").expect("newer");
    assert_eq!(
        picked,
        Release {
            tag: "v1.0.0".to_string(),
            asset_name: "cutix-linux-x64.tar.gz".to_string(),
            asset_url: "https://example.com/cutix-linux-x64.tar.gz".to_string(),
            checksums_url: "https://example.com/checksums.txt".to_string(),
        }
    );
}

#[test]
fn a_check_passes_network_errors_on_and_picks_from_the_answer() {
    assert_eq!(
        check(Err(UpdateError::Network), "0.0.2", "cutix-windows-x64.zip"),
        Err(UpdateError::Network)
    );
    let full = payload("v0.0.3", &["checksums.txt", "cutix-windows-x64.zip"]);
    let found = check(Ok(Some(full)), "0.0.2", "cutix-windows-x64.zip").expect("answered");
    assert_eq!(found.map(|release| release.tag), Some("v0.0.3".to_string()));
}

#[test]
fn labels_carry_exactly_one_leading_v() {
    let release = |tag: &str| Release {
        tag: tag.to_string(),
        asset_name: String::new(),
        asset_url: String::new(),
        checksums_url: String::new(),
    };
    assert_eq!(release("0.0.3").label(), "v0.0.3");
    assert_eq!(release("V1.2").label(), "v1.2");
    assert_eq!(release("vv2").label(), "v2");
}

#[test]
fn every_update_error_has_a_message_key() {
    assert_eq!(UpdateError::Network.message_key(), "update.error.network");
    assert_eq!(UpdateError::Checksum.message_key(), "update.error.checksum");
    assert_eq!(UpdateError::Archive.message_key(), "update.error.archive");
    assert_eq!(UpdateError::Install.message_key(), "update.error.install");
}

#[test]
fn archive_entries_cannot_escape() {
    assert_eq!(
        entry_path("lang/en.json").unwrap(),
        Some(parts(&["lang", "en.json"]))
    );
    assert_eq!(entry_path("./cutix").unwrap(), Some(parts(&["cutix"])));
    assert_eq!(
        entry_path("lang\\de.json").unwrap(),
        Some(parts(&["lang", "de.json"]))
    );
    assert_eq!(entry_path("./").unwrap(), None);
    assert_eq!(entry_path("lang/").unwrap(), Some(parts(&["lang"])));
    for bad in [
        "../cutix",
        "lang/../../x",
        "/etc/passwd",
        "\\Windows\\x.dll",
        "C:/Windows/x.dll",
        "C:x.dll",
        "a/..",
    ] {
        assert!(entry_path(bad).is_err(), "{bad} should be refused");
    }
}

#[test]
fn a_nul_in_an_entry_name_is_refused() {
    assert_eq!(entry_path("lang/en\0.json"), Err(UpdateError::Archive));
    assert_eq!(entry_path(""), Ok(None));
}

#[test]
fn archives_are_told_apart_by_their_extension() {
    assert_eq!(archive_kind("cutix-windows-x64.zip"), Ok(ArchiveKind::Zip));
    assert_eq!(archive_kind("CUTIX.ZIP"), Ok(ArchiveKind::Zip));
    assert_eq!(archive_kind("cutix-linux-x64.tar.gz"), Ok(ArchiveKind::TarGz));
    assert_eq!(archive_kind("cutix.TGZ"), Ok(ArchiveKind::TarGz));
    assert_eq!(archive_kind("cutix.tar.xz"), Err(UpdateError::Archive));
    assert_eq!(archive_kind(""), Err(UpdateError::Archive));
}

#[test]
fn a_staged_set_must_match_what_the_archive_wrote() {
    let exe = parts(&["cutix"]);
    let lang = parts(&["lang", "en.json"]);
    // The same entry twice in an archive is still one staged file.
    let written = vec![lang.clone(), exe.clone(), exe.clone()];
    assert_eq!(
        check_staged(vec![exe.clone(), lang.clone()], &written, "cutix"),
        Ok(vec![exe.clone(), lang.clone()])
    );
    // A file that vanished from the staging directory.
    assert_eq!(
        check_staged(vec![exe.clone()], &written, "cutix"),
        Err(UpdateError::Install)
    );
    // A file the archive never wrote.
    assert_eq!(
        check_staged(
            vec![exe.clone(), lang.clone(), parts(&["stray"])],
            &written,
            "cutix"
        ),
        Err(UpdateError::Install)
    );
    // A listing out of order.
    assert_eq!(
        check_staged(vec![lang.clone(), exe.clone()], &written, "cutix"),
        Err(UpdateError::Install)
    );
    // A complete set without the executable.
    let no_exe = vec![lang.clone()];
    assert_eq!(
        check_staged(no_exe.clone(), &no_exe, "cutix"),
        Err(UpdateError::Archive)
    );
}

#[test]
fn a_download_is_checked_against_its_listed_sha256() {
    let abc = "ba7816bf8f01cfea414140de5dae2223b00361a396177a9cb410ff61f20015ad";
    assert_eq!(sha256_hex(b"abc"), abc);
    assert_eq!(verify_download(b"abc", abc), Ok(()));
    assert_eq!(verify_download(b"abd", abc), Err(UpdateError::Checksum));
    assert_eq!(
        verify_download(b"abc", &abc.to_uppercase()),
        Err(UpdateError::Checksum)
    );
    assert_eq!(hex(&[0x00, 0x0f, 0xa5, 0xff]), "000fa5ff");
    assert_eq!(hex(&[]), "");
}

#[test]
fn a_short_download_is_a_network_error() {
    assert_eq!(download_complete(Some(10), 10), Ok(()));
    assert_eq!(download_complete(Some(10), 9), Err(UpdateError::Network));
    assert_eq!(download_complete(None, 0), Ok(()));
}

#[test]
fn lock_files_hold_a_process_id() {
    assert_eq!(parse_pid(" 4242\n"), Some(4242));
    assert_eq!(parse_pid("+7"), Some(7));
    assert_eq!(parse_pid("4294967295"), Some(u32::MAX));
    assert_eq!(parse_pid("4294967296"), None);
    assert_eq!(parse_pid("-1"), None);
    assert_eq!(parse_pid(""), None);
    assert_eq!(parse_pid("12 34"), None);
}

#[test]
fn the_nix_store_is_recognised_with_either_slash() {
    assert!(in_nix_store("/nix/store/abc-cutix/bin/cutix"));
    assert!(in_nix_store("\\nix\\store\\abc"));
    assert!(!in_nix_store("/nix/store"));
    assert!(!in_nix_store("/opt/cutix/cutix"));
}

#[test]
fn only_an_eligible_copy_updates_itself() {
    assert!(may_self_update(false, false, false, true, false, true, true));
    assert!(!may_self_update(true, false, false, true, false, true, true));
    assert!(!may_self_update(false, true, false, true, false, true, true));
    assert!(may_self_update(false, true, true, true, false, true, true));
    assert!(!may_self_update(false, false, false, false, false, true, true));
    assert!(!may_self_update(false, false, false, true, true, true, true));
    assert!(!may_self_update(false, false, false, true, false, false, true));
    assert!(!may_self_update(false, false, false, true, false, true, false));
}

#[test]
fn pre_release_and_build_suffixes_are_ignored() {
    assert_eq!(parse_version("1.2.3-rc.1"), parse_version("1.2.3"));
    assert_eq!(parse_version("v1.2.3+linux-x64"), Some(vec![1, 2, 3]));
    assert_eq!(parse_version("V2"), Some(vec![2]));
    assert_eq!(parse_version(" 1.2 "), Some(vec![1, 2]));
    assert_eq!(parse_version("1.2 -beta"), None);
    assert_eq!(parse_version("18446744073709551616"), None);
    assert!(!is_newer("1.2.3-rc.1", "1.2.3"));
}

#[test]
fn newer_is_a_strict_order() {
    let tags = ["0.9", "v1.0.0", "1.0.1", "1.2", "v1.10", "2"];
    for (i, a) in tags.iter().enumerate() {
        assert!(!is_newer(a, a));
        for (j, b) in tags.iter().enumerate() {
            assert_eq!(is_newer(a, b), i > j, "{a} vs {b}");
            if is_newer(a, b) {
                assert!(!is_newer(b, a));
            }
        }
    }
    assert!(!is_newer("1.0.0.0", "1"));
    assert!(!is_newer("1", "1.0.0.0"));
}
