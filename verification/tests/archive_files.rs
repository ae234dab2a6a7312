use cutix_native::archive::{entry_mode, zip_step, ZipStep};
use cutix_native::leftovers::{
    aside_suffix, is_leftover_name, leftover_line, leftovers_text, merge_leftovers,
    parse_leftovers, with_suffix,
};
use cutix_native::tar::{
    meta_name, pax_path, read_block_step, tar_number, tar_step, tar_text, BlockStep, ReadEvent,
    TarStep,
};
use cutix_native::update::UpdateError;

fn parts(path: &[&str]) -> Vec<String> {
    path.iter().map(|part| part.to_string()).collect()
}

fn checksummed(mut header: [u8; 512]) -> [u8; 512] {
    header[148..156].copy_from_slice(b"        ");
    let sum: u32 = header.iter().map(|byte| u32::from(*byte)).sum();
    header[148..155].copy_from_slice(format!("{sum:06o}\0").as_bytes());
    header
}

fn tar_header(name: &str, kind: u8, size: usize) -> [u8; 512] {
    let mut header = [0u8; 512];
    header[..name.len()].copy_from_slice(name.as_bytes());
    header[100..107].copy_from_slice(b"0000644");
    header[124..135].copy_from_slice(format!("{size:011o}").as_bytes());
    header[156] = kind;
    header[257..263].copy_from_slice(b"ustar\0");
    checksummed(header)
}

#[test]
fn tar_numbers_are_octal_or_base_256() {
    assert_eq!(tar_number(b"0000644\0"), Ok(0o644));
    assert_eq!(tar_number(b"  17 \0"), Ok(15));
    assert_eq!(tar_number(b"\0\0\0\0"), Ok(0));
    assert_eq!(tar_number(b"    "), Ok(0));
    assert_eq!(tar_number(&[0x80, 0, 0, 1, 0]), Ok(256));
    assert_eq!(tar_number(&[0x81, 0, 0, 0, 0, 0, 0, 0, 0]), Err(UpdateError::Archive));
    assert_eq!(tar_number(b"0009"), Err(UpdateError::Archive));
    assert_eq!(tar_number(b"1 2"), Err(UpdateError::Archive));
}

#[test]
fn tar_text_stops_at_the_first_nul() {
    assert_eq!(tar_text(b"lang/en.json\0garbage"), "lang/en.json");
    assert_eq!(tar_text(b"cutix"), "cutix");
    assert_eq!(tar_text(&[0x66, 0xff, 0x6f]), "f\u{fffd}o");
}

#[test]
fn pax_records_name_the_next_entry() {
    assert_eq!(
        pax_path(b"20 ctime=1700000000\n24 path=lang/long.json\n"),
        Some("lang/long.json".to_string())
    );
    assert_eq!(pax_path(b"18 mtime=17000000\n"), None);
    assert_eq!(meta_name(true, b"././@LongLink\0pad"), Some("././@LongLink".to_string()));
    assert_eq!(meta_name(false, b"13 path=abc\n"), Some("abc".to_string()));
}

#[test]
fn headers_ask_for_what_their_kind_needs() {
    let file = tar_header("./lang/en.json", b'0', 7);
    assert_eq!(
        tar_step(&file, None),
        Ok(TarStep::File {
            path: Some(parts(&["lang", "en.json"])),
            size: 7,
            padding: 505,
            mode: Some(0o644),
        })
    );
    let dir = tar_header("./lang/", b'5', 0);
    assert_eq!(
        tar_step(&dir, None),
        Ok(TarStep::Dir { path: Some(parts(&["lang"])), skip: 0 })
    );
    let long = tar_header("././@LongLink", b'L', 600);
    assert_eq!(
        tar_step(&long, None),
        Ok(TarStep::Meta { long_link: true, size: 600, padding: 424 })
    );
    let link = tar_header("link", b'2', 0);
    assert_eq!(tar_step(&link, None), Ok(TarStep::Skip { skip: 0 }));
    assert_eq!(tar_step(&[0u8; 512], None), Ok(TarStep::End));
}

#[test]
fn a_pending_long_name_replaces_the_header_name() {
    let file = tar_header("ignored", b'0', 3);
    assert_eq!(
        tar_step(&file, Some("./LICENSE".to_string())),
        Ok(TarStep::File { path: Some(parts(&["LICENSE"])), size: 3, padding: 509, mode: Some(0o644) })
    );
    assert_eq!(
        tar_step(&file, Some("../escape".to_string())),
        Err(UpdateError::Archive)
    );
}

#[test]
fn only_a_posix_prefix_joins_the_entry_name() {
    let mut posix = tar_header("en.json", b'0', 0);
    posix[345..349].copy_from_slice(b"lang");
    let posix = checksummed(posix);
    assert_eq!(
        tar_step(&posix, None),
        Ok(TarStep::File { path: Some(parts(&["lang", "en.json"])), size: 0, padding: 0, mode: Some(0o644) })
    );
    let mut gnu = tar_header("cutix", b'0', 0);
    gnu[257..265].copy_from_slice(b"ustar  \0");
    gnu[345..357].copy_from_slice(b"14721234567\0");
    let gnu = checksummed(gnu);
    assert_eq!(
        tar_step(&gnu, None),
        Ok(TarStep::File { path: Some(parts(&["cutix"])), size: 0, padding: 0, mode: Some(0o644) })
    );
}

#[test]
fn damaged_headers_are_refused() {
    let mut bad_sum = tar_header("cutix", b'0', 1);
    bad_sum[0] = b'k';
    assert_eq!(tar_step(&bad_sum, None), Err(UpdateError::Archive));
    let huge_meta = tar_header("x", b'x', 2 * 1024 * 1024);
    assert_eq!(tar_step(&huge_meta, None), Err(UpdateError::Archive));
    let escape = tar_header("../escape", b'0', 1);
    assert_eq!(tar_step(&escape, None), Err(UpdateError::Archive));
    let absolute = tar_header("/etc/passwd", b'5', 0);
    assert_eq!(tar_step(&absolute, None), Err(UpdateError::Archive));
}

#[test]
fn blocks_are_read_whole() {
    assert_eq!(read_block_step(0, ReadEvent::Read(0)), BlockStep::Eof);
    assert_eq!(read_block_step(10, ReadEvent::Read(0)), BlockStep::Fail);
    assert_eq!(read_block_step(0, ReadEvent::Read(512)), BlockStep::Full);
    assert_eq!(read_block_step(500, ReadEvent::Read(12)), BlockStep::Full);
    assert_eq!(read_block_step(100, ReadEvent::Read(12)), BlockStep::Continue(112));
    assert_eq!(read_block_step(100, ReadEvent::Interrupted), BlockStep::Continue(100));
    assert_eq!(read_block_step(100, ReadEvent::Failed), BlockStep::Fail);
}

#[test]
fn moved_aside_files_get_numbered_suffixes() {
    assert_eq!(aside_suffix(0), ".old");
    assert_eq!(aside_suffix(1), ".old1");
    assert_eq!(aside_suffix(15), ".old15");
    assert_eq!(
        with_suffix(&parts(&["lang", "en.json"]), ".old2"),
        parts(&["lang", "en.json.old2"])
    );
    assert_eq!(with_suffix(&Vec::new(), ".old"), parts(&[".old"]));
}

#[test]
fn only_old_names_are_leftovers() {
    assert!(is_leftover_name(&parts(&["cutix.exe.old"])));
    assert!(is_leftover_name(&parts(&["lang", "en.json.old12"])));
    assert!(!is_leftover_name(&parts(&[".old"])));
    assert!(!is_leftover_name(&parts(&["LICENSE"])));
    assert!(!is_leftover_name(&parts(&["a.old.txt"])));
    assert!(!is_leftover_name(&Vec::new()));
}

#[test]
fn leftovers_round_trip_and_only_old_paths_are_kept() {
    let listed = vec![parts(&["cutix.exe.old"]), parts(&["lang", "en.json.old2"])];
    let text = leftovers_text(&listed);
    assert_eq!(text, "cutix.exe.old\nlang/en.json.old2\n");
    assert_eq!(parse_leftovers(&text), listed);
    assert_eq!(leftover_line(&parts(&["lang", "en.json.old2"])), "lang/en.json.old2");

    assert_eq!(
        parse_leftovers("cutix.exe.old\n../outside.old\nLICENSE\n/abs.old\nlang/x.json.old\n"),
        vec![parts(&["cutix.exe.old"]), parts(&["lang", "x.json.old"])]
    );
    assert_eq!(parse_leftovers("  cutix.old  \r\n"), vec![parts(&["cutix.old"])]);
    assert!(parse_leftovers("").is_empty());
}

#[test]
fn an_install_records_each_aside_once() {
    let known = vec![parts(&["cutix.exe.old"])];
    let asides = vec![
        parts(&["cutix.exe.old"]),
        parts(&["lang", "en.json.old"]),
        parts(&["lang", "en.json.old"]),
    ];
    assert_eq!(
        merge_leftovers(known, &asides),
        vec![parts(&["cutix.exe.old"]), parts(&["lang", "en.json.old"])]
    );
    assert!(merge_leftovers(Vec::new(), &Vec::new()).is_empty());
}

#[test]
fn unpacked_files_keep_their_permission_bits() {
    assert_eq!(entry_mode(Some(0o100644), false), 0o644);
    assert_eq!(entry_mode(Some(0o100600), true), 0o755);
    assert_eq!(entry_mode(Some(0o100700), true), 0o755);
    assert_eq!(entry_mode(Some(0o4000), false), 0o644);
    assert_eq!(entry_mode(None, false), 0o644);
    assert_eq!(entry_mode(None, true), 0o755);
    assert_eq!(entry_mode(Some(0o777), false), 0o777);
}

#[test]
fn what_an_install_moves_aside_is_found_as_a_leftover() {
    for name in ["cutix", "cutix.exe", "a.old", "x.old7"] {
        for index in [0u64, 1, 9, 15] {
            let moved = with_suffix(&parts(&["lang", name]), &aside_suffix(index));
            assert!(is_leftover_name(&moved), "{moved:?}");
            let text = leftovers_text(&vec![moved.clone()]);
            assert_eq!(parse_leftovers(&text), vec![moved]);
        }
    }
}

#[test]
fn zip_entries_become_directories_files_or_nothing() {
    assert!(matches!(zip_step("cutix/bin/", true, false), Ok(ZipStep::Dir(p)) if p == parts(&["cutix", "bin"])));
    assert!(matches!(zip_step("cutix/bin/cutix", false, false), Ok(ZipStep::File(p)) if p == parts(&["cutix", "bin", "cutix"])));
    assert!(matches!(zip_step("cutix/link", false, true), Ok(ZipStep::Skip)));
    assert!(matches!(zip_step("./", true, false), Ok(ZipStep::Skip)));
    assert!(matches!(zip_step("../evil", false, false), Err(UpdateError::Archive)));
    assert!(matches!(zip_step("/etc/passwd", false, true), Err(UpdateError::Archive)));
}
