//! What an archive is unpacked with, and what becomes of its contents.

use turnstile::error::CoreError;
use turnstile::extract::{
    archive_kind, extract, flatten_single_directory, flattening, run, url_path, ArchiveKind, Ran,
    Unpacked,
};

#[test]
fn a_zip_is_extracted_with_ditto() {
    let (kind, command) =
        extract("/d/archive.zip", "/downloads/OpenRCT2-macos.zip", "/d/out").unwrap();
    assert_eq!(kind, ArchiveKind::Zip);
    assert_eq!(command.program, "/usr/bin/ditto");
    assert_eq!(command.args, ["-x", "-k", "/d/archive.zip", "/d/out"]);
}

#[test]
fn a_tar_gz_with_a_single_top_level_directory_is_flattened() {
    let (kind, command) =
        extract("/d/archive.tar.gz", "/downloads/OpenRCT2-linux.tar.gz", "/d/out").unwrap();
    assert_eq!(kind, ArchiveKind::Tarball);
    assert_eq!(command.program, "tar");
    assert_eq!(command.args, ["-C", "/d/out", "-xf", "/d/archive.tar.gz"]);

    let entries = vec![Unpacked { name: "OpenRCT2-1.0".into(), is_dir: true }];
    let wrapper = flatten_single_directory(&entries).unwrap();
    assert_eq!(wrapper, "OpenRCT2-1.0");
    let flat = flattening("/d/out", wrapper, &vec!["openrct2".to_string()]);
    assert_eq!(flat.moves.len(), 1);
    assert_eq!(flat.moves[0].from, "/d/out/OpenRCT2-1.0/openrct2");
    assert_eq!(flat.moves[0].to, "/d/out/openrct2");
    assert_eq!(flat.emptied, "/d/out/OpenRCT2-1.0");
}

#[test]
fn an_unknown_extension_is_rejected() {
    let err = extract("/d/archive.rar", "/downloads/thing.rar", "/d/out").unwrap_err();
    assert!(matches!(err, CoreError::UnknownArchiveFormat));
    assert_eq!(err.message(), "unrecognised archive format");
}

#[test]
fn a_corrupt_zip_reports_extraction_failure_rather_than_succeeding() {
    let ended = Ran::Ended {
        success: false,
        status: "exit status: 1".into(),
        stderr: " this is not a zip file at all\n".into(),
    };
    let err = run("/usr/bin/ditto", ended).unwrap_err();
    assert!(matches!(err, CoreError::ExtractionFailed(_)));
    assert_eq!(
        err.message(),
        "could not extract the downloaded archive: /usr/bin/ditto exited with exit status: 1: this is not a zip file at all"
    );
    let missing = Ran::NotStarted("no such file".into());
    assert_eq!(
        run("tar", missing).unwrap_err().message(),
        "could not extract the downloaded archive: could not run tar: no such file"
    );
    let fine = Ran::Ended { success: true, status: "exit status: 0".into(), stderr: "?".into() };
    run("tar", fine).unwrap();
}

#[test]
fn the_extension_comes_from_the_url_not_the_temp_filename() {
    let (kind, command) =
        extract("/d/tmp-no-extension", "/downloads/OpenRCT2-macos.zip", "/d/out").unwrap();
    assert_eq!(kind, ArchiveKind::Zip);
    assert_eq!(command.args[2], "/d/tmp-no-extension");
}

#[test]
fn a_query_is_not_part_of_the_name() {
    assert_eq!(url_path("https://x/a.zip?token=a.rar"), "https://x/a.zip");
    assert_eq!(url_path("https://x/a.zip"), "https://x/a.zip");
    assert_eq!(url_path("?"), "");
    assert_eq!(archive_kind("A.ZIP"), Some(ArchiveKind::Zip));
    assert_eq!(archive_kind("a.TGZ"), Some(ArchiveKind::Tarball));
    assert_eq!(archive_kind("zip"), None);
}

#[test]
fn only_a_lone_directory_is_flattened() {
    let dir = |name: &str| Unpacked { name: name.into(), is_dir: true };
    let file = |name: &str| Unpacked { name: name.into(), is_dir: false };
    assert_eq!(flatten_single_directory(&vec![]), None);
    assert_eq!(flatten_single_directory(&vec![file("a")]), None);
    assert_eq!(flatten_single_directory(&vec![dir("a"), file("b")]), None);
    assert_eq!(flatten_single_directory(&vec![dir("a")]), Some(&"a".to_string()));
}

#[test]
fn a_directory_that_holds_its_own_name_makes_way_first() {
    let names = vec!["data".to_string(), "game".to_string(), "game~".to_string()];
    let flat = flattening("/d/out", "game", &names);
    let moves: Vec<_> = flat.moves.iter().map(|m| (m.from.as_str(), m.to.as_str())).collect();
    assert_eq!(
        moves,
        [
            ("/d/out/game", "/d/out/game~~"),
            ("/d/out/game~~/data", "/d/out/data"),
            ("/d/out/game~~/game", "/d/out/game"),
            ("/d/out/game~~/game~", "/d/out/game~"),
        ]
    );
    assert_eq!(flat.emptied, "/d/out/game~~");
}
