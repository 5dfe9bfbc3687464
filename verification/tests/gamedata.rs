//! The original games' data: what an installer holds, and where it goes.

use turnstile::disk::{place, Act, Build, Disk, Folder, Node, OnError, Plan};
use turnstile::download::{Fraction, Status};
use turnstile::error::CoreError;
use turnstile::gamedata::{
    broken, identify, installed_at, no_parent, not_assembled, unreadable, write_file, DataInstall,
    InstallerFile, OriginalGame, Unpacking,
};

fn file(path: &str, parts: &[usize]) -> InstallerFile {
    numbered(0, path, parts)
}

fn numbered(number: usize, path: &str, parts: &[usize]) -> InstallerFile {
    InstallerFile { root: Some("app".into()), path: path.into(), parts: parts.to_vec(), number }
}

#[test]
fn every_game_has_a_directory_and_a_marker_of_its_own() {
    let mut directories: Vec<_> = OriginalGame::ALL.iter().map(|g| g.directory()).collect();
    directories.sort_unstable();
    directories.dedup();
    assert_eq!(directories.len(), OriginalGame::ALL.len());
}

#[test]
fn the_two_games_that_share_a_marker_name_are_told_apart_by_something_else() {
    let rct2 = OriginalGame::RollerCoasterTycoon2;
    let loco = OriginalGame::Locomotion;
    assert!(rct2.marker().eq_ignore_ascii_case(loco.marker()));
    assert!(!rct2.executable().eq_ignore_ascii_case(loco.executable()));
}

#[test]
fn a_directory_without_the_marker_is_not_an_install() {
    assert_eq!(
        installed_at(OriginalGame::RollerCoasterTycoon2, "/games/rct2"),
        "/games/rct2/Data/g1.dat"
    );
    assert_eq!(
        installed_at(OriginalGame::RollerCoasterTycoon1, "/games/rct1"),
        "/games/rct1/Data/csg1.dat"
    );
}

#[test]
fn a_file_is_written_under_the_destination() {
    assert_eq!(
        write_file("/games/rct2", "Data/g1.dat").unwrap(),
        "/games/rct2/Data/g1.dat"
    );
}

#[test]
fn a_path_that_climbs_out_of_the_destination_is_refused() {
    let error = write_file("/games/rct2", "../escaped.txt").unwrap_err();
    assert!(error.message().contains("outside"), "{}", error.message());
    assert!(write_file("/games/rct2", "Data/../../escaped.txt").is_err());
    assert!(write_file("/games/rct2", "..").is_err());
}

#[test]
fn a_leading_separator_does_not_make_the_path_absolute() {
    assert_eq!(
        write_file("/games/rct2", "/etc/passwd").unwrap(),
        "/games/rct2/etc/passwd"
    );
}

#[test]
fn a_path_that_names_nothing_is_refused() {
    assert!(write_file("/games/rct2", "/").is_err());
    assert_eq!(
        write_file("/games/rct2", "./.").unwrap_err().message(),
        "could not extract the downloaded archive: the installer names a file with no name: ./."
    );
    assert!(write_file("/games/rct2", "").is_err());
}

#[test]
fn an_installer_is_known_by_its_executable() {
    assert_eq!(
        identify(&vec![file("readme.txt", &[0]), file("rct2.exe", &[1])]),
        Some(OriginalGame::RollerCoasterTycoon2)
    );
    assert_eq!(identify(&vec![file("RCT.EXE", &[0])]), Some(OriginalGame::RollerCoasterTycoon1));
    assert_eq!(identify(&vec![file("Loco.exe", &[0])]), Some(OriginalGame::Locomotion));
    assert_eq!(identify(&vec![file("Data/LOCO.EXE", &[0])]), None);
    assert_eq!(identify(&vec![]), None);
    // What goes elsewhere than into the game directory does not count.
    let elsewhere = InstallerFile {
        root: Some("tmp".into()),
        path: "RCT2.EXE".into(),
        parts: vec![0],
        number: 0,
    };
    assert_eq!(identify(&vec![elsewhere]), None);
}

#[test]
fn files_are_put_together_out_of_their_parts() {
    // Two stored locations, the second of which is part of both files.
    let files = vec![numbered(3, "a", &[0, 1]), numbered(7, "b", &[1])];
    let mut unpacking = Unpacking::begin(files, vec![10, 20]).unwrap();
    assert_eq!(unpacking.wanted(), [10, 20]);

    let ready = unpacking.received(20, &b"tail".to_vec());
    assert_eq!(ready.len(), 1);
    assert_eq!((ready[0].path.as_str(), ready[0].parts.clone()), ("b", vec![b"tail".to_vec()]));
    assert_eq!(ready[0].number, 7);
    assert!(unpacking.has_room());
    let progress = unpacking.wrote();
    assert_eq!(progress.status, Status::Extracting);
    assert_eq!(progress.value, Some(Fraction { done: 1, total: 2 }));
    assert_eq!(
        unpacking.finish().unwrap_err().message(),
        "could not extract the downloaded archive: only 1 of 2 files could be read out of the installer"
    );

    let ready = unpacking.received(10, &b"head".to_vec());
    assert_eq!(ready.len(), 1);
    assert_eq!(ready[0].path, "a");
    assert_eq!(ready[0].number, 3);
    assert_eq!(ready[0].parts, [b"head".to_vec(), b"tail".to_vec()]);
    unpacking.wrote();
    unpacking.finish().unwrap();
}

#[test]
fn every_file_is_written_once_in_whatever_order_it_is_read() {
    for order in [[10, 20, 30], [30, 10, 20], [20, 30, 10]] {
        let files = vec![
            numbered(0, "a", &[0, 1]),
            numbered(1, "b", &[1]),
            numbered(2, "c", &[2, 1, 2]),
        ];
        let mut unpacking = Unpacking::begin(files, vec![10, 20, 30]).unwrap();
        let mut written = Vec::new();
        for location in order {
            let data = location.to_string().into_bytes();
            for ready in unpacking.received(location, &data) {
                unpacking.wrote();
                let parts: Vec<String> =
                    ready.parts.iter().map(|p| String::from_utf8(p.clone()).unwrap()).collect();
                written.push((ready.number, parts.join(" ")));
            }
        }
        unpacking.finish().unwrap();
        written.sort();
        let whole: Vec<_> = written.iter().map(|(n, parts)| (*n, parts.as_str())).collect();
        assert_eq!(whole, [(0, "10 20"), (1, "20"), (2, "30 20 30")]);
    }
}

#[test]
fn an_installer_without_game_files_is_refused() {
    let elsewhere = InstallerFile {
        root: Some("tmp".into()),
        path: "setup.bmp".into(),
        parts: vec![],
        number: 0,
    };
    match Unpacking::begin(vec![elsewhere], vec![]) {
        Err(CoreError::ExtractionFailed(m)) => {
            assert_eq!(m, "the installer holds no game files")
        }
        other => panic!("got {other:?}"),
    }
}

fn games() -> Disk {
    let mut disk = Disk::new("/games/versions", false);
    let old = Build { version: None, launches: false, bytes: 1 };
    disk.put(place(Folder::Game, "rct2"), Node::Dir { build: old, modified: None });
    let new = Build { version: None, launches: false, bytes: 2 };
    disk.put(place(Folder::Game, ".staging-rct2"), Node::Dir { build: new, modified: None });
    disk
}

fn size(disk: &Disk, name: &str) -> Option<u64> {
    match disk.node(&place(Folder::Game, name)) {
        Some(Node::Dir { build, .. }) => Some(build.bytes),
        _ => None,
    }
}

#[test]
fn new_data_takes_the_place_of_the_old() {
    let work = DataInstall { game: OriginalGame::RollerCoasterTycoon2, name: "rct2".into() };
    let mut plan = Plan::new(games());
    assert!(work.set_aside(&mut plan));
    work.put_in_place(&mut plan);
    work.commit(&mut plan);
    assert!(!plan.failed());
    assert_eq!(size(plan.disk(), "rct2"), Some(2));
    assert_eq!(plan.disk().entries().len(), 1);
}

#[test]
fn data_that_cannot_be_put_in_place_gives_way_to_the_old() {
    let work = DataInstall { game: OriginalGame::RollerCoasterTycoon2, name: "rct2".into() };
    let mut plan = Plan::new(games());
    let had_previous = work.set_aside(&mut plan);
    assert_eq!(size(plan.disk(), "rct2"), None);
    work.roll_back(&mut plan, had_previous);
    assert_eq!(size(plan.disk(), "rct2"), Some(1));
    assert_eq!(plan.disk().entries().len(), 1);
}

#[test]
fn leftovers_are_cleared_before_anything_is_unpacked() {
    let work = DataInstall { game: OriginalGame::RollerCoasterTycoon2, name: "rct2".into() };
    let mut plan = Plan::new(games());
    work.prepare(&mut plan);
    assert_eq!(plan.taken_steps()[0].act, Act::MakeFolder(Folder::Game));
    assert_eq!(plan.taken_steps()[0].on_error, OnError::Fail);
    assert_eq!(size(plan.disk(), ".staging-rct2"), None);
    assert_eq!(size(plan.disk(), "rct2"), Some(1));

    let mut plan = Plan::new(games());
    work.abandon(&mut plan);
    assert_eq!(size(plan.disk(), ".staging-rct2"), None);
    assert_eq!(size(plan.disk(), "rct2"), Some(1));
}

#[test]
fn failures_name_what_failed() {
    let work = DataInstall { game: OriginalGame::Locomotion, name: "locomotion".into() };
    work.check(true).unwrap();
    assert_eq!(
        work.check(false).unwrap_err().message(),
        "could not extract the downloaded archive: the installer did not contain Data/g1.DAT"
    );
    assert_eq!(
        unreadable("/tmp/a.exe", "bad magic").message(),
        "could not extract the downloaded archive: /tmp/a.exe is not an installer this can read: bad magic"
    );
    assert_eq!(
        broken("bad checksum").message(),
        "could not extract the downloaded archive: could not read the installer: bad checksum"
    );
    assert_eq!(
        no_parent("/").message(),
        "could not extract the downloaded archive: / has no parent directory"
    );
    assert_eq!(
        not_assembled("Data/g1.dat", "short").message(),
        "could not extract the downloaded archive: Data/g1.dat: short"
    );
}
