//! What holds of a whole run of unpacking, whatever order an installer is read in.

use vstd::prelude::*;

use crate::gamedata;
use crate::disk;
use crate::disk::{ActView, OnError, PlanView};
use crate::error::CoreErrorView;
use crate::gamedata::{FileView, OriginalGame, ReadyView, Slots, UnpackingView};
use crate::path;
use crate::recovery_laws;
use crate::text;
use crate::text_lemmas;

verus! {

broadcast use vstd::string::group_string_axioms;

/// Whether nothing has been read yet.
pub open spec fn begun(u: UnpackingView) -> bool {
    &&& u.is_proper()
    &&& u.written == 0
    &&& forall|i: int|
        0 <= i < u.files.len() ==> #[trigger] u.pending[i] == gamedata::empty_slots(
            u.files[i].parts.len(),
        )
}

/// The bytes at `location` taken in, and every file that they complete written.
pub open spec fn taken_in(u: UnpackingView, location: u32, data: Seq<u8>) -> UnpackingView {
    UnpackingView {
        written: u.written + u.completed(location, data, u.files.len() as int).len(),
        ..u.received(location, data)
    }
}

/// A run: what is stored at each location is taken in, one after the other.
pub open spec fn run(u: UnpackingView, read: Seq<u32>, stored: Map<u32, Seq<u8>>) -> UnpackingView
    decreases read.len(),
{
    if read.len() == 0 {
        u
    } else {
        taken_in(run(u, read.drop_last(), stored), read.last(), stored[read.last()])
    }
}

/// The files that are written in a run, in the order they are.
pub open spec fn written_in(
    u: UnpackingView,
    read: Seq<u32>,
    stored: Map<u32, Seq<u8>>,
) -> Seq<ReadyView>
    decreases read.len(),
{
    if read.len() == 0 {
        seq![]
    } else {
        written_in(u, read.drop_last(), stored) + run(u, read.drop_last(), stored).completed(
            read.last(),
            stored[read.last()],
            u.files.len() as int,
        )
    }
}

/// Whether a file has parts, and every one of them is stored at a location that is read.
pub open spec fn is_whole(file: FileView, locations: Seq<u32>, read: Seq<u32>) -> bool {
    &&& file.parts.len() > 0
    &&& forall|p: int|
        0 <= p < file.parts.len() ==> (gamedata::stored_at(locations, #[trigger] file.parts[p])
            matches Some(l) && read.contains(l))
}

/// A file with what is stored for each of its parts.
pub open spec fn assembled(
    file: FileView,
    locations: Seq<u32>,
    stored: Map<u32, Seq<u8>>,
) -> ReadyView {
    ReadyView {
        number: file.number,
        path: file.path,
        parts: Seq::new(
            file.parts.len(),
            |p: int| stored[gamedata::stored_at(locations, file.parts[p])->0],
        ),
    }
}

/// Whether a written file is the one with a number.
pub open spec fn has_number(number: usize) -> spec_fn(ReadyView) -> bool {
    |r: ReadyView| r.number == number
}

/// Whether no two files have one number.
pub open spec fn numbered_apart(files: Seq<FileView>) -> bool {
    forall|i: int, j: int|
        0 <= i < j < files.len() ==> (#[trigger] files[i]).number != (#[trigger] files[j]).number
}

/// The parts of a file that have been read, once the locations in `read` have been.
spec fn slots_after(
    file: FileView,
    locations: Seq<u32>,
    read: Seq<u32>,
    stored: Map<u32, Seq<u8>>,
) -> Slots {
    if is_whole(file, locations, read) {
        gamedata::empty_slots(file.parts.len())
    } else {
        Seq::new(
            file.parts.len(),
            |p: int|
                match gamedata::stored_at(locations, file.parts[p]) {
                    Some(l) => if read.contains(l) {
                        Some(stored[l])
                    } else {
                        None
                    },
                    None => None,
                },
        )
    }
}

/// What reading one more location does to the parts of a file.
proof fn one_more(
    file: FileView,
    locations: Seq<u32>,
    read: Seq<u32>,
    stored: Map<u32, Seq<u8>>,
    location: u32,
)
    requires
        !read.contains(location),
    ensures
        ({
            let now = read.push(location);
            gamedata::filled(
                file,
                slots_after(file, locations, read, stored),
                locations,
                location,
                stored[location],
                file.parts.len() as int,
            ) == (
                slots_after(file, locations, now, stored),
                if is_whole(file, locations, now) && !is_whole(file, locations, read) {
                    seq![assembled(file, locations, stored)]
                } else {
                    seq![]
                },
            )
        }),
{
    let now = read.push(location);
    let n = file.parts.len() as int;
    let data = stored[location];
    let slots = slots_after(file, locations, read, stored);
    assert forall|l: u32| #[trigger] now.contains(l) <==> (read.contains(l) || l == location) by {
        if read.contains(l) {
            let i = read.index_of(l);
            assert(now[i] == l);
        }
        if l == location {
            assert(now[read.len() as int] == l);
        }
        if now.contains(l) && l != location {
            let i = now.index_of(l);
            assert(read[i] == l);
        }
    }
    if exists|p: int|
        0 <= p < n && gamedata::stored_at(locations, #[trigger] file.parts[p]) == Some(location) {
        let some = choose|p: int|
            0 <= p < n && gamedata::stored_at(locations, #[trigger] file.parts[p]) == Some(
                location,
            );
        assert(!is_whole(file, locations, read)) by {
            assert(gamedata::stored_at(locations, file.parts[some]) == Some(location));
        }
        gamedata::every_part_gets_its_bytes(file, slots, locations, location, data);
        let filled = gamedata::with_part(file, slots, locations, location, data, n);
        assert forall|p: int| 0 <= p < n implies (#[trigger] filled[p]) == (
        match gamedata::stored_at(locations, file.parts[p]) {
            Some(l) => if now.contains(l) {
                Some(stored[l])
            } else {
                None
            },
            None => None,
        }) by {}
        if gamedata::all_read(filled) {
            assert forall|p: int| 0 <= p < n implies (gamedata::stored_at(
                locations,
                #[trigger] file.parts[p],
            ) matches Some(l) && now.contains(l)) by {
                assert(filled[p] is Some);
            }
            assert(gamedata::parts_of(filled) =~= assembled(file, locations, stored).parts);
        } else {
            let p = choose|p: int| 0 <= p < filled.len() && (#[trigger] filled[p]) is None;
            assert(gamedata::stored_at(locations, file.parts[p]) is Some ==> !now.contains(
                gamedata::stored_at(locations, file.parts[p])->0,
            ));
            assert(!is_whole(file, locations, now));
            assert(filled =~= slots_after(file, locations, now, stored));
        }
    } else {
        gamedata::filling_after(file, slots, locations, location, data, 0, n);
        assert(is_whole(file, locations, now) == is_whole(file, locations, read)) by {
            if is_whole(file, locations, now) {
                assert forall|p: int| 0 <= p < n implies (gamedata::stored_at(
                    locations,
                    #[trigger] file.parts[p],
                ) matches Some(l) && read.contains(l)) by {
                    assert(gamedata::stored_at(locations, file.parts[p]) != Some(location));
                }
            }
        }
        assert(slots =~= slots_after(file, locations, now, stored));
    }
}

/// Where every file stands in a run.
proof fn standing(u: UnpackingView, read: Seq<u32>, stored: Map<u32, Seq<u8>>)
    requires
        begun(u),
        read.no_duplicates(),
    ensures
        run(u, read, stored).files == u.files,
        run(u, read, stored).locations == u.locations,
        run(u, read, stored).written == written_in(u, read, stored).len(),
        run(u, read, stored).pending.len() == u.files.len(),
        forall|i: int|
            0 <= i < u.files.len() ==> #[trigger] run(u, read, stored).pending[i] == slots_after(
                u.files[i],
                u.locations,
                read,
                stored,
            ),
    decreases read.len(),
{
    if read.len() == 0 {
        assert forall|i: int| 0 <= i < u.files.len() implies #[trigger] u.pending[i]
            == slots_after(u.files[i], u.locations, read, stored) by {
            assert(slots_after(u.files[i], u.locations, read, stored) =~= gamedata::empty_slots(
                u.files[i].parts.len(),
            ));
        }
    } else {
        let init = read.drop_last();
        let location = read.last();
        assert(init.push(location) =~= read);
        if init.contains(location) {
            let i = init.index_of(location);
            assert(read[i] == read[read.len() - 1]);
        }
        standing(u, init, stored);
        let before = run(u, init, stored);
        assert forall|i: int| 0 <= i < u.files.len() implies #[trigger] run(
            u,
            read,
            stored,
        ).pending[i] == slots_after(u.files[i], u.locations, read, stored) by {
            assert(before.pending[i] == slots_after(u.files[i], u.locations, init, stored));
            one_more(u.files[i], u.locations, init, stored, location);
        }
    }
}

/// What a location completes of the file with a number: what it completes of the one
/// that has it.
proof fn completed_with_number(
    u: UnpackingView,
    location: u32,
    data: Seq<u8>,
    n: int,
    i: int,
)
    requires
        numbered_apart(u.files),
        0 <= n <= u.files.len(),
        0 <= i < u.files.len(),
    ensures
        u.completed(location, data, n).filter(has_number(u.files[i].number)) == if i < n {
            gamedata::filled(
                u.files[i],
                u.pending[i],
                u.locations,
                location,
                data,
                u.files[i].parts.len() as int,
            ).1
        } else {
            seq![]
        },
    decreases n,
{
    let f = has_number(u.files[i].number);
    if n > 0 {
        completed_with_number(u, location, data, n - 1, i);
        let file = u.files[n - 1];
        let last = gamedata::filled(
            file,
            u.pending[n - 1],
            u.locations,
            location,
            data,
            file.parts.len() as int,
        ).1;
        let first = u.completed(location, data, n - 1);
        Seq::filter_distributes_over_add(first, last, f);
        filled_have_the_number(
            file,
            u.pending[n - 1],
            u.locations,
            location,
            data,
            file.parts.len() as int,
            u.files[i].number,
        );
        if i == n - 1 {
            assert(first.filter(f) + last.filter(f) =~= last);
        } else {
            assert(file.number != u.files[i].number);
            assert(first.filter(f) + last.filter(f) =~= first.filter(f));
        }
    } else {
        reveal(Seq::filter);
    }
}

proof fn filled_have_the_number(
    file: FileView,
    slots: Slots,
    locations: Seq<u32>,
    location: u32,
    data: Seq<u8>,
    n: int,
    number: usize,
)
    ensures
        ({
            let ready = gamedata::filled(file, slots, locations, location, data, n).1;
            ready.filter(has_number(number)) == if file.number == number {
                ready
            } else {
                seq![]
            }
        }),
    decreases n,
{
    reveal(Seq::filter);
    if n > 0 {
        filled_have_the_number(file, slots, locations, location, data, n - 1, number);
        let before = gamedata::filled(file, slots, locations, location, data, n - 1).1;
        let ready = gamedata::filled(file, slots, locations, location, data, n).1;
        if ready != before {
            assert(ready.drop_last() =~= before);
        }
    }
}

/// However an installer is read, as long as no location is read twice, every file that
/// all of its parts are read of is written exactly once, each part with the bytes that
/// are stored for it; and a file that a part is missing of is not written at all.
pub proof fn every_file_is_written_once(
    u: UnpackingView,
    read: Seq<u32>,
    stored: Map<u32, Seq<u8>>,
    i: int,
)
    requires
        begun(u),
        read.no_duplicates(),
        numbered_apart(u.files),
        0 <= i < u.files.len(),
    ensures
        written_in(u, read, stored).filter(has_number(u.files[i].number)) == if is_whole(
            u.files[i],
            u.locations,
            read,
        ) {
            seq![assembled(u.files[i], u.locations, stored)]
        } else {
            seq![]
        },
    decreases read.len(),
{
    let f = has_number(u.files[i].number);
    let file = u.files[i];
    if read.len() == 0 {
        reveal(Seq::filter);
        if file.parts.len() > 0 {
            let l = gamedata::stored_at(u.locations, file.parts[0]);
            assert(!(l is Some && read.contains(l->0)));
        }
        assert(!is_whole(file, u.locations, read));
    } else {
        let init = read.drop_last();
        let location = read.last();
        assert(init.push(location) =~= read);
        if init.contains(location) {
            let k = init.index_of(location);
            assert(read[k] == read[read.len() - 1]);
        }
        every_file_is_written_once(u, init, stored, i);
        standing(u, init, stored);
        let before = run(u, init, stored);
        let n = u.files.len() as int;
        let more = before.completed(location, stored[location], n);
        completed_with_number(before, location, stored[location], n, i);
        assert(before.pending[i] == slots_after(file, u.locations, init, stored));
        one_more(file, u.locations, init, stored, location);
        let sofar = written_in(u, init, stored);
        Seq::filter_distributes_over_add(sofar, more, f);
        if is_whole(file, u.locations, init) {
            assert forall|p: int| 0 <= p < file.parts.len() implies (gamedata::stored_at(
                u.locations,
                #[trigger] file.parts[p],
            ) matches Some(l) && read.contains(l)) by {
                let l = gamedata::stored_at(u.locations, file.parts[p])->0;
                let k = init.index_of(l);
                assert(read[k] == l);
            }
            assert(is_whole(file, u.locations, read));
        }
        assert(sofar.filter(f) + more.filter(f) =~= if is_whole(file, u.locations, read) {
            seq![assembled(file, u.locations, stored)]
        } else {
            seq![]
        });
    }
}

/// Where every part of every file is stored and read, as many files are written as there
/// are, and so the run ends well.
pub proof fn a_full_read_writes_everything(
    u: UnpackingView,
    read: Seq<u32>,
    stored: Map<u32, Seq<u8>>,
)
    requires
        begun(u),
        read.no_duplicates(),
        numbered_apart(u.files),
        forall|i: int|
            0 <= i < u.files.len() ==> is_whole(#[trigger] u.files[i], u.locations, read),
    ensures
        run(u, read, stored).written == u.files.len(),
{
    let all = written_in(u, read, stored);
    standing(u, read, stored);
    written_are_files(u, read, stored);
    tally_is_length(all, u.files);
    let n = u.files.len() as int;
    all_tallied(u, read, stored, n);
}

/// How many of the written files have the number of one of the first `n` files.
spec fn tally(s: Seq<ReadyView>, files: Seq<FileView>, n: int) -> nat
    decreases n,
{
    if n <= 0 {
        0
    } else {
        tally(s, files, n - 1) + s.filter(has_number(files[n - 1].number)).len()
    }
}

/// Whether something has the number of one of the first `n` files.
spec fn is_one_of(files: Seq<FileView>, n: int, number: usize) -> bool {
    exists|j: int| 0 <= j < n && (#[trigger] files[j]).number == number
}

proof fn all_tallied(u: UnpackingView, read: Seq<u32>, stored: Map<u32, Seq<u8>>, n: int)
    requires
        begun(u),
        read.no_duplicates(),
        numbered_apart(u.files),
        0 <= n <= u.files.len(),
        forall|i: int|
            0 <= i < u.files.len() ==> is_whole(#[trigger] u.files[i], u.locations, read),
    ensures
        tally(written_in(u, read, stored), u.files, n) == n,
    decreases n,
{
    if n > 0 {
        all_tallied(u, read, stored, n - 1);
        every_file_is_written_once(u, read, stored, n - 1);
        assert(is_whole(u.files[n - 1], u.locations, read));
    }
}

proof fn one_more_tallied(s: Seq<ReadyView>, x: ReadyView, files: Seq<FileView>, n: int)
    requires
        numbered_apart(files),
        0 <= n <= files.len(),
    ensures
        tally(s.push(x), files, n) == tally(s, files, n) + if is_one_of(files, n, x.number) {
            1nat
        } else {
            0nat
        },
    decreases n,
{
    if n > 0 {
        one_more_tallied(s, x, files, n - 1);
        reveal(Seq::filter);
        assert(s.push(x).drop_last() =~= s);
        if files[n - 1].number == x.number {
            assert(is_one_of(files, n, x.number));
            if is_one_of(files, n - 1, x.number) {
                let j = choose|j: int| 0 <= j < n - 1 && (#[trigger] files[j]).number == x.number;
                assert(files[j].number != files[n - 1].number);
            }
        } else if is_one_of(files, n, x.number) {
            let j = choose|j: int| 0 <= j < n && (#[trigger] files[j]).number == x.number;
            assert(0 <= j < n - 1);
        }
    }
}

proof fn nothing_tallied(files: Seq<FileView>, n: int)
    ensures
        tally(seq![], files, n) == 0,
    decreases n,
{
    if n > 0 {
        nothing_tallied(files, n - 1);
        reveal(Seq::filter);
    }
}

proof fn tally_is_length(s: Seq<ReadyView>, files: Seq<FileView>)
    requires
        numbered_apart(files),
        forall|k: int|
            0 <= k < s.len() ==> is_one_of(files, files.len() as int, (#[trigger] s[k]).number),
    ensures
        tally(s, files, files.len() as int) == s.len(),
    decreases s.len(),
{
    let n = files.len() as int;
    if s.len() == 0 {
        assert(s =~= seq![]);
        nothing_tallied(files, n);
    } else {
        let init = s.drop_last();
        assert forall|k: int| 0 <= k < init.len() implies is_one_of(
            files,
            n,
            (#[trigger] init[k]).number,
        ) by {
            assert(is_one_of(files, n, s[k].number));
        }
        tally_is_length(init, files);
        one_more_tallied(init, s.last(), files, n);
        assert(init.push(s.last()) =~= s);
        assert(is_one_of(files, n, s[s.len() - 1].number));
    }
}

/// What is written is one of the files.
proof fn written_are_files(u: UnpackingView, read: Seq<u32>, stored: Map<u32, Seq<u8>>)
    requires
        begun(u),
        read.no_duplicates(),
    ensures
        forall|k: int|
            0 <= k < written_in(u, read, stored).len() ==> is_one_of(
                u.files,
                u.files.len() as int,
                (#[trigger] written_in(u, read, stored)[k]).number,
            ),
    decreases read.len(),
{
    if read.len() > 0 {
        let init = read.drop_last();
        written_are_files(u, init, stored);
        standing(u, init, stored);
        let before = run(u, init, stored);
        let n = u.files.len() as int;
        let sofar = written_in(u, init, stored);
        let more = before.completed(read.last(), stored[read.last()], n);
        completed_are_files(before, read.last(), stored[read.last()], n);
        assert forall|k: int| 0 <= k < (sofar + more).len() implies is_one_of(
            u.files,
            n,
            (#[trigger] (sofar + more)[k]).number,
        ) by {
            if k < sofar.len() {
                assert(is_one_of(u.files, n, sofar[k].number));
            } else {
                assert(is_one_of(u.files, n, more[k - sofar.len()].number));
            }
        }
    }
}

proof fn completed_are_files(u: UnpackingView, location: u32, data: Seq<u8>, n: int)
    requires
        0 <= n <= u.files.len(),
    ensures
        forall|k: int|
            0 <= k < u.completed(location, data, n).len() ==> is_one_of(
                u.files,
                n,
                (#[trigger] u.completed(location, data, n)[k]).number,
            ),
    decreases n,
{
    if n > 0 {
        completed_are_files(u, location, data, n - 1);
        let file = u.files[n - 1];
        let first = u.completed(location, data, n - 1);
        let m = file.parts.len() as int;
        let last = gamedata::filled(file, u.pending[n - 1], u.locations, location, data, m).1;
        filled_are_the_file(file, u.pending[n - 1], u.locations, location, data, m);
        assert forall|k: int| 0 <= k < (first + last).len() implies is_one_of(
            u.files,
            n,
            (#[trigger] (first + last)[k]).number,
        ) by {
            if k < first.len() {
                assert(is_one_of(u.files, n - 1, first[k].number));
                let j = choose|j: int|
                    0 <= j < n - 1 && (#[trigger] u.files[j]).number == first[k].number;
                assert(u.files[j].number == (first + last)[k].number);
            } else {
                assert(last[k - first.len()].number == u.files[n - 1].number);
            }
        }
    }
}

proof fn filled_are_the_file(
    file: FileView,
    slots: Slots,
    locations: Seq<u32>,
    location: u32,
    data: Seq<u8>,
    n: int,
)
    ensures
        ({
            let ready = gamedata::filled(file, slots, locations, location, data, n).1;
            forall|k: int| 0 <= k < ready.len() ==> (#[trigger] ready[k]).number == file.number
        }),
    decreases n,
{
    if n > 0 {
        filled_are_the_file(file, slots, locations, location, data, n - 1);
        let before = gamedata::filled(file, slots, locations, location, data, n - 1).1;
        let ready = gamedata::filled(file, slots, locations, location, data, n).1;
        assert forall|k: int| 0 <= k < ready.len() implies (#[trigger] ready[k]).number
            == file.number by {
            if k < before.len() {
                assert(ready[k] == before[k]);
            }
        }
    }
}

// ---------------------------------------------------------------------------
// Which files, and whose
// ---------------------------------------------------------------------------

/// Whether a file carries no directory constant, or the one for the game directory.
pub open spec fn goes_to_the_game() -> spec_fn(FileView) -> bool {
    |f: FileView| f.root is None || f.root == Some("app"@)
}

/// The files that are kept are those without a directory constant and those with the one
/// for the game directory: all of them, no others, and in the order they had.
pub proof fn files_without_a_constant_are_kept(files: Seq<FileView>)
    ensures
        gamedata::belonging(files) == files.filter(goes_to_the_game()),
    decreases files.len(),
{
    reveal(Seq::filter);
    if files.len() > 0 {
        files_without_a_constant_are_kept(files.drop_last());
    }
}

/// One file alone is kept where it has no constant, or the one for the game directory.
pub proof fn one_file_is_kept_by_its_constant(file: FileView)
    ensures
        file.root is None || file.root == Some("app"@) ==> gamedata::belonging(seq![file]) == seq![
            file,
        ],
        !(file.root is None || file.root == Some("app"@)) ==> gamedata::belonging(
            seq![file],
        ).len() == 0,
{
    assert(seq![file].drop_last() =~= seq![]);
    assert(gamedata::belonging(seq![file].drop_last()) =~= seq![]);
    assert(Seq::<FileView>::empty().push(file) =~= seq![file]);
}

/// Whether one of the files for the game directory is called `exe`, in whatever case.
pub open spec fn has_program(files: Seq<FileView>, exe: Seq<char>) -> bool {
    exists|i: int|
        0 <= i < files.len() && ((#[trigger] files[i]).root is None || files[i].root == Some(
            "app"@,
        )) && text::lowercased(files[i].path) == exe
}

/// An installer is told by the program in it. One without any of the three is none that
/// is known.
pub proof fn installers_are_told_by_their_program(files: Seq<FileView>)
    ensures
        has_program(files, "rct.exe"@) ==> gamedata::identified(files) == Some(
            OriginalGame::RollerCoasterTycoon1,
        ),
        has_program(files, "rct2.exe"@) && !has_program(files, "rct.exe"@)
            ==> gamedata::identified(files) == Some(OriginalGame::RollerCoasterTycoon2),
        has_program(files, "loco.exe"@) && !has_program(files, "rct.exe"@) && !has_program(
            files,
            "rct2.exe"@,
        ) ==> gamedata::identified(files) == Some(OriginalGame::Locomotion),
        !has_program(files, "rct.exe"@) && !has_program(files, "rct2.exe"@) && !has_program(
            files,
            "loco.exe"@,
        ) ==> gamedata::identified(files) is None,
{
    reveal_strlit("RCT.EXE");
    reveal_strlit("RCT2.EXE");
    reveal_strlit("LOCO.EXE");
    reveal_strlit("rct.exe");
    reveal_strlit("rct2.exe");
    reveal_strlit("loco.exe");
    assert(text::lowercased("RCT.EXE"@) =~= "rct.exe"@);
    assert(text::lowercased("RCT2.EXE"@) =~= "rct2.exe"@);
    assert(text::lowercased("LOCO.EXE"@) =~= "loco.exe"@);
    same_program(files, OriginalGame::RollerCoasterTycoon1, "rct.exe"@);
    same_program(files, OriginalGame::RollerCoasterTycoon2, "rct2.exe"@);
    same_program(files, OriginalGame::Locomotion, "loco.exe"@);
}

proof fn same_program(files: Seq<FileView>, game: OriginalGame, exe: Seq<char>)
    requires
        text::lowercased(game.exe_name()) == exe,
    ensures
        gamedata::holds(files, game) == has_program(files, exe),
{
    if has_program(files, exe) {
        let i = choose|i: int|
            0 <= i < files.len() && ((#[trigger] files[i]).root is None || files[i].root == Some(
                "app"@,
            )) && text::lowercased(files[i].path) == exe;
        assert(gamedata::belongs(files[i]));
    }
    if gamedata::holds(files, game) {
        let i = choose|i: int|
            0 <= i < files.len() && gamedata::belongs(#[trigger] files[i]) && text::lowercased(
                files[i].path,
            ) == text::lowercased(game.exe_name());
        assert(files[i].root is None || files[i].root == Some("app"@));
    }
}

// ---------------------------------------------------------------------------
// Where a file goes
// ---------------------------------------------------------------------------

/// A file goes where its path says, name by name below the destination: one name directly
/// in it, and what stands after a slash below the name before it.
pub proof fn files_go_where_their_path_says(
    destination: Seq<char>,
    name: Seq<char>,
    rest: Seq<char>,
)
    requires
        path::is_plain(name),
    ensures
        gamedata::target_of(destination, name) == Ok::<Seq<char>, CoreErrorView>(
            path::under(destination, name),
        ),
        gamedata::target_of(path::under(destination, name), rest) matches Ok(target)
            ==> gamedata::target_of(destination, name + seq!['/'] + rest) == Ok::<
            Seq<char>,
            CoreErrorView,
        >(target),
{
    let joined = name + seq!['/'] + rest;
    text_lemmas::before_first_is_first(name, '/');
    assert(name.take(name.len() as int) =~= name);
    assert(gamedata::steps_of(name) =~= seq![name]);
    assert(seq![name].drop_last() =~= seq![]);
    assert(gamedata::descend(destination, seq![name].drop_last()) == destination);
    if gamedata::leads_up(name) {
        let k = gamedata::steps_of(name).index_of(seq!['.', '.']);
        assert(gamedata::steps_of(name)[k] == seq!['.', '.']);
    }
    text_lemmas::before_first_after(name, '/', rest);
    assert(joined.take(name.len() as int) =~= name);
    assert(joined.skip(name.len() as int + 1) =~= rest);
    let after = gamedata::steps_of(rest);
    let all = gamedata::steps_of(joined);
    assert(all == seq![name] + after);
    if gamedata::target_of(path::under(destination, name), rest) is Ok {
        if all.contains(seq!['.', '.']) {
            let k = all.index_of(seq!['.', '.']);
            if k > 0 {
                assert(after[k - 1] == seq!['.', '.']);
            }
        }
        descend_from_below(destination, name, after);
    }
}

proof fn descend_from_below(base: Seq<char>, name: Seq<char>, names: Seq<Seq<char>>)
    ensures
        gamedata::descend(base, seq![name] + names) == gamedata::descend(
            path::under(base, name),
            names,
        ),
    decreases names.len(),
{
    let all = seq![name] + names;
    if names.len() == 0 {
        assert(all =~= seq![name]);
        assert(seq![name].drop_last() =~= seq![]);
        assert(gamedata::descend(base, seq![name].drop_last()) == base);
    } else {
        descend_from_below(base, name, names.drop_last());
        assert(all.drop_last() =~= seq![name] + names.drop_last());
        assert(all.last() == names.last());
    }
}

/// Slashes in front, doubled ones, and single dots make no difference to where a file
/// goes; a name that leads up is refused wherever it stands, and so is no name at all.
pub proof fn odd_paths_are_seen_through(destination: Seq<char>, rest: Seq<char>)
    ensures
        gamedata::target_of(destination, rest) is Ok ==> gamedata::target_of(
            destination,
            seq!['/'] + rest,
        ) == gamedata::target_of(destination, rest),
        gamedata::target_of(destination, rest) is Ok ==> gamedata::target_of(
            destination,
            seq!['.', '/'] + rest,
        ) == gamedata::target_of(destination, rest),
        gamedata::target_of(destination, seq!['.', '.', '/'] + rest) is Err,
        gamedata::target_of(destination, seq!['.', '.']) is Err,
        gamedata::target_of(destination, seq![]) is Err,
        gamedata::target_of(destination, seq!['/']) is Err,
{
    let a = seq!['/'] + rest;
    let none: Seq<char> = seq![];
    assert(a =~= none + seq!['/'] + rest);
    text_lemmas::before_first_after(none, '/', rest);
    assert(a.take(0) =~= seq![]);
    assert(a.skip(1) =~= rest);
    let dot = seq!['.'];
    let b = seq!['.', '/'] + rest;
    assert(b =~= dot + seq!['/'] + rest);
    text_lemmas::before_first_after(dot, '/', rest);
    assert(b.take(1) =~= dot);
    assert(b.skip(2) =~= rest);
    let dots = seq!['.', '.'];
    let c = seq!['.', '.', '/'] + rest;
    assert(c =~= dots + seq!['/'] + rest);
    text_lemmas::before_first_after(dots, '/', rest);
    assert(c.take(2) =~= dots);
    assert(gamedata::steps_of(c)[0] == dots);
    assert(gamedata::steps_of(c).contains(dots));
    text_lemmas::before_first_is_first(dots, '/');
    assert(!dots.contains('/'));
    assert(dots.take(2) =~= dots);
    assert(gamedata::steps_of(dots)[0] == dots);
    assert(gamedata::steps_of(dots).contains(dots));
    assert(gamedata::steps_of(none) =~= seq![]);
    let slash = seq!['/'];
    assert(slash =~= none + seq!['/'] + none);
    text_lemmas::before_first_after(none, '/', none);
    assert(slash.take(0) =~= seq![]);
    assert(slash.skip(1) =~= none);
    assert(gamedata::steps_of(slash) =~= seq![]);
}

/// Each original game's data has directories of its own, also while it is put in place.
pub proof fn data_directories_are_apart(a: OriginalGame, b: OriginalGame)
    requires
        a != b,
    ensures
        a.dir_name() != b.dir_name(),
        gamedata::data_staging(a) != gamedata::data_staging(b),
        gamedata::data_previous(a) != gamedata::data_previous(b),
        gamedata::data_staging(a) != gamedata::data_previous(b),
        gamedata::data_staging(a) != gamedata::data_previous(a),
{
    reveal_strlit("rct1");
    reveal_strlit("rct2");
    reveal_strlit("locomotion");
    reveal_strlit(".staging-");
    reveal_strlit(".previous-");
    assert("rct1"@[3] == '1' && "rct2"@[3] == '2' && "locomotion"@[3] == 'o');
    assert(gamedata::data_staging(a).name[12] == a.dir_name()[3]);
    assert(gamedata::data_staging(b).name[12] == b.dir_name()[3]);
    assert(gamedata::data_previous(a).name[13] == a.dir_name()[3]);
    assert(gamedata::data_previous(b).name[13] == b.dir_name()[3]);
    assert(gamedata::data_staging(a).name[1] == 's');
    assert(gamedata::data_previous(a).name[1] == 'p' && gamedata::data_previous(b).name[1] == 'p');
}

/// An install of game data that succeeds puts what was unpacked in place, and leaves
/// neither the older copy nor its working directories behind.
pub proof fn new_data_takes_the_place(plan: PlanView, game: OriginalGame, name: Seq<char>)
    requires
        plan.ready(),
        name.len() > 0,
        name[0] != '.',
        plan.disk.is_dir(gamedata::data_staging(game)),
        plan.disk.is_dir(gamedata::data_place(name)) || !plan.disk.taken(gamedata::data_place(name)),
        !plan.disk.taken(gamedata::data_previous(game)) || plan.disk.is_dir(
            gamedata::data_previous(game),
        ) || plan.disk.is_link(gamedata::data_previous(game)),
    ensures
        ({
            let placed = plan.setting_data_aside(game, name).placing_data(game, name);
            let after = placed.step(
                ActView::RemoveTree(gamedata::data_previous(game)),
                OnError::Ignore,
            );
            &&& after.ready()
            &&& after.disk.node(gamedata::data_place(name)) == plan.disk.node(
                gamedata::data_staging(game),
            )
            &&& !after.disk.taken(gamedata::data_staging(game))
            &&& !after.disk.taken(gamedata::data_previous(game))
        }),
{
    reveal_strlit(".staging-");
    reveal_strlit(".previous-");
    let to = gamedata::data_place(name);
    let old_copy = gamedata::data_previous(game);
    let new_copy = gamedata::data_staging(game);
    assert(old_copy.name[0] == '.' && new_copy.name[0] == '.');
    assert(old_copy.name[1] == 'p' && new_copy.name[1] == 's');
    let clear = ActView::RemoveTree(old_copy);
    let a = plan.step(clear, OnError::Ignore);
    recovery_laws::steps_spare_the_rest(plan, clear, OnError::Ignore, to);
    recovery_laws::steps_spare_the_rest(plan, clear, OnError::Ignore, new_copy);
    disk::node_after_without(plan.disk, old_copy, to);
    let b = plan.setting_data_aside(game, name);
    if a.disk.leads_somewhere(to) {
        recovery_laws::moved(a, to, old_copy, OnError::Fail);
        recovery_laws::steps_spare_the_rest(
            a,
            ActView::Rename { from: to, to: old_copy },
            OnError::Fail,
            new_copy,
        );
    }
    recovery_laws::moved(b, new_copy, to, OnError::Fail);
    let c = b.placing_data(game, name);
    recovery_laws::steps_spare_the_rest(
        b,
        ActView::Rename { from: new_copy, to },
        OnError::Fail,
        old_copy,
    );
    recovery_laws::steps_spare_the_rest(c, clear, OnError::Ignore, to);
    recovery_laws::steps_spare_the_rest(c, clear, OnError::Ignore, new_copy);
    disk::node_after_without(c.disk, old_copy, to);
}

/// A part's bytes are where the installer's table says that its entry is.
pub proof fn parts_are_where_the_table_says(locations: Seq<u32>, entry: usize)
    ensures
        entry < locations.len() ==> gamedata::stored_at(locations, entry) == Some(
            locations[entry as int],
        ),
        entry >= locations.len() ==> gamedata::stored_at(locations, entry) is None,
{
}

/// Unpacking begins with nothing where it unpacks, and leaves the data that is in place
/// alone.
pub proof fn data_is_unpacked_into_an_empty_place(
    plan: PlanView,
    game: OriginalGame,
    name: Seq<char>,
)
    requires
        plan.ready(),
        name.len() > 0,
        name[0] != '.',
        plan.disk.is_dir(gamedata::data_staging(game)) || !plan.disk.taken(
            gamedata::data_staging(game),
        ),
    ensures
        plan.preparing_data(game).ready(),
        !plan.preparing_data(game).disk.taken(gamedata::data_staging(game)),
        plan.preparing_data(game).disk.node(gamedata::data_place(name)) == plan.disk.node(
            gamedata::data_place(name),
        ),
{
    reveal_strlit(".staging-");
    let at = gamedata::data_staging(game);
    let to = gamedata::data_place(name);
    assert(at.name[0] == '.');
    let make = ActView::MakeFolder(crate::disk::Folder::Game);
    let tree = ActView::RemoveTree(at);
    let p = plan.step(make, OnError::Fail);
    disk::steps_do_what_they_say(plan, make, OnError::Fail, to);
    disk::steps_do_what_they_say(plan, make, OnError::Fail, at);
    disk::steps_stay_proper(plan, make, OnError::Fail);
    disk::steps_stay_proper(p, tree, OnError::Ignore);
    if p.disk.allows(tree) {
        disk::steps_do_what_they_say(p, tree, OnError::Ignore, to);
    }
}

/// An install of game data that fails leaves nothing of what it unpacked, and puts the
/// older copy back.
pub proof fn failed_data_leaves_nothing(
    plan: PlanView,
    game: OriginalGame,
    name: Seq<char>,
    had_previous: bool,
)
    requires
        plan.ready(),
        name.len() > 0,
        name[0] != '.',
        plan.disk.is_dir(gamedata::data_staging(game)) || !plan.disk.taken(
            gamedata::data_staging(game),
        ),
        had_previous ==> plan.disk.is_dir(gamedata::data_previous(game)) && !plan.disk.taken(
            gamedata::data_place(name),
        ),
    ensures
        ({
            let after = plan.restoring_data(game, name, had_previous);
            &&& after.ready()
            &&& !after.disk.taken(gamedata::data_staging(game))
            &&& had_previous ==> after.disk.node(gamedata::data_place(name)) == plan.disk.node(
                gamedata::data_previous(game),
            )
            &&& !had_previous ==> after.disk.node(gamedata::data_place(name)) == plan.disk.node(
                gamedata::data_place(name),
            )
        }),
{
    reveal_strlit(".staging-");
    reveal_strlit(".previous-");
    let at = gamedata::data_staging(game);
    let to = gamedata::data_place(name);
    let from = gamedata::data_previous(game);
    assert(at.name[0] == '.' && from.name[0] == '.');
    assert(at.name[1] == 's' && from.name[1] == 'p');
    let back = ActView::Rename { from, to };
    let tree = ActView::RemoveTree(at);
    let p = if had_previous {
        plan.step(back, OnError::Ignore)
    } else {
        plan
    };
    if had_previous {
        disk::steps_do_what_they_say(plan, back, OnError::Ignore, at);
        disk::steps_stay_proper(plan, back, OnError::Ignore);
    }
    disk::steps_stay_proper(p, tree, OnError::Ignore);
    if p.disk.allows(tree) {
        disk::steps_do_what_they_say(p, tree, OnError::Ignore, to);
    }
}

} // verus!
