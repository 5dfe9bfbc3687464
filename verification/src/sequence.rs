//! In which order the parts of an install are done, and what a failure of one means.
//!
//! Each part is work on a disk or a network, done by the caller; what comes next is
//! decided here from how it went.

use vstd::prelude::*;

use crate::download::{Fraction, Progress, Status};
use crate::error::{CoreError, CoreErrorView};

verus! {

/// How a part went.
#[derive(Debug)]
pub enum Outcome {
    Done,
    /// Room was made; whether something had to be put aside for it.
    MadeWay { had_previous: bool },
    Failed(CoreError),
}

/// How a part went.
pub enum OutcomeView {
    Done,
    MadeWay { had_previous: bool },
    Failed(CoreErrorView),
}

impl View for Outcome {
    type V = OutcomeView;

    open spec fn view(&self) -> OutcomeView {
        match *self {
            Outcome::Done => OutcomeView::Done,
            Outcome::MadeWay { had_previous } => OutcomeView::MadeWay { had_previous },
            Outcome::Failed(e) => OutcomeView::Failed(e@),
        }
    }
}

/// The part of installing a build that is to be done next.
#[derive(Debug)]
pub enum InstallPhase {
    /// Put back what earlier installs left behind. Nothing hangs on it.
    Recover,
    /// Say where the build goes, and make room to unpack it.
    Begin,
    Download,
    Unpack,
    /// Write down which version it is.
    Stamp,
    /// Put aside what is where the build goes.
    MakeWay,
    /// Put the build there.
    Place { had_previous: bool },
    /// Let go of what was put aside.
    Commit { had_previous: bool },
    /// Put back what was put aside.
    RollBack { had_previous: bool, error: CoreError },
    /// Take the working files away.
    Tidy { outcome: Result<(), CoreError> },
    Finished { outcome: Result<(), CoreError> },
}

/// The part that is to be done next.
#[allow(inconsistent_fields)]
pub enum InstallPhaseView {
    Recover,
    Begin,
    Download,
    Unpack,
    Stamp,
    MakeWay,
    Place { had_previous: bool },
    Commit { had_previous: bool },
    RollBack { had_previous: bool, error: CoreErrorView },
    Tidy { outcome: Result<(), CoreErrorView> },
    Finished { outcome: Result<(), CoreErrorView> },
}

impl View for InstallPhase {
    type V = InstallPhaseView;

    open spec fn view(&self) -> InstallPhaseView {
        match *self {
            InstallPhase::Recover => InstallPhaseView::Recover,
            InstallPhase::Begin => InstallPhaseView::Begin,
            InstallPhase::Download => InstallPhaseView::Download,
            InstallPhase::Unpack => InstallPhaseView::Unpack,
            InstallPhase::Stamp => InstallPhaseView::Stamp,
            InstallPhase::MakeWay => InstallPhaseView::MakeWay,
            InstallPhase::Place { had_previous } => InstallPhaseView::Place { had_previous },
            InstallPhase::Commit { had_previous } => InstallPhaseView::Commit { had_previous },
            InstallPhase::RollBack { had_previous, error } => InstallPhaseView::RollBack {
                had_previous,
                error: error@,
            },
            InstallPhase::Tidy { outcome } => InstallPhaseView::Tidy {
                outcome: crate::error::core_outcome(outcome),
            },
            InstallPhase::Finished { outcome } => InstallPhaseView::Finished {
                outcome: crate::error::core_outcome(outcome),
            },
        }
    }
}

impl InstallPhaseView {
    /// What comes next.
    pub open spec fn next(self, how: OutcomeView) -> InstallPhaseView {
        match self {
            InstallPhaseView::Recover => InstallPhaseView::Begin,
            InstallPhaseView::Begin => match how {
                OutcomeView::Failed(e) => InstallPhaseView::Finished { outcome: Err(e) },
                _ => InstallPhaseView::Download,
            },
            InstallPhaseView::Download => match how {
                OutcomeView::Failed(e) => InstallPhaseView::Tidy { outcome: Err(e) },
                _ => InstallPhaseView::Unpack,
            },
            InstallPhaseView::Unpack => match how {
                OutcomeView::Failed(e) => InstallPhaseView::Tidy { outcome: Err(e) },
                _ => InstallPhaseView::Stamp,
            },
            InstallPhaseView::Stamp => match how {
                OutcomeView::Failed(e) => InstallPhaseView::Tidy { outcome: Err(e) },
                _ => InstallPhaseView::MakeWay,
            },
            InstallPhaseView::MakeWay => match how {
                OutcomeView::Failed(e) => InstallPhaseView::Tidy { outcome: Err(e) },
                OutcomeView::MadeWay { had_previous } => InstallPhaseView::Place { had_previous },
                OutcomeView::Done => InstallPhaseView::Place { had_previous: false },
            },
            InstallPhaseView::Place { had_previous } => match how {
                OutcomeView::Failed(error) => InstallPhaseView::RollBack { had_previous, error },
                _ => InstallPhaseView::Commit { had_previous },
            },
            InstallPhaseView::Commit { .. } => InstallPhaseView::Tidy { outcome: Ok(()) },
            InstallPhaseView::RollBack { error, .. } => InstallPhaseView::Tidy {
                outcome: Err(error),
            },
            InstallPhaseView::Tidy { outcome } => InstallPhaseView::Finished { outcome },
            InstallPhaseView::Finished { outcome } => InstallPhaseView::Finished { outcome },
        }
    }

    /// What is reported when this is where things have got to.
    pub open spec fn report(self, how: OutcomeView) -> Option<Progress> {
        match self.next(how) {
            InstallPhaseView::Unpack => Some(
                Progress { status: Status::Extracting, value: None },
            ),
            InstallPhaseView::Tidy { outcome: Ok(_) } => Some(
                Progress {
                    status: Status::Extracting,
                    value: Some(Fraction { done: 1, total: 1 }),
                },
            ),
            _ => None,
        }
    }

    /// How many parts there can still be.
    pub open spec fn left(self) -> nat {
        match self {
            InstallPhaseView::Recover => 9,
            InstallPhaseView::Begin => 8,
            InstallPhaseView::Download => 7,
            InstallPhaseView::Unpack => 6,
            InstallPhaseView::Stamp => 5,
            InstallPhaseView::MakeWay => 4,
            InstallPhaseView::Place { .. } => 3,
            InstallPhaseView::Commit { .. } => 2,
            InstallPhaseView::RollBack { .. } => 2,
            InstallPhaseView::Tidy { .. } => 1,
            InstallPhaseView::Finished { .. } => 0,
        }
    }

    /// Where things have got to after these outcomes.
    pub open spec fn after(self, how: Seq<OutcomeView>) -> InstallPhaseView
        decreases how.len(),
    {
        if how.len() == 0 {
            self
        } else {
            self.after(how.drop_last()).next(how.last())
        }
    }

    /// Whether the build may be where it goes, with what was there put aside.
    pub open spec fn is_placed(self) -> bool {
        self is Commit || self matches InstallPhaseView::Tidy { outcome: Ok(_) }
            || self matches InstallPhaseView::Finished { outcome: Ok(_) }
    }
}

impl InstallPhase {
    /// What comes next, and what to report about it.
    pub fn next(self, how: Outcome) -> (r: (InstallPhase, Option<Progress>))
        ensures
            r.0@ == self@.next(how@),
            r.1 == self@.report(how@),
    {
        match self {
            InstallPhase::Recover => (InstallPhase::Begin, None),
            InstallPhase::Begin => match how {
                Outcome::Failed(e) => (InstallPhase::Finished { outcome: Err(e) }, None),
                _ => (InstallPhase::Download, None),
            },
            InstallPhase::Download => match how {
                Outcome::Failed(e) => (InstallPhase::Tidy { outcome: Err(e) }, None),
                _ => (
                    InstallPhase::Unpack,
                    Some(Progress { status: Status::Extracting, value: None }),
                ),
            },
            InstallPhase::Unpack => match how {
                Outcome::Failed(e) => (InstallPhase::Tidy { outcome: Err(e) }, None),
                _ => (InstallPhase::Stamp, None),
            },
            InstallPhase::Stamp => match how {
                Outcome::Failed(e) => (InstallPhase::Tidy { outcome: Err(e) }, None),
                _ => (InstallPhase::MakeWay, None),
            },
            InstallPhase::MakeWay => match how {
                Outcome::Failed(e) => (InstallPhase::Tidy { outcome: Err(e) }, None),
                Outcome::MadeWay { had_previous } => (InstallPhase::Place { had_previous }, None),
                Outcome::Done => (InstallPhase::Place { had_previous: false }, None),
            },
            InstallPhase::Place { had_previous } => match how {
                Outcome::Failed(error) => (InstallPhase::RollBack { had_previous, error }, None),
                _ => (InstallPhase::Commit { had_previous }, None),
            },
            InstallPhase::Commit { .. } => (
                InstallPhase::Tidy { outcome: Ok(()) },
                Some(
                    Progress {
                        status: Status::Extracting,
                        value: Some(Fraction { done: 1, total: 1 }),
                    },
                ),
            ),
            InstallPhase::RollBack { error, .. } => (
                InstallPhase::Tidy { outcome: Err(error) },
                None,
            ),
            InstallPhase::Tidy { outcome } => (InstallPhase::Finished { outcome }, None),
            InstallPhase::Finished { outcome } => (InstallPhase::Finished { outcome }, None),
        }
    }
}

/// The part of installing a game's data that is to be done next.
#[derive(Debug)]
pub enum DataPhase {
    /// Make room to unpack the data.
    Prepare,
    Unpack,
    /// Look whether it is what the game needs.
    Check,
    /// Let go of what was unpacked.
    Abandon { error: CoreError },
    /// Put an older copy aside.
    SetAside,
    Place { had_previous: bool },
    /// Let go of the older copy.
    Commit,
    /// Put the older copy back.
    RollBack { had_previous: bool, error: CoreError },
    Finished { outcome: Result<(), CoreError> },
}

/// The part that is to be done next.
#[allow(inconsistent_fields)]
pub enum DataPhaseView {
    Prepare,
    Unpack,
    Check,
    Abandon { error: CoreErrorView },
    SetAside,
    Place { had_previous: bool },
    Commit,
    RollBack { had_previous: bool, error: CoreErrorView },
    Finished { outcome: Result<(), CoreErrorView> },
}

impl View for DataPhase {
    type V = DataPhaseView;

    open spec fn view(&self) -> DataPhaseView {
        match *self {
            DataPhase::Prepare => DataPhaseView::Prepare,
            DataPhase::Unpack => DataPhaseView::Unpack,
            DataPhase::Check => DataPhaseView::Check,
            DataPhase::Abandon { error } => DataPhaseView::Abandon { error: error@ },
            DataPhase::SetAside => DataPhaseView::SetAside,
            DataPhase::Place { had_previous } => DataPhaseView::Place { had_previous },
            DataPhase::Commit => DataPhaseView::Commit,
            DataPhase::RollBack { had_previous, error } => DataPhaseView::RollBack {
                had_previous,
                error: error@,
            },
            DataPhase::Finished { outcome } => DataPhaseView::Finished {
                outcome: crate::error::core_outcome(outcome),
            },
        }
    }
}

impl DataPhaseView {
    /// What comes next.
    pub open spec fn next(self, how: OutcomeView) -> DataPhaseView {
        match self {
            DataPhaseView::Prepare => match how {
                OutcomeView::Failed(e) => DataPhaseView::Finished { outcome: Err(e) },
                _ => DataPhaseView::Unpack,
            },
            DataPhaseView::Unpack => match how {
                OutcomeView::Failed(error) => DataPhaseView::Abandon { error },
                _ => DataPhaseView::Check,
            },
            DataPhaseView::Check => match how {
                OutcomeView::Failed(error) => DataPhaseView::Abandon { error },
                _ => DataPhaseView::SetAside,
            },
            DataPhaseView::Abandon { error } => DataPhaseView::Finished { outcome: Err(error) },
            DataPhaseView::SetAside => match how {
                OutcomeView::Failed(e) => DataPhaseView::Finished { outcome: Err(e) },
                OutcomeView::MadeWay { had_previous } => DataPhaseView::Place { had_previous },
                OutcomeView::Done => DataPhaseView::Place { had_previous: false },
            },
            DataPhaseView::Place { had_previous } => match how {
                OutcomeView::Failed(error) => DataPhaseView::RollBack { had_previous, error },
                _ => DataPhaseView::Commit,
            },
            DataPhaseView::Commit => DataPhaseView::Finished { outcome: Ok(()) },
            DataPhaseView::RollBack { error, .. } => DataPhaseView::Finished {
                outcome: Err(error),
            },
            DataPhaseView::Finished { outcome } => DataPhaseView::Finished { outcome },
        }
    }

    /// How many parts there can still be.
    pub open spec fn left(self) -> nat {
        match self {
            DataPhaseView::Prepare => 6,
            DataPhaseView::Unpack => 5,
            DataPhaseView::Check => 4,
            DataPhaseView::SetAside => 3,
            DataPhaseView::Place { .. } => 2,
            DataPhaseView::Abandon { .. } => 1,
            DataPhaseView::Commit => 1,
            DataPhaseView::RollBack { .. } => 1,
            DataPhaseView::Finished { .. } => 0,
        }
    }
}

impl DataPhase {
    /// What comes next.
    pub fn next(self, how: Outcome) -> (r: DataPhase)
        ensures
            r@ == self@.next(how@),
    {
        match self {
            DataPhase::Prepare => match how {
                Outcome::Failed(e) => DataPhase::Finished { outcome: Err(e) },
                _ => DataPhase::Unpack,
            },
            DataPhase::Unpack => match how {
                Outcome::Failed(error) => DataPhase::Abandon { error },
                _ => DataPhase::Check,
            },
            DataPhase::Check => match how {
                Outcome::Failed(error) => DataPhase::Abandon { error },
                _ => DataPhase::SetAside,
            },
            DataPhase::Abandon { error } => DataPhase::Finished { outcome: Err(error) },
            DataPhase::SetAside => match how {
                Outcome::Failed(e) => DataPhase::Finished { outcome: Err(e) },
                Outcome::MadeWay { had_previous } => DataPhase::Place { had_previous },
                Outcome::Done => DataPhase::Place { had_previous: false },
            },
            DataPhase::Place { had_previous } => match how {
                Outcome::Failed(error) => DataPhase::RollBack { had_previous, error },
                _ => DataPhase::Commit,
            },
            DataPhase::Commit => DataPhase::Finished { outcome: Ok(()) },
            DataPhase::RollBack { error, .. } => DataPhase::Finished { outcome: Err(error) },
            DataPhase::Finished { outcome } => DataPhase::Finished { outcome },
        }
    }
}

// ---------------------------------------------------------------------------
// What follows
// ---------------------------------------------------------------------------

/// An install ends, however its parts go.
pub proof fn installs_end(phase: InstallPhaseView, how: OutcomeView)
    ensures
        phase is Finished ==> phase.next(how) == phase,
        !(phase is Finished) ==> phase.next(how).left() < phase.left(),
        phase.left() == 0 <==> phase is Finished,
{
}

/// After so many outcomes, whatever they are, an install has ended.
pub proof fn no_install_takes_longer(how: Seq<OutcomeView>)
    ensures
        InstallPhaseView::Recover.after(how).left() + how.len() <= 9
            || InstallPhaseView::Recover.after(how) is Finished,
    decreases how.len(),
{
    if how.len() > 0 {
        no_install_takes_longer(how.drop_last());
        installs_end(InstallPhaseView::Recover.after(how.drop_last()), how.last());
    }
}

/// The working files of every install that was begun are taken away before it ends.
pub proof fn what_was_begun_is_tidied(phase: InstallPhaseView, how: OutcomeView)
    requires
        phase.next(how) is Finished,
    ensures
        phase is Tidy || phase is Finished || (phase is Begin && how is Failed),
{
}

/// Where a build could not be put in place, what was put aside for it is put back, and
/// the install fails with what went wrong then.
pub proof fn a_build_out_of_place_is_rolled_back(
    had_previous: bool,
    error: CoreErrorView,
    back: OutcomeView,
    tidied: OutcomeView,
)
    ensures
        ({
            let failed = InstallPhaseView::Place { had_previous }.next(
                OutcomeView::Failed(error),
            );
            &&& failed == (InstallPhaseView::RollBack { had_previous, error })
            &&& failed.next(back).next(tidied) == (InstallPhaseView::Finished {
                outcome: Err(error),
            })
        }),
{
}

/// An install that worked put its build in place, and one that put its build in place
/// worked, whatever becomes of the cleaning up.
pub proof fn installs_work_once_placed(phase: InstallPhaseView, how: OutcomeView)
    ensures
        phase.is_placed() ==> phase.next(how).is_placed(),
        !phase.is_placed() ==> (phase.next(how).is_placed() <==> phase is Place && !(
        how is Failed)),
{
}

/// Installing a game's data ends, however its parts go.
pub proof fn data_installs_end(phase: DataPhaseView, how: OutcomeView)
    ensures
        phase is Finished ==> phase.next(how) == phase,
        !(phase is Finished) ==> phase.next(how).left() < phase.left(),
        phase.left() == 0 <==> phase is Finished,
{
}

/// Data is put in place only once it was found to be what the game needs; data that was
/// not is let go of, and data that could not be put in place gives way to the older copy.
pub proof fn data_is_checked_before_it_is_placed(phase: DataPhaseView, how: OutcomeView)
    ensures
        phase.next(how) is Place ==> phase is SetAside,
        phase.next(how) is SetAside ==> phase is Check && !(how is Failed),
        (phase is Unpack || phase is Check) && how is Failed ==> phase.next(how) is Abandon,
        phase is Place && how is Failed ==> phase.next(how) is RollBack,
        phase.next(how) matches DataPhaseView::Finished { outcome: Ok(_) } ==> phase is Commit
            || phase is Finished,
{
}

/// An install in which everything works goes through its phases in order and ends well.
/// What was put aside to make way is remembered until it is let go of.
pub proof fn a_good_install_goes_through(way: OutcomeView)
    requires
        !(way is Failed),
    ensures
        ({
            let done = OutcomeView::Done;
            let had_previous = way matches OutcomeView::MadeWay { had_previous: true };
            let begun = InstallPhaseView::Recover.next(done);
            &&& begun == InstallPhaseView::Begin
            &&& begun.next(done) == InstallPhaseView::Download
            &&& InstallPhaseView::Download.next(done) == InstallPhaseView::Unpack
            &&& InstallPhaseView::Unpack.next(done) == InstallPhaseView::Stamp
            &&& InstallPhaseView::Stamp.next(done) == InstallPhaseView::MakeWay
            &&& InstallPhaseView::MakeWay.next(way) == (InstallPhaseView::Place { had_previous })
            &&& InstallPhaseView::Place { had_previous }.next(done) == (InstallPhaseView::Commit {
                had_previous,
            })
            &&& InstallPhaseView::Commit { had_previous }.next(done) == (InstallPhaseView::Tidy {
                outcome: Ok(()),
            })
            &&& InstallPhaseView::Tidy { outcome: Ok(()) }.next(done)
                == (InstallPhaseView::Finished { outcome: Ok(()) })
        }),
{
}

/// An install in which something fails before the build is in place tidies up and ends with
/// that error. Only what earlier installs left behind hinders no install, and where nothing
/// was begun there is nothing to tidy.
pub proof fn a_failed_install_says_why(e: CoreErrorView, how: OutcomeView)
    ensures
        ({
            let failed = OutcomeView::Failed(e);
            let tidy = InstallPhaseView::Tidy { outcome: Err(e) };
            &&& InstallPhaseView::Recover.next(failed) == InstallPhaseView::Begin
            &&& InstallPhaseView::Begin.next(failed) == (InstallPhaseView::Finished {
                outcome: Err(e),
            })
            &&& InstallPhaseView::Download.next(failed) == tidy
            &&& InstallPhaseView::Unpack.next(failed) == tidy
            &&& InstallPhaseView::Stamp.next(failed) == tidy
            &&& InstallPhaseView::MakeWay.next(failed) == tidy
            &&& tidy.next(how) == (InstallPhaseView::Finished { outcome: Err(e) })
        }),
{
}

/// An install reports that it unpacks once the download is there, and that all is done once
/// the build is in place; of the rest it reports nothing.
pub proof fn installs_report_twice(phase: InstallPhaseView, how: OutcomeView)
    ensures
        phase is Download && !(how is Failed) ==> phase.report(how) == Some(
            Progress { status: Status::Extracting, value: None },
        ),
        phase is Commit ==> phase.report(how) == Some(
            Progress {
                status: Status::Extracting,
                value: Some(Fraction { done: 1, total: 1 }),
            },
        ),
        !(phase is Download) && !(phase is Commit) ==> phase.report(how) is None,
        phase is Download && how is Failed ==> phase.report(how) is None,
{
}

/// An install of game data in which everything works goes through its phases in order and
/// ends well.
pub proof fn a_good_data_install_goes_through(way: OutcomeView)
    requires
        !(way is Failed),
    ensures
        ({
            let done = OutcomeView::Done;
            let had_previous = way matches OutcomeView::MadeWay { had_previous: true };
            &&& DataPhaseView::Prepare.next(done) == DataPhaseView::Unpack
            &&& DataPhaseView::Unpack.next(done) == DataPhaseView::Check
            &&& DataPhaseView::Check.next(done) == DataPhaseView::SetAside
            &&& DataPhaseView::SetAside.next(way) == (DataPhaseView::Place { had_previous })
            &&& DataPhaseView::Place { had_previous }.next(done) == DataPhaseView::Commit
            &&& DataPhaseView::Commit.next(done) == (DataPhaseView::Finished { outcome: Ok(()) })
        }),
{
}

/// An install of game data that fails ends with that error. What was unpacked is let go of
/// where it could not be finished or is not what the game needs, and the older copy is put
/// back where the new one could not be put in its place.
pub proof fn a_failed_data_install_says_why(e: CoreErrorView, had_previous: bool, how: OutcomeView)
    ensures
        ({
            let failed = OutcomeView::Failed(e);
            let over = DataPhaseView::Finished { outcome: Err(e) };
            let abandon = DataPhaseView::Abandon { error: e };
            let back = DataPhaseView::RollBack { had_previous, error: e };
            &&& DataPhaseView::Prepare.next(failed) == over
            &&& DataPhaseView::Unpack.next(failed) == abandon
            &&& DataPhaseView::Check.next(failed) == abandon
            &&& abandon.next(how) == over
            &&& DataPhaseView::SetAside.next(failed) == over
            &&& DataPhaseView::Place { had_previous }.next(failed) == back
            &&& back.next(how) == over
        }),
{
}

} // verus!
