//! Fetching a file: what is reported while it goes on, and how it ends.

use vstd::prelude::*;

use crate::error::{CoreError, CoreErrorView};
use crate::text;
use crate::text::{chars_of, parse_number};

verus! {

broadcast use vstd::string::group_string_axioms;

/// What a worker is doing.
#[derive(Debug, Clone, Copy, PartialEq, Eq, Structural)]
pub enum Status {
    Downloading,
    Extracting,
}

/// How much of something is done.
#[derive(Debug, Clone, Copy, PartialEq, Eq, Structural)]
pub struct Fraction {
    pub done: u64,
    pub total: u64,
}

/// A report from a worker. No value means that how much is left is not known, which is
/// shown as an indeterminate bar.
#[derive(Debug, Clone, Copy, PartialEq, Eq, Structural)]
pub struct Progress {
    pub status: Status,
    pub value: Option<Fraction>,
}

/// A report that none of it has been fetched.
pub open spec fn nothing_fetched() -> Progress {
    Progress { status: Status::Downloading, value: Some(Fraction { done: 0, total: 1 }) }
}

/// A report that all of it has been fetched.
pub open spec fn all_fetched() -> Progress {
    Progress { status: Status::Downloading, value: Some(Fraction { done: 1, total: 1 }) }
}

/// A report that nobody knows how much there is.
pub open spec fn length_unknown() -> Progress {
    Progress { status: Status::Downloading, value: None }
}

/// The length a server announced, where it announced one that can be read.
pub open spec fn announced(header: Option<&str>) -> Option<nat> {
    match header {
        Some(s) => text::number(s@),
        None => None,
    }
}

/// What happens while a file is fetched.
#[derive(Debug)]
pub enum Event {
    /// Somebody asked to stop, seen before more is read.
    Cancelled,
    /// More could not be read.
    ReadFailed(String),
    /// There was nothing more to read.
    ReadAll,
    /// What was read could not be written.
    WriteFailed(String),
    /// This many bytes were read and written.
    Wrote(u64),
    /// What was written could not be made sure of.
    SyncFailed(String),
    /// Everything is written.
    Synced,
}

/// What is to be done about it.
#[derive(Debug)]
pub enum Verdict {
    /// Report, if there is anything to report, and read on.
    Continue(Option<Progress>),
    /// Make sure of what was written.
    Sync,
    /// Report, and be done.
    Finished(Progress),
    /// Delete what was written, and fail.
    Failed(CoreError),
}

/// What is to be done.
pub enum VerdictView {
    Continue(Option<Progress>),
    Sync,
    Finished(Progress),
    Failed(CoreErrorView),
}

impl View for Verdict {
    type V = VerdictView;

    open spec fn view(&self) -> VerdictView {
        match *self {
            Verdict::Continue(report) => VerdictView::Continue(report),
            Verdict::Sync => VerdictView::Sync,
            Verdict::Finished(report) => VerdictView::Finished(report),
            Verdict::Failed(e) => VerdictView::Failed(e@),
        }
    }
}

/// A file being fetched.
#[derive(Debug)]
pub struct Transfer {
    /// How much there is, where the server said so.
    pub total: Option<u64>,
    /// How much has been fetched.
    pub downloaded: u64,
}

/// What is reported once `downloaded` bytes of `total` are there: never more than all of
/// them, and nothing where the total is not known or is none.
pub open spec fn report(total: Option<u64>, downloaded: u64) -> Option<Progress> {
    match total {
        Some(t) => if t > 0 {
            Some(
                Progress {
                    status: Status::Downloading,
                    value: Some(
                        Fraction {
                            done: if downloaded < t {
                                downloaded
                            } else {
                                t
                            },
                            total: t,
                        },
                    ),
                },
            )
        } else {
            None
        },
        None => None,
    }
}

/// What an event comes to, by how much there is and how much of it was there before it.
pub open spec fn verdict(total: Option<u64>, downloaded: u64, event: Event) -> VerdictView {
    match event {
        Event::Cancelled => VerdictView::Failed(CoreErrorView::Cancelled),
        Event::ReadFailed(m) => VerdictView::Failed(CoreErrorView::Http(m@)),
        Event::ReadAll => VerdictView::Sync,
        Event::WriteFailed(m) => VerdictView::Failed(CoreErrorView::Io(m@)),
        Event::Wrote(n) => VerdictView::Continue(report(total, (downloaded + n) as u64)),
        Event::SyncFailed(m) => VerdictView::Failed(CoreErrorView::Io(m@)),
        Event::Synced => VerdictView::Finished(all_fetched()),
    }
}

impl Transfer {
    /// The report that goes out before anything is asked of the server.
    pub fn opening() -> (p: Progress)
        ensures
            p == nothing_fetched(),
    {
        Progress { status: Status::Downloading, value: Some(Fraction { done: 0, total: 1 }) }
    }

    /// Begins, with the length the server announced, and says what to report.
    pub fn begin(header: Option<&str>) -> (r: (Transfer, Option<Progress>))
        ensures
            r.0.downloaded == 0,
            r.0.total is Some <==> announced(header) is Some,
            r.0.total matches Some(n) ==> announced(header) == Some(n as nat),
            r.1 == if announced(header) is None {
                Some(length_unknown())
            } else {
                None
            },
    {
        let total: Option<u64> = match header {
            Some(s) => parse_number(&chars_of(s)),
            None => None,
        };
        let first: Option<Progress> = if total.is_none() {
            Some(Progress { status: Status::Downloading, value: None })
        } else {
            None
        };
        (Transfer { total, downloaded: 0 }, first)
    }

    /// Takes in one thing that happened, and says what to do about it.
    pub fn stream(&mut self, event: Event) -> (v: Verdict)
        requires
            event matches Event::Wrote(n) ==> old(self).downloaded + n <= u64::MAX,
        ensures
            final(self).total == old(self).total,
            final(self).downloaded == old(self).downloaded + match event {
                Event::Wrote(n) => n as int,
                _ => 0,
            },
            v@ == verdict(old(self).total, old(self).downloaded, event),
    {
        match event {
            Event::Cancelled => Verdict::Failed(CoreError::Cancelled),
            Event::ReadFailed(m) => Verdict::Failed(CoreError::Http(m)),
            Event::ReadAll => Verdict::Sync,
            Event::WriteFailed(m) => Verdict::Failed(CoreError::Io(m)),
            Event::Wrote(n) => {
                self.downloaded = self.downloaded + n;
                match self.total {
                    Some(t) => {
                        if t > 0 {
                            let done: u64 = if self.downloaded < t {
                                self.downloaded
                            } else {
                                t
                            };
                            Verdict::Continue(
                                Some(
                                    Progress {
                                        status: Status::Downloading,
                                        value: Some(Fraction { done, total: t }),
                                    },
                                ),
                            )
                        } else {
                            Verdict::Continue(None)
                        }
                    },
                    None => Verdict::Continue(None),
                }
            },
            Event::SyncFailed(m) => Verdict::Failed(CoreError::Io(m)),
            Event::Synced => Verdict::Finished(
                Progress {
                    status: Status::Downloading,
                    value: Some(Fraction { done: 1, total: 1 }),
                },
            ),
        }
    }
}

/// What is reported never claims more than everything, and never goes back.
pub proof fn reports_only_go_up(total: Option<u64>, a: u64, b: u64)
    requires
        a <= b,
    ensures
        report(total, a) matches Some(p) ==> p.value->0.done <= p.value->0.total,
        report(total, a) is Some <==> report(total, b) is Some,
        report(total, a) matches Some(p) ==> p.value->0.done <= report(
            total,
            b,
        )->0.value->0.done,
{
}

/// A transfer of which the length is known reports how much of it is there, and never more
/// than all of it; one of which it is not known, or is nothing, reports nothing.
pub proof fn transfers_report_what_is_there(total: u64, downloaded: u64)
    ensures
        total > 0 && downloaded <= total ==> report(Some(total), downloaded) == Some(
            Progress {
                status: Status::Downloading,
                value: Some(Fraction { done: downloaded, total }),
            },
        ),
        total > 0 && downloaded > total ==> report(Some(total), downloaded) == Some(
            Progress {
                status: Status::Downloading,
                value: Some(Fraction { done: total, total }),
            },
        ),
        report(Some(0), downloaded) is None,
        report(None, downloaded) is None,
{
}

/// A transfer is given up when somebody asks for it, and when something cannot be read,
/// written or made sure of, with the reason there was; it is done once what was written is
/// sure, and goes on in between.
pub proof fn transfers_answer_what_happens(
    total: Option<u64>,
    downloaded: u64,
    n: u64,
    reason: String,
)
    requires
        downloaded + n <= u64::MAX,
    ensures
        verdict(total, downloaded, Event::Cancelled) == VerdictView::Failed(
            CoreErrorView::Cancelled,
        ),
        verdict(total, downloaded, Event::ReadFailed(reason)) == VerdictView::Failed(
            CoreErrorView::Http(reason@),
        ),
        verdict(total, downloaded, Event::WriteFailed(reason)) == VerdictView::Failed(
            CoreErrorView::Io(reason@),
        ),
        verdict(total, downloaded, Event::SyncFailed(reason)) == VerdictView::Failed(
            CoreErrorView::Io(reason@),
        ),
        verdict(total, downloaded, Event::ReadAll) == VerdictView::Sync,
        verdict(total, downloaded, Event::Synced) == VerdictView::Finished(
            Progress {
                status: Status::Downloading,
                value: Some(Fraction { done: 1, total: 1 }),
            },
        ),
        verdict(total, downloaded, Event::Wrote(n)) is Continue,
        total matches Some(all) ==> (0 < downloaded + n <= all ==> verdict(
            total,
            downloaded,
            Event::Wrote(n),
        ) == VerdictView::Continue(
            Some(
                Progress {
                    status: Status::Downloading,
                    value: Some(Fraction { done: (downloaded + n) as u64, total: all }),
                },
            ),
        )),
        total is None ==> verdict(total, downloaded, Event::Wrote(n)) == VerdictView::Continue(
            None,
        ),
{
}

} // verus!
