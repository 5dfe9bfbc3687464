//! What can go wrong, and how it is said.

use vstd::prelude::*;

use crate::text::joined;

verus! {

broadcast use vstd::string::group_string_axioms;

/// Why a release tag cannot name a directory.
#[derive(Debug, Clone, Copy, PartialEq, Eq, Structural)]
pub enum TagError {
    Empty,
    Reserved,
}

/// Why a version store operation failed.
#[derive(Debug, PartialEq, Eq)]
pub enum StoreError {
    Io(String),
    RemoveActive,
    RequiresMultiVersion,
    NoActiveVersion,
    NoSuchVersion(String),
    Tag(TagError),
}

/// Why an operation failed.
#[derive(Debug, PartialEq, Eq)]
pub enum CoreError {
    Http(String),
    RateLimited,
    Json(String),
    Io(String),
    Tag(TagError),
    Cancelled,
    UnknownArchiveFormat,
    ExtractionFailed(String),
    LaunchFailed(String),
    Store(StoreError),
}

/// What a store error says.
pub enum StoreErrorView {
    Io(Seq<char>),
    RemoveActive,
    RequiresMultiVersion,
    NoActiveVersion,
    NoSuchVersion(Seq<char>),
    Tag(TagError),
}

/// What an error says.
pub enum CoreErrorView {
    Http(Seq<char>),
    RateLimited,
    Json(Seq<char>),
    Io(Seq<char>),
    Tag(TagError),
    Cancelled,
    UnknownArchiveFormat,
    ExtractionFailed(Seq<char>),
    LaunchFailed(Seq<char>),
    Store(StoreErrorView),
}

impl View for StoreError {
    type V = StoreErrorView;

    open spec fn view(&self) -> StoreErrorView {
        match *self {
            StoreError::Io(m) => StoreErrorView::Io(m@),
            StoreError::RemoveActive => StoreErrorView::RemoveActive,
            StoreError::RequiresMultiVersion => StoreErrorView::RequiresMultiVersion,
            StoreError::NoActiveVersion => StoreErrorView::NoActiveVersion,
            StoreError::NoSuchVersion(name) => StoreErrorView::NoSuchVersion(name@),
            StoreError::Tag(e) => StoreErrorView::Tag(e),
        }
    }
}

impl View for CoreError {
    type V = CoreErrorView;

    open spec fn view(&self) -> CoreErrorView {
        match *self {
            CoreError::Http(m) => CoreErrorView::Http(m@),
            CoreError::RateLimited => CoreErrorView::RateLimited,
            CoreError::Json(m) => CoreErrorView::Json(m@),
            CoreError::Io(m) => CoreErrorView::Io(m@),
            CoreError::Tag(e) => CoreErrorView::Tag(e),
            CoreError::Cancelled => CoreErrorView::Cancelled,
            CoreError::UnknownArchiveFormat => CoreErrorView::UnknownArchiveFormat,
            CoreError::ExtractionFailed(m) => CoreErrorView::ExtractionFailed(m@),
            CoreError::LaunchFailed(m) => CoreErrorView::LaunchFailed(m@),
            CoreError::Store(e) => CoreErrorView::Store(e@),
        }
    }
}

/// The outcome of an operation that gives nothing back.
pub open spec fn store_outcome(r: Result<(), StoreError>) -> Result<(), StoreErrorView> {
    match r {
        Ok(()) => Ok(()),
        Err(e) => Err(e@),
    }
}

/// The outcome of an operation that gives nothing back.
pub open spec fn core_outcome(r: Result<(), CoreError>) -> Result<(), CoreErrorView> {
    match r {
        Ok(()) => Ok(()),
        Err(e) => Err(e@),
    }
}

impl StoreErrorView {
    /// What is said of the error.
    pub open spec fn words(self) -> Seq<char> {
        match self {
            StoreErrorView::Io(m) => m,
            StoreErrorView::RemoveActive => "the version currently in use cannot be removed"@,
            StoreErrorView::RequiresMultiVersion =>
                "this operation requires multiple versions to be enabled"@,
            StoreErrorView::NoActiveVersion => "no version is currently active"@,
            StoreErrorView::NoSuchVersion(name) => "no installed version named "@ + name,
            StoreErrorView::Tag(e) => e.words(),
        }
    }
}

impl TagError {
    /// What is said of the error.
    pub open spec fn words(self) -> Seq<char> {
        match self {
            TagError::Empty => "release tag is empty"@,
            TagError::Reserved => "release tag is a reserved directory name"@,
        }
    }

    /// The error, said to a person.
    pub fn message(&self) -> (out: String)
        ensures
            out@ == self.words(),
    {
        match self {
            TagError::Empty => "release tag is empty".to_owned(),
            TagError::Reserved => "release tag is a reserved directory name".to_owned(),
        }
    }
}

impl StoreError {
    /// What is said of the error.
    pub open spec fn words(self) -> Seq<char> {
        self@.words()
    }

    /// The error, said to a person.
    pub fn message(&self) -> (out: String)
        ensures
            out@ == self.words(),
    {
        match self {
            StoreError::Io(m) => m.clone(),
            StoreError::RemoveActive => "the version currently in use cannot be removed".to_owned(),
            StoreError::RequiresMultiVersion =>
                "this operation requires multiple versions to be enabled".to_owned(),
            StoreError::NoActiveVersion => "no version is currently active".to_owned(),
            StoreError::NoSuchVersion(name) => joined("no installed version named ", name.as_str()),
            StoreError::Tag(e) => e.message(),
        }
    }
}

impl CoreError {
    /// What is said of the error.
    pub open spec fn words(self) -> Seq<char> {
        match self {
            CoreError::Http(m) => "network request failed: "@ + m@,
            CoreError::RateLimited =>
                "GitHub's rate limit is reached. Unauthenticated requests are limited to 60 per hour; try again later."@,
            CoreError::Json(m) => "could not understand GitHub's response: "@ + m@,
            CoreError::Io(m) => m@,
            CoreError::Tag(e) => e.words(),
            CoreError::Cancelled => "cancelled"@,
            CoreError::UnknownArchiveFormat => "unrecognised archive format"@,
            CoreError::ExtractionFailed(m) => "could not extract the downloaded archive: "@ + m@,
            CoreError::LaunchFailed(m) => m@,
            CoreError::Store(e) => e.words(),
        }
    }

    /// The error, said to a person.
    pub fn message(&self) -> (out: String)
        ensures
            out@ == self.words(),
    {
        match self {
            CoreError::Http(m) => joined("network request failed: ", m.as_str()),
            CoreError::RateLimited =>
                "GitHub's rate limit is reached. Unauthenticated requests are limited to 60 per hour; try again later.".to_owned(),
            CoreError::Json(m) => joined("could not understand GitHub's response: ", m.as_str()),
            CoreError::Io(m) => m.clone(),
            CoreError::Tag(e) => e.message(),
            CoreError::Cancelled => "cancelled".to_owned(),
            CoreError::UnknownArchiveFormat => "unrecognised archive format".to_owned(),
            CoreError::ExtractionFailed(m) => joined(
                "could not extract the downloaded archive: ",
                m.as_str(),
            ),
            CoreError::LaunchFailed(m) => m.clone(),
            CoreError::Store(e) => e.message(),
        }
    }
}

/// Each error is said in words of its own, with the reason where there is one.
pub proof fn errors_are_worded(m: String, tag: TagError, name: Seq<char>, reason: Seq<char>)
    ensures
        TagError::Empty.words() == "release tag is empty"@,
        TagError::Reserved.words() == "release tag is a reserved directory name"@,
        StoreErrorView::Io(reason).words() == reason,
        StoreErrorView::RemoveActive.words() == "the version currently in use cannot be removed"@,
        StoreErrorView::RequiresMultiVersion.words()
            == "this operation requires multiple versions to be enabled"@,
        StoreErrorView::NoActiveVersion.words() == "no version is currently active"@,
        StoreErrorView::NoSuchVersion(name).words() == "no installed version named "@ + name,
        StoreErrorView::Tag(tag).words() == tag.words(),
        CoreError::Http(m).words() == "network request failed: "@ + m@,
        CoreError::RateLimited.words()
            == "GitHub's rate limit is reached. Unauthenticated requests are limited to 60 per hour; try again later."@,
        CoreError::Json(m).words() == "could not understand GitHub's response: "@ + m@,
        CoreError::Io(m).words() == m@,
        CoreError::Tag(tag).words() == tag.words(),
        CoreError::Cancelled.words() == "cancelled"@,
        CoreError::UnknownArchiveFormat.words() == "unrecognised archive format"@,
        CoreError::ExtractionFailed(m).words() == "could not extract the downloaded archive: "@
            + m@,
        CoreError::LaunchFailed(m).words() == m@,
{
}

/// An error of the store is said as the store says it.
pub proof fn store_errors_are_handed_on(e: StoreError)
    ensures
        CoreError::Store(e).words() == e@.words(),
{
}

} // verus!
