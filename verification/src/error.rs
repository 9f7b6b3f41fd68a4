//! The errors of an operation, and how the failure of a request turns into one.
use vstd::prelude::*;

use crate::text::concat2;

verus! {

/// The repository does not have the shape that every operation relies on.
#[derive(Debug, PartialEq, Eq)]
pub struct IntegrityError {
    pub msg: String,
}

impl IntegrityError {
    pub fn new(msg: String) -> (res: Self)
        ensures
            res.msg == msg,
    {
        Self { msg }
    }

    /// The error in words.
    pub fn to_string(&self) -> (res: String)
        ensures
            res@ == "repository integrity broken: "@ + self.msg@,
    {
        concat2("repository integrity broken: ", self.msg.as_str())
    }
}

/// A request that failed: whether what it names was not found, and the failure in words.
#[derive(Debug, PartialEq, Eq)]
pub struct HostError {
    pub not_found: bool,
    pub text: String,
}

/// Why an operation ended without a result.
#[derive(Debug, PartialEq, Eq)]
pub enum Error {
    Integrity(IntegrityError),
    /// The failure of a request, handed on as it came.
    Host(HostError),
    /// A rule of the operation is not met.
    Message(String),
}

/// An error with its text as a sequence of characters.
pub enum ErrorView {
    Integrity(Seq<char>),
    Host(HostError),
    Message(Seq<char>),
}

impl View for Error {
    type V = ErrorView;

    open spec fn view(&self) -> ErrorView {
        match *self {
            Error::Integrity(error) => ErrorView::Integrity(error.msg@),
            Error::Host(error) => ErrorView::Host(error),
            Error::Message(text) => ErrorView::Message(text@),
        }
    }
}

impl ErrorView {
    /// The error in words.
    pub open spec fn text(self) -> Seq<char> {
        match self {
            ErrorView::Integrity(msg) => "repository integrity broken: "@ + msg,
            ErrorView::Host(error) => error.text@,
            ErrorView::Message(text) => text,
        }
    }
}

impl Error {
    /// The error in words.
    pub fn to_string(&self) -> (res: String)
        ensures
            res@ == self@.text(),
    {
        match self {
            Error::Integrity(error) => error.to_string(),
            Error::Host(error) => error.text.clone(),
            Error::Message(text) => text.clone(),
        }
    }
}

/// How an operation reports that a request failed.
pub enum Blame {
    /// As the failure itself.
    Pass,
    /// What was not found ought to be there; any other failure is passed on.
    NotFound(Seq<char>),
    /// The same, with the failure in words after the message.
    NotFoundWith(Seq<char>),
    /// As a message, with the failure in words after it.
    Told(Seq<char>),
    /// As a message that says all there is to say.
    Plain(Seq<char>),
}

impl Blame {
    /// The error that reports the failure `error`.
    pub open spec fn on(self, error: HostError) -> ErrorView {
        match self {
            Blame::Pass => ErrorView::Host(error),
            Blame::NotFound(msg) => if error.not_found {
                ErrorView::Integrity(msg)
            } else {
                ErrorView::Host(error)
            },
            Blame::NotFoundWith(msg) => if error.not_found {
                ErrorView::Integrity(msg + error.text@)
            } else {
                ErrorView::Host(error)
            },
            Blame::Told(msg) => ErrorView::Message(msg + error.text@),
            Blame::Plain(msg) => ErrorView::Message(msg),
        }
    }
}

impl HostError {
    /// An integrity error where something was not found, else the failure itself.
    pub fn not_found(self, msg: String) -> (res: Error)
        ensures
            res@ == Blame::NotFound(msg@).on(self),
    {
        if self.not_found {
            Error::Integrity(IntegrityError::new(msg))
        } else {
            Error::Host(self)
        }
    }

    /// An integrity error that ends in the words of the failure where something was not found,
    /// else the failure itself.
    pub fn not_found_with(self, msg: &str) -> (res: Error)
        ensures
            res@ == Blame::NotFoundWith(msg@).on(self),
    {
        if self.not_found {
            Error::Integrity(IntegrityError::new(concat2(msg, self.text.as_str())))
        } else {
            Error::Host(self)
        }
    }

    /// A message that ends in the words of the failure.
    pub fn told(self, msg: &str) -> (res: Error)
        ensures
            res@ == Blame::Told(msg@).on(self),
    {
        Error::Message(concat2(msg, self.text.as_str()))
    }
}

} // verus!
