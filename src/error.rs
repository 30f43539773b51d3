//! The error type shared by every operation of the library.
use vstd::prelude::*;
use crate::text::{push_str};

verus! {

/// What went wrong, coarsely.
#[derive(Debug, Clone, Copy, PartialEq, Eq, Structural)]
pub enum KanbanErrorKind {
    /// The file system refused or failed an operation.
    IoError,
    /// The host could not resolve the application's data directory.
    TauriError,
    /// A project file or a project's fields break the format or its rules.
    ProjectError,
    /// A string field is not well-formed UTF-8.
    TextError,
    /// A variable-length number is malformed or does not fit.
    NumberError,
}

impl KanbanErrorKind {
    /// The variant's name as written in source.
    pub open spec fn spec_name(self) -> Seq<char> {
        match self {
            KanbanErrorKind::IoError => "IoError"@,
            KanbanErrorKind::TauriError => "TauriError"@,
            KanbanErrorKind::ProjectError => "ProjectError"@,
            KanbanErrorKind::TextError => "TextError"@,
            KanbanErrorKind::NumberError => "NumberError"@,
        }
    }

    /// The variant's name as written in source.
    pub fn name(&self) -> (r: &'static str)
        ensures
            r@ == self.spec_name(),
    {
        match self {
            KanbanErrorKind::IoError => "IoError",
            KanbanErrorKind::TauriError => "TauriError",
            KanbanErrorKind::ProjectError => "ProjectError",
            KanbanErrorKind::TextError => "TextError",
            KanbanErrorKind::NumberError => "NumberError",
        }
    }
}

/// An error: its kind, a message for people, and optionally the description
/// of the lower-level failure that caused it.
#[derive(Debug, Clone)]
pub struct KanbanError {
    pub kind: KanbanErrorKind,
    pub message: String,
    pub source: Option<String>,
}

impl KanbanError {
    /// An error of the given kind with its own message and no cause.
    pub fn new(kind: KanbanErrorKind, message: &str) -> (r: KanbanError)
        ensures
            r.kind == kind,
            r.message@ == message@,
            r.source is None,
    {
        KanbanError { kind, message: message.to_owned(), source: None }
    }

    /// An error caused by a lower-level failure, described by `source`; the
    /// message repeats that description.
    pub fn from_source(kind: KanbanErrorKind, source: &str) -> (r: KanbanError)
        ensures
            r.kind == kind,
            r.message@ == source@,
            r.source matches Some(s) && s@ == source@,
    {
        KanbanError { kind, message: source.to_owned(), source: Some(source.to_owned()) }
    }

    /// As `from_source`, taking the description by value.
    pub fn from_box_source(kind: KanbanErrorKind, source: String) -> (r: KanbanError)
        ensures
            r.kind == kind,
            r.message@ == source@,
            r.source matches Some(s) && s@ == source@,
    {
        let message = source.clone();
        KanbanError { kind, message, source: Some(source) }
    }

    /// The description of the lower-level failure, if any.
    pub fn source(&self) -> (r: Option<&String>)
        ensures
            r is Some <==> self.source is Some,
            r is Some ==> r->Some_0@ == self.source->Some_0@,
    {
        self.source.as_ref()
    }

    /// The text shown to people: the kind in brackets, then the message.
    pub open spec fn spec_display(&self) -> Seq<char> {
        "["@ + self.kind.spec_name() + "] "@ + self.message@
    }

    /// The text shown to people: the kind in brackets, then the message.
    pub fn to_string(&self) -> (r: String)
        ensures
            r@ == self.spec_display(),
    {
        let mut r = String::new();
        push_str(&mut r, "[");
        push_str(&mut r, self.kind.name());
        push_str(&mut r, "] ");
        push_str(&mut r, self.message.as_str());
        r
    }
}

} // verus!
