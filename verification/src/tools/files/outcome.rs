//! What came of touching a file.

use vstd::prelude::*;
use vstd::string::*;

use crate::json::{Json, JsonView};
use crate::tool::{error_json, error_reply2, opt_view};

verus! {

/// What came of reading a file as text.
pub enum FileText {
    Text(String),
    Missing,
    Failed(String),
}

pub ghost enum FileTextView {
    Text(Seq<char>),
    Missing,
    Failed(Seq<char>),
}

impl View for FileText {
    type V = FileTextView;

    open spec fn view(&self) -> FileTextView {
        match self {
            FileText::Text(t) => FileTextView::Text(t@),
            FileText::Missing => FileTextView::Missing,
            FileText::Failed(e) => FileTextView::Failed(e@),
        }
    }
}

/// What came of storing a file's new content. `Done` has the path with its
/// links followed, if that could be found.
pub enum Stored {
    Done(Option<String>),
    WriteFailed(String),
    RenameFailed(String),
}

pub ghost enum StoredView {
    Done(Option<Seq<char>>),
    WriteFailed(Seq<char>),
    RenameFailed(Seq<char>),
}

impl View for Stored {
    type V = StoredView;

    open spec fn view(&self) -> StoredView {
        match self {
            Stored::Done(p) => StoredView::Done(opt_view(*p)),
            Stored::WriteFailed(e) => StoredView::WriteFailed(e@),
            Stored::RenameFailed(e) => StoredView::RenameFailed(e@),
        }
    }
}

impl StoredView {
    /// Where the content is, or what to reply if it is not.
    pub open spec fn place(self, target: Seq<char>) -> Result<Seq<char>, JsonView> {
        match self {
            StoredView::Done(Some(p)) => Ok(p),
            StoredView::Done(None) => Ok(target),
            StoredView::WriteFailed(e) => Err(error_json("Failed to write temp file: "@ + e)),
            StoredView::RenameFailed(e) => Err(error_json("Atomic rename failed: "@ + e)),
        }
    }
}

impl Stored {
    pub fn place(&self, target: &str) -> (r: Result<String, Json>)
        ensures
            match r {
                Ok(p) => self@.place(target@) == Ok::<Seq<char>, JsonView>(p@),
                Err(j) => self@.place(target@) == Err::<Seq<char>, JsonView>(j@),
            },
    {
        match self {
            Stored::Done(Some(p)) => Ok(p.clone()),
            Stored::Done(None) => Ok(target.to_owned()),
            Stored::WriteFailed(e) => Err(error_reply2("Failed to write temp file: ", e.as_str())),
            Stored::RenameFailed(e) => Err(error_reply2("Atomic rename failed: ", e.as_str())),
        }
    }
}

} // verus!
