use vstd::prelude::*;

verus! {

/// The category of a failure, for one query or for the whole run.
#[derive(Clone, Copy, Debug, PartialEq, Eq, Structural)]
pub enum ErrorKind {
    /// Missing or invalid credentials or endpoint settings; aborts the run.
    Config,
    /// The request could not be sent or timed out.
    Transport,
    /// The provider answered with a failure status or an unreadable body.
    Response,
}

/// A failed query: its category and a human-readable message.
#[derive(Clone, Debug)]
pub struct FeedError {
    pub kind: ErrorKind,
    pub message: String,
}

/// One article found by the provider. Text fields are kept as the provider
/// sent them, markup included.
#[derive(Clone, Debug)]
pub struct NewsItem {
    pub title: String,
    pub link: String,
    pub published_at: String,
    pub source_label: Option<String>,
    pub description: Option<String>,
}

fn copy_text(s: &Option<String>) -> (r: Option<String>)
    ensures
        r == *s,
{
    match s {
        Some(t) => Some(t.clone()),
        None => None,
    }
}

impl NewsItem {
    /// A field-by-field copy of this item.
    pub fn duplicate(&self) -> (r: NewsItem)
        ensures
            r == *self,
    {
        NewsItem {
            title: self.title.clone(),
            link: self.link.clone(),
            published_at: self.published_at.clone(),
            source_label: copy_text(&self.source_label),
            description: copy_text(&self.description),
        }
    }
}

} // verus!
