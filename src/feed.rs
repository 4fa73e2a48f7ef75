use vstd::prelude::*;
use crate::model::{ErrorKind, NewsItem};
use crate::sanitize::{remove_html_tags, sanitized};

verus! {

/// How many items one query asks the provider for.
pub const RESULTS_PER_QUERY: usize = 15;

/// How many items the summary display draws from the pool.
pub const SAMPLE_SIZE: usize = 20;

/// The provider's credential pair, sent with every request.
pub struct Credentials {
    pub client_id: String,
    pub client_secret: String,
}

/// An HTTP status in the success class `2xx`.
pub open spec fn is_success_status(status: u16) -> bool {
    200 <= status <= 299
}

/// Accepts a response status, or rejects it as a response failure.
pub fn check_status(status: u16) -> (r: Result<(), ErrorKind>)
    ensures
        r is Ok <==> is_success_status(status),
        r is Err ==> r == Err::<(), ErrorKind>(ErrorKind::Response),
{
    if 200 <= status && status <= 299 {
        Ok(())
    } else {
        Err(ErrorKind::Response)
    }
}

impl Credentials {
    /// Builds the credential pair from the configured values; a missing or
    /// empty value is a configuration failure.
    pub fn from_parts(client_id: Option<String>, client_secret: Option<String>) -> (r: Result<
        Credentials,
        ErrorKind,
    >)
        ensures
            r is Ok <==> (client_id is Some && client_id->Some_0@.len() > 0
                && client_secret is Some && client_secret->Some_0@.len() > 0),
            r is Ok ==> r->Ok_0.client_id == client_id->Some_0 && r->Ok_0.client_secret
                == client_secret->Some_0,
            r is Err ==> r->Err_0 == ErrorKind::Config,
    {
        match (client_id, client_secret) {
            (Some(id), Some(secret)) => {
                if !id.as_str().is_empty() && !secret.as_str().is_empty() {
                    Ok(Credentials { client_id: id, client_secret: secret })
                } else {
                    Err(ErrorKind::Config)
                }
            },
            _ => Err(ErrorKind::Config),
        }
    }
}

/// `t` is the display form of the optional raw text `s`.
pub open spec fn cleaned_text(s: Option<String>, t: Option<String>) -> bool {
    match (s, t) {
        (Some(a), Some(b)) => b@ == sanitized(a@),
        (None, None) => true,
        _ => false,
    }
}

impl NewsItem {
    /// This item ready for display: title and description with markup removed
    /// and entities decoded; the other fields unchanged.
    pub fn cleaned(&self) -> (r: NewsItem)
        ensures
            r.title@ == sanitized(self.title@),
            cleaned_text(self.description, r.description),
            r.link == self.link,
            r.published_at == self.published_at,
            r.source_label == self.source_label,
    {
        let description = match &self.description {
            Some(d) => Some(remove_html_tags(d.as_str())),
            None => None,
        };
        let source_label = match &self.source_label {
            Some(s) => Some(s.clone()),
            None => None,
        };
        NewsItem {
            title: remove_html_tags(self.title.as_str()),
            link: self.link.clone(),
            published_at: self.published_at.clone(),
            source_label,
            description,
        }
    }
}

} // verus!
