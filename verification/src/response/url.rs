//! URL generation for stored images.

use crate::text::{
    after_last, chars_of, concat, concat3, join, joined, slice_views, starts_with,
    starts_with_chars, string_of_suffix, suffix_after_last, trim_end_matches, trim_trailing,
};
use std::path::Path;
use vstd::prelude::*;

verus! {

/// The final component of a path, as `Path::file_name` gives it on the
/// platform that the library is built for: `None` where the path has none.
pub uninterp spec fn file_name_of(path: Seq<char>) -> Option<Seq<char>>;

/// `Path::file_name`, read as text: the final component of `path`, if it
/// has one.
#[verifier::external_body]
fn final_component(path: &str) -> (name: Option<String>)
    ensures
        name is Some == file_name_of(path@) is Some,
        name matches Some(n) ==> file_name_of(path@) == Some(n@),
{
    Path::new(path).file_name().and_then(|name| name.to_str()).map(|name| name.to_string())
}

/// The name under which a file path is served: its final component, or the
/// path as it stands where it has none.
pub open spec fn served_name(path: Seq<char>) -> Seq<char> {
    match file_name_of(path) {
        Some(name) => name,
        None => path,
    }
}

/// The URL of a file name below a prefix.
pub open spec fn url_of(prefix: Seq<char>, name: Seq<char>) -> Seq<char> {
    prefix + "/"@ + name
}

/// The file name that a URL names: what follows the prefix and a slash,
/// where the URL begins with them; else what follows the last slash.
pub open spec fn file_name_in(prefix: Seq<char>, url: Seq<char>) -> Seq<char> {
    if (prefix + "/"@).is_prefix_of(url) {
        url.skip((prefix + "/"@).len() as int)
    } else {
        after_last(url, '/')
    }
}

/// Handler for URL generation.
pub struct UrlHandler {
    url_prefix: String,
}

impl View for UrlHandler {
    type V = Seq<char>;

    /// The prefix of the handler.
    closed spec fn view(&self) -> Seq<char> {
        self.url_prefix@
    }
}

impl UrlHandler {
    /// Create a new URL handler. The prefix is kept without the slashes at its end.
    pub fn new(url_prefix: String) -> (handler: Self)
        ensures
            handler@ == trim_trailing(url_prefix@, '/'),
    {
        let url_prefix = trim_end_matches(url_prefix.as_str(), '/');
        UrlHandler { url_prefix }
    }

    /// The URL of a file name.
    pub fn url_for(&self, filename: &str) -> (url: String)
        ensures
            url@ == url_of(self@, filename@),
    {
        concat3(self.url_prefix.as_str(), "/", filename)
    }

    /// Generate a URL for a file path: the URL of the final component of
    /// the path, or of the path as it stands where it has none.
    pub fn generate_url(&self, file_path: &str) -> (url: String)
        ensures
            url@ == url_of(self@, served_name(file_path@)),
    {
        match final_component(file_path) {
            Some(name) => self.url_for(name.as_str()),
            None => self.url_for(file_path),
        }
    }

    /// Generate a URL with additional path segments.
    pub fn generate_url_with_path(&self, segments: &[&str]) -> (url: String)
        ensures
            url@ == url_of(self@, joined(slice_views(segments@), "/"@)),
    {
        let path = join(segments, "/");
        self.url_for(path.as_str())
    }

    /// Parse a URL to extract the filename.
    pub fn extract_filename(&self, url: &str) -> (name: Option<String>)
        ensures
            name is Some,
            name.unwrap()@ == file_name_in(self@, url@),
    {
        let lead = concat(self.url_prefix.as_str(), "/");
        let chars = chars_of(url);
        let lead_chars = chars_of(lead.as_str());
        if starts_with_chars(&chars, &lead_chars) {
            Some(string_of_suffix(&chars, lead_chars.len()))
        } else {
            Some(suffix_after_last(url, '/'))
        }
    }

    /// Check if a URL belongs to this handler.
    pub fn is_local_url(&self, url: &str) -> (local: bool)
        ensures
            local == self@.is_prefix_of(url@),
    {
        starts_with(url, self.url_prefix.as_str())
    }

    /// Get the URL prefix.
    pub fn prefix(&self) -> (prefix: &str)
        ensures
            prefix@ == self@,
    {
        self.url_prefix.as_str()
    }

    /// Update the URL prefix. The prefix is kept without the slashes at its end.
    pub fn set_prefix(&mut self, prefix: String)
        ensures
            final(self)@ == trim_trailing(prefix@, '/'),
    {
        self.url_prefix = trim_end_matches(prefix.as_str(), '/');
    }
}

} // verus!
