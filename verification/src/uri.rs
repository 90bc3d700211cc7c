//! Addresses of documents.

use crate::text::text_if;
use tower_lsp::lsp_types::Url;
use vstd::prelude::*;

verus! {

/// The address of a document.
#[derive(Debug)]
pub struct Uri {
    /// The address as it is written.
    pub text: String,
    /// Its path, percent-encoded.
    pub path: String,
    /// The path of the file it stands for, where it stands for one.
    pub file_path: Option<String>,
}

/// How an address is written once it is read by `Url::parse`; `None` where it is not read.
pub uninterp spec fn url_read(text: Seq<char>) -> Option<Seq<char>>;

/// The path of an address, as `Url::path` gives it; `None` where the address is not read.
pub uninterp spec fn url_path(text: Seq<char>) -> Option<Seq<char>>;

/// The path of the file that an address stands for, as `Url::to_file_path` gives it on the system
/// numbered `system`; `None` where it stands for none there.
pub uninterp spec fn url_file(text: Seq<char>, system: nat) -> Option<Seq<char>>;

/// Whether there is a path and it begins at the root.
pub open spec fn begins_at_root(path: Option<Seq<char>>) -> bool {
    path matches Some(p) && p.len() > 0 && p[0] == '/'
}

/// `Url::parse`: how the address is written once it is read, named [`url_read`].
#[verifier::external_body]
pub(crate) fn read_url(text: &str) -> (r: Option<String>)
    ensures
        text_if(r) == url_read(text@),
{
    match Url::parse(text) {
        Ok(url) => Some(url.as_str().to_string()),
        Err(_) => None,
    }
}

/// `Url::path`: the percent-encoded path of an address, named [`url_path`]. There is one of every
/// address that is read.
#[verifier::external_body]
pub(crate) fn read_url_path(text: &str) -> (r: Option<String>)
    ensures
        text_if(r) == url_path(text@),
        r is Some <==> url_read(text@) is Some,
{
    match Url::parse(text) {
        Ok(url) => Some(url.path().to_string()),
        Err(_) => None,
    }
}

/// `Url::to_file_path`: the path of the file that an address stands for, named [`url_file`], with
/// what is not Unicode replaced. Which it is depends on the system that the program runs on, so it
/// is said that there is a system on which it is so, and not which. An address that is not read, or
/// whose path does not begin with `/`, stands for no file on any.
#[verifier::external_body]
pub(crate) fn read_file_path(text: &str) -> (r: Option<String>)
    ensures
        exists|system: nat| text_if(r) == #[trigger] url_file(text@, system),
        r is Some ==> begins_at_root(url_path(text@)),
{
    match Url::parse(text) {
        Ok(url) => match url.to_file_path() {
            Ok(path) => Some(path.to_string_lossy().to_string()),
            Err(_) => None,
        },
        Err(_) => None,
    }
}

impl Uri {
    /// The address that `text` spells, where it spells one.
    pub fn read(text: &str) -> (r: Option<Uri>)
        ensures
            r is Some <==> url_read(text@) is Some,
            r matches Some(uri) ==> {
                &&& Some(uri.text@) == url_read(text@)
                &&& Some(uri.path@) == url_path(text@)
                &&& exists|system: nat|
                    text_if(uri.file_path) == #[trigger] url_file(text@, system)
                &&& uri.file_path is Some ==> begins_at_root(url_path(text@))
            },
    {
        match (read_url(text), read_url_path(text)) {
            (Some(written), Some(path)) => Some(
                Uri { text: written, path, file_path: read_file_path(text) },
            ),
            _ => None,
        }
    }
}

} // verus!
