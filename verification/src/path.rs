//! Which request paths are counted, and under which key.

use crate::text::{chars_of, ends_with, is_text, starts_with, string_of};
use vstd::prelude::*;

verus! {

/// Whether `path` names a post: it begins with `/posts/` and ends with `.html`.
pub open spec fn is_post(path: Seq<char>) -> bool {
    "/posts/"@.is_prefix_of(path) && ".html"@.is_suffix_of(path)
}

/// Whether `path` names the front page, by either of its two spellings.
pub open spec fn is_front_page(path: Seq<char>) -> bool {
    path == "/"@ || path == "/index.html"@
}

/// The key under which visits to `path` are counted, or `None` for a path
/// that is not counted. The front page is counted under `/` however it is
/// spelt, the feed under `/rss.xml`, and each post under its own path.
pub open spec fn path_key(path: Seq<char>) -> Option<Seq<char>> {
    if is_front_page(path) {
        Some("/"@)
    } else if path == "/rss.xml"@ {
        Some("/rss.xml"@)
    } else if is_post(path) {
        Some(path)
    } else {
        None
    }
}

/// Classifies a request path.
pub fn classify(path: &[char]) -> (key: Option<String>)
    ensures
        match key {
            Some(k) => path_key(path@) == Some(k@),
            None => path_key(path@) is None,
        },
{
    if is_text(path, "/") || is_text(path, "/index.html") {
        Some("/".to_string())
    } else if is_text(path, "/rss.xml") {
        Some("/rss.xml".to_string())
    } else {
        let prefix = chars_of("/posts/");
        let suffix = chars_of(".html");
        if starts_with(path, prefix.as_slice()) && ends_with(path, suffix.as_slice()) {
            Some(string_of(path))
        } else {
            None
        }
    }
}

} // verus!
