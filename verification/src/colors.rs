//! Terminal hyperlink data: a label and the URL it points at,
//! reassembled from parsed parts. Rendering the escape sequence around
//! it is the presentation layer's affair.

use crate::parser::{url_parse, Parser};
use vstd::prelude::*;
use vstd::string::StringExecFns;

verus! {

/// A clickable label: the text shown and the link behind it.
pub struct HyperLink {
    text: String,
    link: String,
}

impl HyperLink {
    /// Pair a label with a link, which must parse as a URL; the stored
    /// link is rebuilt as scheme, separator, host and path, shedding
    /// any port.
    pub fn new(text: &str, link: &str) -> (r: Result<HyperLink, String>)
        ensures
            match (r, url_parse(link@)) {
                (Ok(h), Ok(t)) => h.text_view() == text@ && h.link_view() == t.0 + "://"@ + t.1
                    + t.3,
                (Err(e), Err(m)) => e@ == "Invalid URL"@,
                _ => false,
            },
    {
        let parsed = match Parser::parse(link) {
            Ok(p) => p,
            Err(_) => {
                return Err("Invalid URL".to_owned());
            },
        };
        let mut url = parsed.scheme;
        url.append("://");
        url.append(parsed.host.as_str());
        url.append(parsed.path.as_str());
        Ok(HyperLink { text: text.to_owned(), link: url })
    }

    pub closed spec fn text_view(&self) -> Seq<char> {
        self.text@
    }

    pub closed spec fn link_view(&self) -> Seq<char> {
        self.link@
    }

    /// The label to show.
    pub fn text(&self) -> (r: &String)
        ensures
            r@ == self.text_view(),
    {
        &self.text
    }

    /// The URL behind it.
    pub fn link(&self) -> (r: &String)
        ensures
            r@ == self.link_view(),
    {
        &self.link
    }
}

} // verus!
