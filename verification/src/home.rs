//! The state behind the display surface: what the user typed, whether the
//! captured-domain list is shown, the pieces of the page on screen and the
//! base domain that root-relative links are resolved against.
//!
//! Fetching pages and drawing widgets happen outside the library; every
//! state transition they trigger is decided here. [`Home::update`] takes one
//! message and says which address, if any, must be fetched next;
//! [`Home::apply_page`] and [`Home::apply_link_page`] fold a fetched page
//! back into the state.

use vstd::prelude::*;
use vstd::string::StrSliceExecFns;
use vstd::string::StringExecFns;

verus! {

/// One displayable piece of a page: plain text, or a link with its text and
/// target address.
#[derive(Debug, Clone, PartialEq, Eq)]
pub enum ContentPiece {
    Text(String),
    Link(String, String),
}

/// One event from the display surface.
#[derive(Debug, Clone, PartialEq, Eq)]
pub enum Message {
    RefreshView,
    InputTextChanged(String),
    InputSubmitted,
    ToggleView,
    LinkClicked(String),
}

/// What the surrounding shell must do after an update: nothing, or fetch the
/// page at an address and hand the result back.
#[derive(Debug, Clone, PartialEq, Eq)]
pub enum Effect {
    Nothing,
    Fetch(String),
}

/// What `url::Url::parse` makes of a string: its scheme and host when it is
/// an absolute URL with a host, nothing otherwise.
pub uninterp spec fn url_scheme_host(s: Seq<char>) -> Option<(Seq<char>, Seq<char>)>;

/// Relies on `url::Url::parse`, `Url::scheme` and `Url::host_str`: whether a
/// string parses as an absolute URL with a host, and what its scheme and
/// host are, depend on the string alone.
#[verifier::external_body]
fn parse_scheme_host(s: &String) -> (r: Option<(String, String)>)
    ensures
        match r {
            Some(p) => url_scheme_host(s@) == Some((p.0@, p.1@)),
            None => url_scheme_host(s@) is None,
        },
{
    match url::Url::parse(s) {
        Ok(u) => match u.host_str() {
            Some(h) => Some((u.scheme().to_string(), h.to_string())),
            None => None,
        },
        Err(_) => None,
    }
}

/// The base domain of an address: `scheme://host`, when the address parses
/// as an absolute URL with a host.
pub open spec fn spec_base_domain(s: Seq<char>) -> Option<Seq<char>> {
    match url_scheme_host(s) {
        Some(p) => Some(p.0 + "://"@ + p.1),
        None => None,
    }
}

/// A base domain, or the empty string where there is none.
pub open spec fn or_empty(s: Option<Seq<char>>) -> Seq<char> {
    match s {
        Some(v) => v,
        None => Seq::<char>::empty(),
    }
}

/// A clicked link resolved against a base domain: a root-relative target
/// (one starting with `/`) is prefixed with the base, any other is kept.
pub open spec fn spec_resolve_link(base: Seq<char>, url: Seq<char>) -> Seq<char> {
    if url.len() > 0 && url[0] == '/' {
        base + url
    } else {
        url
    }
}

/// The base domain to show links against: `scheme://host` of the given
/// address, or nothing when it is not an absolute URL with a host.
pub fn get_base_domain(s: &String) -> (r: Option<String>)
    ensures
        match r {
            Some(b) => spec_base_domain(s@) == Some(b@),
            None => spec_base_domain(s@) is None,
        },
{
    match parse_scheme_host(s) {
        Some((scheme, host)) => Some(scheme.concat("://").concat(host.as_str())),
        None => None,
    }
}

/// What one HTML element contributes to the page: a link keeps its text and
/// target, a paragraph keeps its text, any other element contributes
/// nothing.
pub fn classify_element(tag: &String, text: String, href: String) -> (r: Option<ContentPiece>)
    ensures
        r == (if tag@ == "a"@ {
            Some(ContentPiece::Link(text, href))
        } else if tag@ == "p"@ {
            Some(ContentPiece::Text(text))
        } else {
            None::<ContentPiece>
        }),
{
    if tag.eq(&String::from_str("a")) {
        Some(ContentPiece::Link(text, href))
    } else if tag.eq(&String::from_str("p")) {
        Some(ContentPiece::Text(text))
    } else {
        None
    }
}

/// The display surface's state.
pub struct Home {
    /// What stands in the address bar.
    pub input: String,
    /// Whether the captured-domain list is shown instead of the page.
    pub show_domain_list: bool,
    /// The pieces of the page on screen.
    pub content_pieces: Vec<ContentPiece>,
    /// The origin that root-relative links are resolved against.
    pub base_domain: String,
}

impl Home {
    /// A fresh state: empty address bar, captured-domain list hidden, no
    /// content and no base domain yet.
    pub fn new() -> (h: Home)
        ensures
            h.input@ == Seq::<char>::empty(),
            !h.show_domain_list,
            h.content_pieces@ == Seq::<ContentPiece>::empty(),
            h.base_domain@ == Seq::<char>::empty(),
    {
        Home {
            input: String::new(),
            show_domain_list: false,
            content_pieces: Vec::new(),
            base_domain: String::new(),
        }
    }

    /// The window title.
    pub fn title(&self) -> (t: String)
        ensures
            t@ == "internet"@,
    {
        String::from_str("internet")
    }

    /// The toggle's caption: what pressing it will do to the captured-domain
    /// list.
    pub fn toggle_label(&self) -> (label: String)
        ensures
            self.show_domain_list ==> label@ == "hide captured domain list"@,
            !self.show_domain_list ==> label@ == "show captured domain list"@,
    {
        if self.show_domain_list {
            String::from_str("hide captured domain list")
        } else {
            String::from_str("show captured domain list")
        }
    }

    /// A clicked link resolved against the current base domain.
    pub fn resolve_link(&self, url: &String) -> (full: String)
        ensures
            full@ == spec_resolve_link(self.base_domain@, url@),
    {
        let n = url.as_str().unicode_len();
        if n > 0 && url.as_str().get_char(0) == '/' {
            self.base_domain.clone().concat(url.as_str())
        } else {
            url.clone()
        }
    }

    /// Applies one message. Typing updates the address bar; the toggle flips
    /// which view is shown; submitting recomputes the base domain from the
    /// address bar and asks for that page; clicking a link asks for the
    /// link's resolved address and changes nothing until the page arrives.
    pub fn update(&mut self, message: Message) -> (e: Effect)
        ensures
            match message {
                Message::RefreshView => *final(self) == *old(self) && e is Nothing,
                Message::InputTextChanged(s) => {
                    &&& final(self).input == s
                    &&& final(self).show_domain_list == old(self).show_domain_list
                    &&& final(self).content_pieces == old(self).content_pieces
                    &&& final(self).base_domain == old(self).base_domain
                    &&& e is Nothing
                },
                Message::InputSubmitted => {
                    &&& final(self).input == old(self).input
                    &&& final(self).show_domain_list == old(self).show_domain_list
                    &&& final(self).content_pieces == old(self).content_pieces
                    &&& final(self).base_domain@ == or_empty(spec_base_domain(old(self).input@))
                    &&& e matches Effect::Fetch(u) && u@ == old(self).input@
                },
                Message::ToggleView => {
                    &&& final(self).input == old(self).input
                    &&& final(self).show_domain_list == !old(self).show_domain_list
                    &&& final(self).content_pieces == old(self).content_pieces
                    &&& final(self).base_domain == old(self).base_domain
                    &&& e is Nothing
                },
                Message::LinkClicked(url) => {
                    &&& *final(self) == *old(self)
                    &&& e matches Effect::Fetch(u) && u@ == spec_resolve_link(
                        old(self).base_domain@,
                        url@,
                    )
                },
            },
    {
        match message {
            Message::RefreshView => Effect::Nothing,
            Message::InputTextChanged(s) => {
                self.input = s;
                Effect::Nothing
            },
            Message::InputSubmitted => {
                match get_base_domain(&self.input) {
                    Some(b) => {
                        self.base_domain = b;
                    },
                    None => {
                        self.base_domain = String::new();
                    },
                }
                Effect::Fetch(self.input.clone())
            },
            Message::ToggleView => {
                self.show_domain_list = !self.show_domain_list;
                Effect::Nothing
            },
            Message::LinkClicked(url) => Effect::Fetch(self.resolve_link(&url)),
        }
    }

    /// Folds in a page fetched for the address bar: its pieces replace the
    /// shown content, nothing else moves.
    pub fn apply_page(&mut self, pieces: Vec<ContentPiece>)
        ensures
            final(self).content_pieces == pieces,
            final(self).input == old(self).input,
            final(self).show_domain_list == old(self).show_domain_list,
            final(self).base_domain == old(self).base_domain,
    {
        self.content_pieces = pieces;
    }

    /// Folds in a page fetched for a clicked link: its pieces replace the
    /// shown content, the base domain is recomputed from the link's address,
    /// and the address bar is set to that address.
    pub fn apply_link_page(&mut self, url: String, pieces: Vec<ContentPiece>)
        ensures
            final(self).content_pieces == pieces,
            final(self).input == url,
            final(self).show_domain_list == old(self).show_domain_list,
            final(self).base_domain@ == or_empty(spec_base_domain(url@)),
    {
        self.content_pieces = pieces;
        match get_base_domain(&url) {
            Some(b) => {
                self.base_domain = b;
            },
            None => {
                self.base_domain = String::new();
            },
        }
        self.input = url;
    }
}

} // verus!
