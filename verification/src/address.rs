//! Web addresses, as far as the tab strip looks into them.
use vstd::prelude::*;

use crate::text;
use crate::text::opt_text;

verus! {

/// The parts of an address that the strip reads.
#[verifier::ext_equal]
pub struct AddressView {
    /// The whole address, in its normal form.
    pub href: Seq<char>,
    pub host: Option<Seq<char>>,
    pub path: Seq<char>,
}

/// An address.
#[derive(Debug)]
pub struct Address {
    pub href: String,
    pub host: Option<String>,
    pub path: String,
}

impl View for Address {
    type V = AddressView;

    open spec fn view(&self) -> AddressView {
        AddressView { href: self.href@, host: opt_text(self.host), path: self.path@ }
    }
}

impl Address {
    /// A copy of the address.
    pub fn copy(&self) -> (r: Address)
        ensures
            r@ == self@,
    {
        Address {
            href: self.href.clone(),
            host: text::copy_opt(&self.host),
            path: self.path.clone(),
        }
    }
}

/// What `url::Url::parse` makes of a text: the serialization of the URL, its host and
/// its path; none where the text is no absolute URL.
pub uninterp spec fn parsed_url(input: Seq<char>) -> Option<(
    Seq<char>,
    Option<Seq<char>>,
    Seq<char>,
)>;

/// Calls `url::Url::parse` and reads the parts of the URL with `as_str`, `host_str` and
/// `path`. The contract only claims that the parts depend on the text alone: how a text
/// is taken apart is left to the `url` crate.
#[verifier::external_body]
fn url_parse(input: &str) -> (r: Option<(String, Option<String>, String)>)
    ensures
        match r {
            Some((href, host, path)) => parsed_url(input@) == Some(
                (href@, opt_text(host), path@),
            ),
            None => parsed_url(input@) is None,
        },
{
    match url::Url::parse(input) {
        Ok(u) => Some((String::from(u.as_str()), u.host_str().map(String::from), String::from(u.path()))),
        Err(_) => None,
    }
}

/// The lower-case form of a text, as `str::to_lowercase` gives it.
pub uninterp spec fn lowercase(s: Seq<char>) -> Seq<char>;

/// `str::to_lowercase` gives a text's lower-case form, which depends on the text alone.
pub assume_specification[ str::to_lowercase ](s: &str) -> (r: String)
    ensures
        r@ == lowercase(s@),
;

/// The address that a text writes.
pub open spec fn address(input: Seq<char>) -> Option<AddressView> {
    match parsed_url(input) {
        Some((href, host, path)) => Some(AddressView { href, host, path }),
        None => None,
    }
}

/// What an optional address is.
pub open spec fn opt_address(a: Option<Address>) -> Option<AddressView> {
    match a {
        Some(x) => Some(x@),
        None => None,
    }
}

/// Reads an address.
pub fn parse_address(input: &str) -> (r: Option<Address>)
    ensures
        opt_address(r) == address(input@),
{
    match url_parse(input) {
        Some((href, host, path)) => Some(Address { href, host, path }),
        None => None,
    }
}

/// Whether a path is that of the site's root.
pub open spec fn root_path(path: Seq<char>) -> bool {
    path.len() == 0 || path == "/"@
}

/// Whether a path is that of the site's root.
pub fn is_root_path(path: &str) -> (r: bool)
    ensures
        r == root_path(path@),
{
    path.is_empty() || text::same(path, "/")
}

/// Whether a reported address is the root of a site; a text that is no address is not.
pub fn url_is_root(u: &str) -> (r: bool)
    ensures
        r == match address(u@) {
            Some(a) => root_path(a.path),
            None => false,
        },
{
    match parse_address(u) {
        Some(a) => is_root_path(a.path.as_str()),
        None => false,
    }
}

/// The host that a tab may navigate within, in lower case.
pub open spec fn host_within(a: AddressView) -> Option<Seq<char>> {
    match a.host {
        Some(h) => Some(lowercase(h)),
        None => None,
    }
}

/// The host that a tab may navigate within, in lower case.
pub fn allowed_host(a: &Address) -> (r: Option<String>)
    ensures
        opt_text(r) == host_within(a@),
{
    match &a.host {
        Some(h) => Some(h.as_str().to_lowercase()),
        None => None,
    }
}

} // verus!
