//! Addresses of the form `http://host:port/path?searchpart`.

use crate::text::{
    chars_of, copy_range, find_char, holds_at, index_of, matches_at, string_of_range,
};
use vstd::prelude::*;
use vstd::string::StringExecFns;

verus! {

/// An address and its parts. The parts are empty until the address has been
/// parsed.
#[derive(Debug, PartialEq, Eq)]
pub struct Url {
    url: String,
    host: String,
    port: String,
    path: String,
    searchpart: String,
}

pub struct UrlModel {
    pub url: Seq<char>,
    pub host: Seq<char>,
    pub port: Seq<char>,
    pub path: Seq<char>,
    pub searchpart: Seq<char>,
}

impl View for Url {
    type V = UrlModel;

    closed spec fn view(&self) -> UrlModel {
        UrlModel {
            url: self.url@,
            host: self.host@,
            port: self.port@,
            path: self.path@,
            searchpart: self.searchpart@,
        }
    }
}

impl Clone for Url {
    fn clone(&self) -> (r: Self)
        ensures
            r@ == self@,
    {
        Url {
            url: self.url.clone(),
            host: self.host.clone(),
            port: self.port.clone(),
            path: self.path.clone(),
            searchpart: self.searchpart.clone(),
        }
    }
}

/// The scheme that is supported.
pub open spec fn scheme() -> Seq<char> {
    "http://"@
}

/// Whether the address starts with the scheme that is supported.
pub open spec fn has_scheme(url: Seq<char>) -> bool {
    holds_at(url, scheme(), 0)
}

/// The address without the scheme at its start.
pub open spec fn without_scheme(url: Seq<char>) -> Seq<char> {
    if has_scheme(url) {
        url.subrange(scheme().len() as int, url.len() as int)
    } else {
        url
    }
}

/// The part before the first `/` of what follows the scheme: the host, and
/// the port if one is named.
pub open spec fn authority(url: Seq<char>) -> Seq<char> {
    let rest = without_scheme(url);
    rest.subrange(0, find_char(rest, '/', 0))
}

/// The part behind the first `/` of what follows the scheme, if there is
/// one.
pub open spec fn resource(url: Seq<char>) -> Option<Seq<char>> {
    let rest = without_scheme(url);
    let slash = find_char(rest, '/', 0);
    if slash < rest.len() {
        Some(rest.subrange(slash + 1, rest.len() as int))
    } else {
        None
    }
}

/// The host: the authority up to its first `:`.
pub open spec fn host_of(url: Seq<char>) -> Seq<char> {
    let a = authority(url);
    a.subrange(0, find_char(a, ':', 0))
}

/// The port: what follows the first `:` of the authority, or `80`.
pub open spec fn port_of(url: Seq<char>) -> Seq<char> {
    let a = authority(url);
    let colon = find_char(a, ':', 0);
    if colon < a.len() {
        a.subrange(colon + 1, a.len() as int)
    } else {
        "80"@
    }
}

/// The path: `/` and the resource up to its first `?`, or `/` alone.
pub open spec fn path_of(url: Seq<char>) -> Seq<char> {
    match resource(url) {
        Some(r) => seq!['/'] + r.subrange(0, find_char(r, '?', 0)),
        None => seq!['/'],
    }
}

/// The search part: what follows the first `?` of the resource, or nothing.
pub open spec fn searchpart_of(url: Seq<char>) -> Seq<char> {
    match resource(url) {
        Some(r) => {
            let mark = find_char(r, '?', 0);
            if mark < r.len() {
                r.subrange(mark + 1, r.len() as int)
            } else {
                Seq::empty()
            }
        },
        None => Seq::empty(),
    }
}

/// The address with its parts.
pub open spec fn parsed(url: Seq<char>) -> UrlModel {
    UrlModel {
        url,
        host: host_of(url),
        port: port_of(url),
        path: path_of(url),
        searchpart: searchpart_of(url),
    }
}

impl Url {
    /// An address that has not been parsed.
    pub fn new(url: String) -> (r: Self)
        ensures
            r@ == (UrlModel {
                url: url@,
                host: Seq::empty(),
                port: Seq::empty(),
                path: Seq::empty(),
                searchpart: Seq::empty(),
            }),
    {
        Self {
            url,
            host: String::new(),
            port: String::new(),
            path: String::new(),
            searchpart: String::new(),
        }
    }

    /// Finds the parts of the address.
    ///
    /// An address that does not start with `http://` is refused, and left as
    /// it is.
    pub fn parse(&mut self) -> (r: Result<Self, String>)
        ensures
            has_scheme(old(self)@.url) ==> r is Ok && r->Ok_0@ == parsed(old(self)@.url)
                && final(self)@ == parsed(old(self)@.url),
            !has_scheme(old(self)@.url) ==> r is Err && r->Err_0@
                == "Only HTTP schema is supported."@ && final(self)@ == old(self)@,
    {
        if !self.is_http() {
            return Err(String::from_str("Only HTTP schema is supported."));
        }
        self.host = self.extract_host();
        self.port = self.extract_port();
        self.path = self.extract_path();
        self.searchpart = self.extract_searchpart();
        Ok(self.clone())
    }

    pub fn host(&self) -> (r: String)
        ensures
            r@ == self@.host,
    {
        self.host.clone()
    }

    pub fn port(&self) -> (r: String)
        ensures
            r@ == self@.port,
    {
        self.port.clone()
    }

    pub fn path(&self) -> (r: String)
        ensures
            r@ == self@.path,
    {
        self.path.clone()
    }

    pub fn searchpart(&self) -> (r: String)
        ensures
            r@ == self@.searchpart,
    {
        self.searchpart.clone()
    }

    fn is_http(&self) -> (r: bool)
        ensures
            r == has_scheme(self@.url),
    {
        let text = chars_of(self.url.as_str());
        let pattern = chars_of("http://");
        matches_at(&text, &pattern, 0)
    }

    /// What follows the scheme at the start of the address.
    fn rest(&self) -> (r: Vec<char>)
        ensures
            r@ == without_scheme(self@.url),
    {
        let text = chars_of(self.url.as_str());
        let pattern = chars_of("http://");
        if matches_at(&text, &pattern, 0) {
            copy_range(&text, pattern.len(), text.len())
        } else {
            assert(text@.subrange(0, text.len() as int) =~= text@);
            copy_range(&text, 0, text.len())
        }
    }

    /// The authority as a list of characters.
    fn authority(&self) -> (r: Vec<char>)
        ensures
            r@ == authority(self@.url),
    {
        let rest = self.rest();
        let slash = index_of(&rest, '/', 0);
        let mut r: Vec<char> = Vec::new();
        let mut i: usize = 0;
        while i < slash
            invariant
                i <= slash <= rest.len(),
                r@ == rest@.subrange(0, i as int),
            decreases slash - i,
        {
            r.push(rest[i]);
            i += 1;
        }
        r
    }

    /// The resource as a list of characters, if there is one.
    fn resource(&self) -> (r: Option<Vec<char>>)
        ensures
            match resource(self@.url) {
                Some(s) => r is Some && r->0@ == s,
                None => r is None,
            },
    {
        let rest = self.rest();
        let slash = index_of(&rest, '/', 0);
        if slash < rest.len() {
            let mut r: Vec<char> = Vec::new();
            let mut i: usize = slash + 1;
            while i < rest.len()
                invariant
                    slash + 1 <= i <= rest.len(),
                    r@ == rest@.subrange(slash + 1, i as int),
                decreases rest.len() - i,
            {
                r.push(rest[i]);
                i += 1;
            }
            Some(r)
        } else {
            None
        }
    }

    fn extract_host(&self) -> (r: String)
        ensures
            r@ == host_of(self@.url),
    {
        let authority = self.authority();
        let colon = index_of(&authority, ':', 0);
        string_of_range(&authority, 0, colon)
    }

    fn extract_port(&self) -> (r: String)
        ensures
            r@ == port_of(self@.url),
    {
        let authority = self.authority();
        let colon = index_of(&authority, ':', 0);
        if colon < authority.len() {
            string_of_range(&authority, colon + 1, authority.len())
        } else {
            String::from_str("80")
        }
    }

    fn extract_path(&self) -> (r: String)
        ensures
            r@ == path_of(self@.url),
    {
        let mut path = String::new();
        path.push('/');
        assert(path@ =~= seq!['/']);
        match self.resource() {
            Some(resource) => {
                let mark = index_of(&resource, '?', 0);
                let part = string_of_range(&resource, 0, mark);
                path.append(part.as_str());
                path
            },
            None => path,
        }
    }

    fn extract_searchpart(&self) -> (r: String)
        ensures
            r@ == searchpart_of(self@.url),
    {
        match self.resource() {
            Some(resource) => {
                let mark = index_of(&resource, '?', 0);
                if mark < resource.len() {
                    string_of_range(&resource, mark + 1, resource.len())
                } else {
                    String::new()
                }
            },
            None => String::new(),
        }
    }
}

} // verus!
