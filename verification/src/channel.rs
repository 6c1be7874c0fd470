//! Channels: named bundles of repodata identified by a base URL, and the
//! derivation of per-platform URLs.

use vstd::prelude::*;

use crate::names::str_eq;
use crate::platform::Platform;

verus! {

/// The scheme of a channel URL. Only these are supported.
#[derive(Debug, Clone, Copy, PartialEq, Eq, Structural)]
pub enum UrlScheme {
    /// A local file tree (`file://`).
    File,
    /// Plain HTTP.
    Http,
    /// HTTP over TLS.
    Https,
}

/// True when `p` is a prefix of `s`.
pub open spec fn spec_starts_with(s: Seq<char>, p: Seq<char>) -> bool {
    p.len() <= s.len() && s.subrange(0, p.len() as int) == p
}

/// The scheme of a URL, when it is a supported one.
pub open spec fn spec_scheme(url: Seq<char>) -> Option<UrlScheme> {
    if spec_starts_with(url, "file://"@) {
        Some(UrlScheme::File)
    } else if spec_starts_with(url, "http://"@) {
        Some(UrlScheme::Http)
    } else if spec_starts_with(url, "https://"@) {
        Some(UrlScheme::Https)
    } else {
        None
    }
}

/// True when `p` is a prefix of `s`, executable form.
pub fn starts_with(s: &str, p: &str) -> (r: bool)
    ensures
        r == spec_starts_with(s@, p@),
{
    let sl = s.unicode_len();
    let pl = p.unicode_len();
    if pl > sl {
        return false;
    }
    let head = s.substring_char(0, pl);
    str_eq(head, p)
}

/// A named bundle of repodata: a base URL and a canonical display name.
///
/// The base URL always ends with a slash, so joining a relative path is
/// plain concatenation.
#[derive(Debug, Clone, PartialEq, Eq, Hash)]
pub struct Channel {
    base_url: String,
    name: String,
}

impl Channel {
    /// The base URL, as characters.
    pub closed spec fn spec_base_url(&self) -> Seq<char> {
        self.base_url@
    }

    /// The canonical name, as characters.
    pub closed spec fn spec_name(&self) -> Seq<char> {
        self.name@
    }

    /// Well-formedness: a supported scheme and a trailing slash.
    pub open spec fn wf(&self) -> bool {
        &&& spec_scheme(self.spec_base_url()) is Some
        &&& self.spec_base_url().len() > 0
        &&& self.spec_base_url().last() == '/'
    }

    /// Builds a channel from a base URL and a canonical name. The URL must
    /// use the `file`, `http` or `https` scheme; a missing trailing slash is
    /// added.
    pub fn from_url(url: &str, name: &str) -> (r: Option<Channel>)
        ensures
            match r {
                Some(c) => spec_scheme(url@) is Some && c.wf() && c.spec_name() == name@ && (
                c.spec_base_url() == url@ || c.spec_base_url() == url@.push('/')),
                None => spec_scheme(url@) is None,
            },
    {
        let scheme_ok = starts_with(url, "file://") || starts_with(url, "http://") || starts_with(
            url,
            "https://",
        );
        if !scheme_ok {
            return None;
        }
        let len = url.unicode_len();
        proof {
            reveal_strlit("file://");
            reveal_strlit("http://");
            reveal_strlit("https://");
            assert(len >= 7);
        }
        let mut base = url.to_owned();
        if url.get_char(len - 1) != '/' {
            crate::names::push_char(&mut base, '/');
        }
        proof {
            if spec_starts_with(url@, "file://"@) {
                lemma_slash_keeps_prefix(url@, base@, "file://"@);
            } else if spec_starts_with(url@, "http://"@) {
                lemma_slash_keeps_prefix(url@, base@, "http://"@);
            } else {
                lemma_slash_keeps_prefix(url@, base@, "https://"@);
            }
        }
        Some(Channel { base_url: base, name: name.to_owned() })
    }

    /// The canonical display name of the channel.
    pub fn canonical_name(&self) -> (r: &str)
        ensures
            r@ == self.spec_name(),
    {
        self.name.as_str()
    }

    /// The base URL of the channel.
    pub fn base_url(&self) -> (r: &str)
        ensures
            r@ == self.spec_base_url(),
    {
        self.base_url.as_str()
    }

    /// The scheme of the channel's base URL.
    pub fn scheme(&self) -> (r: UrlScheme)
        requires
            self.wf(),
        ensures
            Some(r) == spec_scheme(self.spec_base_url()),
    {
        if starts_with(self.base_url.as_str(), "file://") {
            UrlScheme::File
        } else if starts_with(self.base_url.as_str(), "http://") {
            UrlScheme::Http
        } else {
            UrlScheme::Https
        }
    }

    /// The URL of the subdirectory for a platform: the base URL, the
    /// platform's name, and a trailing slash.
    pub fn platform_url(&self, platform: Platform) -> (r: String)
        ensures
            r@ == self.spec_base_url() + platform.spec_name() + "/"@,
    {
        let mut out = self.base_url.clone();
        out.append(platform.name());
        out.append("/");
        proof {
            assert(out@ =~= self.spec_base_url() + platform.spec_name() + "/"@);
        }
        out
    }
}

/// Appending a slash to a URL keeps every prefix it had.
proof fn lemma_slash_keeps_prefix(url: Seq<char>, base: Seq<char>, p: Seq<char>)
    requires
        spec_starts_with(url, p),
        base == url || base == url.push('/'),
    ensures
        spec_starts_with(base, p),
{
    assert(base.subrange(0, p.len() as int) =~= url.subrange(0, p.len() as int));
}

/// Joins a base that ends with a slash and a relative path: plain
/// concatenation.
pub fn url_join(base: &str, rel: &str) -> (r: String)
    ensures
        r@ == base@ + rel@,
{
    let mut out = base.to_owned();
    out.append(rel);
    out
}

/// Strips the `file://` prefix of a local URL, leaving the filesystem path.
pub fn file_url_path(url: &str) -> (r: Option<String>)
    ensures
        match r {
            Some(p) => spec_starts_with(url@, "file://"@) && p@ == url@.skip(7),
            None => !spec_starts_with(url@, "file://"@),
        },
{
    if !starts_with(url, "file://") {
        return None;
    }
    proof {
        reveal_strlit("file://");
    }
    let len = url.unicode_len();
    let tail = url.substring_char(7, len);
    proof {
        assert(tail@ =~= url@.skip(7));
    }
    Some(tail.to_owned())
}

} // verus!
