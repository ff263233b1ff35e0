//! The address of the master, as it is given on the command line: a host and a
//! port, or a URL that starts with `http://`.

use vstd::prelude::*;

use crate::text;
use crate::text::{starts_with, trimmed};

verus! {

/// The address asks for an encrypted connection.
#[derive(Debug, Clone, Copy, PartialEq, Eq, Structural)]
pub struct HttpsUnsupported;

impl HttpsUnsupported {
    /// The error as a message.
    pub fn message(&self) -> (r: String)
        ensures
            r@
                == "https:// master endpoints are not supported by cvd-cli yet; use host:port or http://host:port"@,
    {
        "https:// master endpoints are not supported by cvd-cli yet; use host:port or http://host:port".to_owned()
    }
}

/// The URL that an address stands for; none where it asks for encryption.
pub open spec fn url_of(address: Seq<char>) -> Option<Seq<char>> {
    let t = trimmed(address);
    if starts_with(t, "https://"@) {
        None
    } else if starts_with(t, "http://"@) {
        Some(t)
    } else {
        Some("http://"@ + t)
    }
}

/// The URL of the master at the given address.
pub fn resolve(master_arg: &str) -> (r: Result<String, HttpsUnsupported>)
    ensures
        match r {
            Ok(url) => url_of(master_arg@) == Some(url@),
            Err(_) => url_of(master_arg@) is None,
        },
{
    let cs = text::chars_of(master_arg);
    let t = text::trim(&cs);
    if text::has_prefix(&t, "https://") {
        Err(HttpsUnsupported)
    } else if text::has_prefix(&t, "http://") {
        Ok(text::string_of(&t))
    } else {
        let mut s = "http://".to_owned();
        let host = text::string_of(&t);
        s.push_str(host.as_str());
        Ok(s)
    }
}

/// Every URL that an address stands for starts with `http://`.
pub proof fn law_url_is_plain_http(address: Seq<char>)
    requires
        url_of(address) is Some,
    ensures
        starts_with(url_of(address)->Some_0, "http://"@),
{
    let t = trimmed(address);
    let p = "http://"@;
    assert((p + t).take(p.len() as int) =~= p);
}

/// The scheme may be left out, and white space around an address says nothing. An
/// address that asks for encryption is refused.
pub proof fn law_scheme_may_be_left_out(a: Seq<char>)
    requires
        a.len() > 0,
        !text::is_white(a[0]),
        !text::is_white(a.last()),
    ensures
        !starts_with(a, "http://"@) && !starts_with(a, "https://"@) ==> url_of(a) == url_of(
            "http://"@ + a,
        ),
        url_of("http://"@ + a) == Some("http://"@ + a),
        url_of("https://"@ + a) is None,
        url_of(a) == url_of(trimmed(a)),
{
    reveal_strlit("http://");
    reveal_strlit("https://");
    let plain = "http://"@ + a;
    let other = "https://"@ + a;
    text::lemma_trimmed_fixed(a);
    assert(plain[0] == 'h' && plain.last() == a.last());
    assert(other[0] == 'h' && other.last() == a.last());
    text::lemma_trimmed_fixed(plain);
    text::lemma_trimmed_fixed(other);
    assert(plain.take(7) =~= "http://"@);
    assert(other.take(8) =~= "https://"@);
    assert(plain[4] == ':' && "https://"@[4] == 's');
    assert(!starts_with(plain, "https://"@)) by {
        if starts_with(plain, "https://"@) {
            assert(plain.take(8)[4] == plain[4]);
        }
    }
}

} // verus!
