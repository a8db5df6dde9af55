//! The derived label of a link whose description is the `$` shorthand.
//!
//! The label comes from the link's target as the WHATWG URL parser reads
//! it: for a network-origin URL the domain, with the path appended unless
//! it is `/`; for an opaque-origin URL the target with the scheme prefix
//! stripped; for a target that does not parse, the target unchanged.

use vstd::prelude::*;
use vstd::string::StringExecFns;

use crate::text::{remove_all, remove_all_str, char_at, str_len};

verus! {

/// What the WHATWG URL parser extracts from a string, or `None` when the
/// string is not a URL: whether the origin is a network ("tuple") origin,
/// the domain, the path, and the scheme.  The result depends on the
/// string alone.
pub uninterp spec fn url_split(href: Seq<char>) -> Option<(bool, Seq<char>, Seq<char>, Seq<char>)>;

/// Relies on `url::Url::parse` and the accessors `Url::origin`,
/// `Url::domain`, `Url::path` and `Url::scheme`: together they extract
/// from the string the four components named by `url_split`, and they
/// depend on the string alone.  A URL without a domain yields the empty
/// domain.
#[verifier::external_body]
fn url_split_exec(href: &str) -> (r: Option<(bool, String, String, String)>)
    ensures
        r is Some <==> url_split(href@) is Some,
        r is Some ==> {
            let (net, domain, path, scheme) = r->Some_0;
            let (snet, sdomain, spath, sscheme) = url_split(href@)->Some_0;
            net == snet && domain@ == sdomain && path@ == spath && scheme@ == sscheme
        },
{
    match url::Url::parse(href) {
        Ok(u) => {
            let net = matches!(u.origin(), url::Origin::Tuple(..));
            let domain = match u.domain() {
                Some(d) => d.to_string(),
                None => String::new(),
            };
            Some((net, domain, u.path().to_string(), u.scheme().to_string()))
        },
        Err(_) => None,
    }
}

/// The visible text that stands in for a `$` link description.
pub open spec fn spec_link_label(href: Seq<char>) -> Seq<char> {
    match url_split(href) {
        Option::None => href,
        Option::Some((net, domain, path, scheme)) => if net {
            if path != "/"@ {
                domain + path
            } else {
                domain
            }
        } else {
            remove_all(href, scheme + ":"@)
        },
    }
}

/// Computes the visible text that stands in for a `$` link description.
pub fn link_label(href: &str) -> (r: String)
    ensures
        r@ == spec_link_label(href@),
{
    match url_split_exec(href) {
        Option::None => String::from_str(href),
        Option::Some((net, domain, path, scheme)) => {
            if net {
                let ps = path.as_str();
                let slash = str_len(ps) == 1 && char_at(ps, 0) == '/';
                proof {
                    reveal_strlit("/");
                    assert(slash ==> path@ =~= "/"@);
                    assert(path@ == "/"@ ==> slash);
                }
                if !slash {
                    let mut r = domain;
                    r.append(path.as_str());
                    r
                } else {
                    domain
                }
            } else {
                let mut pat = scheme;
                pat.append(":");
                remove_all_str(href, pat.as_str())
            }
        },
    }
}

} // verus!
