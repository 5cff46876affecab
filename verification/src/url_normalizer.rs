//! Where a request goes, as far as its address tells.

use crate::config::Config;
use crate::text::{after_prefix, concat, copy_list, ends_with, first_cut, has_suffix, same, split_once, strip_prefix};
use vstd::prelude::*;

verus! {

/// Does a host lie in a domain: is it the domain or one below it?
pub open spec fn in_domain(host: Seq<char>, domain: Seq<char>) -> bool {
    host == domain || has_suffix(host, "."@ + domain)
}

pub open spec fn in_some_domain(host: Seq<char>, domains: Seq<Seq<char>>) -> bool {
    exists|i: int| 0 <= i < domains.len() && in_domain(host, #[trigger] domains[i])
}

/// Tells hosts apart by the domains that a configuration declares.
pub struct UrlNormalizer {
    pub external_domains: Vec<String>,
}

impl UrlNormalizer {
    pub fn new(config: &Config) -> (r: Self)
        ensures
            r.external_domains.deep_view() == config.deep_view().external_domains,
    {
        UrlNormalizer { external_domains: copy_list(&config.external_domains) }
    }

    /// Is a host declared to be somebody else's?
    pub fn is_external_host(&self, host: &str) -> (r: bool)
        ensures
            r == in_some_domain(host@, self.external_domains.deep_view()),
    {
        let ghost all = self.external_domains.deep_view();
        let mut i: usize = 0;
        while i < self.external_domains.len()
            invariant
                i <= self.external_domains.len(),
                all == self.external_domains.deep_view(),
                forall|j: int| 0 <= j < i ==> !in_domain(host@, #[trigger] all[j]),
            decreases self.external_domains.len() - i,
        {
            let domain = self.external_domains[i].as_str();
            assert(all[i as int] == domain@);
            if same(host, domain) || ends_with(host, concat(".", domain).as_str()) {
                return true;
            }
            i += 1;
        }
        false
    }
}

/// The environment variable that the base of an address stands in: an
/// interpolation of it at the start, or the key of such an address.
pub open spec fn env_var_base(path: Seq<char>) -> Option<Seq<char>> {
    match after_prefix(path, "ENV_VAR:"@) {
        Some(rest) => match first_cut(rest, ":"@) {
            Some((name, _)) => Some(name),
            None => Some(rest),
        },
        None => match after_prefix(path, "${process.env."@) {
            Some(rest) => match first_cut(rest, "}"@) {
                Some((name, _)) => Some(name),
                None => None,
            },
            None => None,
        },
    }
}

pub fn read_env_var_base(path: &str) -> (r: Option<String>)
    ensures
        r.deep_view() == env_var_base(path@),
{
    match strip_prefix(path, "ENV_VAR:") {
        Some(rest) => match split_once(rest.as_str(), ":") {
            Some((name, _)) => Some(name),
            None => Some(rest),
        },
        None => match strip_prefix(path, "${process.env.") {
            Some(rest) => match split_once(rest.as_str(), "}") {
                Some((name, _)) => Some(name),
                None => None,
            },
            None => None,
        },
    }
}

} // verus!
