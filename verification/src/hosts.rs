//! The host-list extractor: the `hosts` key of the main document maps
//! environment names to addresses, in source order.

use vstd::prelude::*;

use crate::doc::{DocValue, spec_map_get};
use crate::schema::{Host, Hosts, view_hosts};

verus! {

#[derive(Debug, PartialEq)]
pub enum HostsError {
    NotFound,
    MissingEnv,
    MissingAddress(String),
}

pub ghost enum SpecHostsError {
    NotFound,
    MissingEnv,
    MissingAddress(Seq<char>),
}

pub open spec fn view_hosts_err(e: HostsError) -> SpecHostsError {
    match e {
        HostsError::NotFound => SpecHostsError::NotFound,
        HostsError::MissingEnv => SpecHostsError::MissingEnv,
        HostsError::MissingAddress(env) => SpecHostsError::MissingAddress(env@),
    }
}

impl HostsError {
    /// One-line description of the failure.
    pub fn default_fmt(&self) -> (r: String)
        ensures
            match self {
                HostsError::NotFound => r@ == "No hosts were specified."@,
                HostsError::MissingEnv => r@ == "Missing environment key for host."@,
                HostsError::MissingAddress(env) => r@ == "Missing address value for environment: "@ + env@,
            },
    {
        match self {
            HostsError::NotFound => "No hosts were specified.".to_owned(),
            HostsError::MissingEnv => "Missing environment key for host.".to_owned(),
            HostsError::MissingAddress(env) => "Missing address value for environment: ".to_owned().concat(
                env.as_str(),
            ),
        }
    }
}

/// The host pairs of a host-list mapping, in order: every key and value
/// must be a string.
pub open spec fn spec_parse_host_entries(entries: Seq<(DocValue, DocValue)>) -> Result<
    Seq<(Seq<char>, Seq<char>)>,
    SpecHostsError,
>
    decreases entries.len(),
{
    if entries.len() == 0 {
        Ok(Seq::empty())
    } else {
        match spec_parse_host_entries(entries.drop_last()) {
            Err(e) => Err(e),
            Ok(hs) => match entries.last().0 {
                DocValue::Str(env) => match entries.last().1 {
                    DocValue::Str(addr) => Ok(hs.push((env@, addr@))),
                    _ => Err(SpecHostsError::MissingAddress(env@)),
                },
                _ => Err(SpecHostsError::MissingEnv),
            },
        }
    }
}

/// What the `hosts` key of the main document yields.
pub open spec fn spec_parse_hosts(main: DocValue) -> Result<Seq<(Seq<char>, Seq<char>)>, SpecHostsError> {
    match main {
        DocValue::Hash(m) => match spec_map_get(m@, "hosts"@) {
            Some(DocValue::Hash(hm)) => spec_parse_host_entries(hm@),
            _ => Err(SpecHostsError::NotFound),
        },
        _ => Err(SpecHostsError::NotFound),
    }
}

/// An already-failed host list keeps its failure.
proof fn lemma_parse_hosts_err_extends(entries: Seq<(DocValue, DocValue)>, i: int)
    requires
        0 <= i <= entries.len(),
        spec_parse_host_entries(entries.subrange(0, i)) is Err,
    ensures
        spec_parse_host_entries(entries) == spec_parse_host_entries(entries.subrange(0, i)),
    decreases entries.len() - i,
{
    if i < entries.len() {
        assert(entries.subrange(0, i + 1).drop_last() =~= entries.subrange(0, i));
        assert(entries.subrange(0, i + 1).len() != 0);
        lemma_parse_hosts_err_extends(entries, i + 1);
    } else {
        assert(entries.subrange(0, i) =~= entries);
    }
}

/// Extractor for the `hosts` section of the main document.
pub struct HostsParser {
}

impl HostsParser {
    /// Extract the host list (see [`spec_parse_hosts`]).
    #[verifier::loop_isolation(false)]
    pub fn parse(main: &DocValue) -> (r: Result<Hosts, HostsError>)
        ensures
            match r {
                Ok(hs) => spec_parse_hosts(*main) == Ok::<Seq<(Seq<char>, Seq<char>)>, SpecHostsError>(
                    view_hosts(hs@),
                ),
                Err(e) => spec_parse_hosts(*main) == Err::<Seq<(Seq<char>, Seq<char>)>, SpecHostsError>(
                    view_hosts_err(e),
                ),
            },
    {
        let entries = match main {
            DocValue::Hash(m) => m,
            _ => {
                return Err(HostsError::NotFound);
            },
        };
        let raw_hosts = match crate::doc::map_get(entries, "hosts") {
            Some(DocValue::Hash(hm)) => hm,
            _ => {
                return Err(HostsError::NotFound);
            },
        };
        let mut hosts: Hosts = Vec::new();
        proof {
            assert(raw_hosts@.subrange(0, 0) =~= Seq::<(DocValue, DocValue)>::empty());
            assert(view_hosts(hosts@) =~= Seq::<(Seq<char>, Seq<char>)>::empty());
        }
        let n = raw_hosts.len();
        let mut i: usize = 0;
        while i < n
            invariant
                i <= n,
                n == raw_hosts@.len(),
                spec_parse_host_entries(raw_hosts@.subrange(0, i as int)) == Ok::<
                    Seq<(Seq<char>, Seq<char>)>,
                    SpecHostsError,
                >(view_hosts(hosts@)),
            decreases n - i,
        {
            let ghost pre = raw_hosts@.subrange(0, i as int);
            let ghost post = raw_hosts@.subrange(0, i as int + 1);
            proof {
                assert(post.drop_last() =~= pre);
                assert(post.last() == raw_hosts@[i as int]);
            }
            let env = match &raw_hosts[i].0 {
                DocValue::Str(env) => env,
                _ => {
                    proof {
                        lemma_parse_hosts_err_extends(raw_hosts@, i as int + 1);
                    }
                    return Err(HostsError::MissingEnv);
                },
            };
            let addr = match &raw_hosts[i].1 {
                DocValue::Str(addr) => addr,
                _ => {
                    proof {
                        lemma_parse_hosts_err_extends(raw_hosts@, i as int + 1);
                    }
                    return Err(HostsError::MissingAddress(env.clone()));
                },
            };
            let ghost hostsv = hosts@;
            hosts.push(Host { env: env.clone(), address: addr.clone() });
            proof {
                assert(hosts@.drop_last() =~= hostsv);
            }
            i += 1;
        }
        proof {
            assert(raw_hosts@.subrange(0, n as int) =~= raw_hosts@);
        }
        Ok(hosts)
    }
}

} // verus!
