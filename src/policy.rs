use vstd::prelude::*;
use vstd::string::StringExecFns;

use crate::error::HttpError;

verus! {

/// The allow-list entry that authorizes every destination.
pub const ALLOW_ALL_HOSTS: &'static str = "insecure:allow-all";

pub open spec fn allow_all_sentinel() -> Seq<char> {
    ALLOW_ALL_HOSTS@
}

/// The host of the URL that `s` parses to; `None` when `s` is no absolute
/// URL or its URL has no host.
pub uninterp spec fn url_host(s: Seq<char>) -> Option<Seq<char>>;

/// Relies on url::Url::parse and url::Url::host_str: the host component of
/// the parsed URL, as a string, when there is one.
#[verifier::external_body]
fn parse_host(s: &str) -> (r: Option<String>)
    ensures
        match r {
            Some(h) => url_host(s@) == Some(h@),
            None => url_host(s@) is None,
        },
{
    url::Url::parse(s).ok().and_then(|u| u.host_str().map(|h| h.to_string()))
}

/// The configuration of the capability for one guest instance.
pub struct HttpCtx {
    /// Destinations the guest may reach; `None` and an empty list deny all.
    pub allowed_hosts: Option<Vec<String>>,
    /// The most requests that may be in flight at once; `None` is unlimited.
    pub max_concurrent_requests: Option<u32>,
}

pub open spec fn strings_view(v: Vec<String>) -> Seq<Seq<char>> {
    v@.map_values(|s: String| s@)
}

pub open spec fn hosts_view(o: Option<&Vec<String>>) -> Option<Seq<Seq<char>>> {
    match o {
        Some(v) => Some(strings_view(*v)),
        None => None,
    }
}

pub open spec fn opt_strings_view(v: Vec<Option<String>>) -> Seq<Option<Seq<char>>> {
    v@.map_values(
        |o: Option<String>|
            match o {
                Some(s) => Some(s@),
                None => None,
            },
    )
}

/// The decision on a request whose URL has host `host` (`None`: no host),
/// under the allow-list `list`, whose entries have the hosts `entry_hosts`.
pub open spec fn decide_allowed(
    host: Option<Seq<char>>,
    list: Option<Seq<Seq<char>>>,
    entry_hosts: Seq<Option<Seq<char>>>,
) -> Result<bool, HttpError> {
    match host {
        None => Err(HttpError::InvalidUrl),
        Some(h) => match list {
            None => Ok(false),
            Some(l) => if l.contains(allow_all_sentinel()) {
                Ok(true)
            } else if exists|i: int| 0 <= i < entry_hosts.len() && (#[trigger] entry_hosts[i]) is None {
                Err(HttpError::InvalidUrl)
            } else {
                Ok(exists|i: int| 0 <= i < entry_hosts.len() && #[trigger] entry_hosts[i] == Some(h))
            },
        },
    }
}

/// The hosts of the entries of an allow-list.
pub open spec fn entry_hosts_of(list: Option<Seq<Seq<char>>>) -> Seq<Option<Seq<char>>> {
    match list {
        Some(l) => l.map_values(|e: Seq<char>| url_host(e)),
        None => Seq::empty(),
    }
}

/// Whether a request to `url` may go out under the allow-list `hosts`.
pub open spec fn allowed(url: Seq<char>, hosts: Option<Seq<Seq<char>>>) -> Result<bool, HttpError> {
    decide_allowed(url_host(url), hosts, entry_hosts_of(hosts))
}

/// Decides a request once the hosts are known: `host` is that of the URL,
/// `entry_hosts` those of the allow-list entries. No host is `InvalidUrl`;
/// no list or an empty one denies; the allow-all sentinel allows; otherwise
/// an entry without a host is `InvalidUrl`, and the request may go out
/// exactly when its host equals, literally, the host of some entry.
pub fn host_is_allowed(
    url_host: Option<&String>,
    allow_list: Option<&Vec<String>>,
    entry_hosts: &Vec<Option<String>>,
) -> (r: Result<bool, HttpError>)
    ensures
        r == decide_allowed(
            match url_host {
                Some(h) => Some(h@),
                None => None,
            },
            hosts_view(allow_list),
            opt_strings_view(*entry_hosts),
        ),
{
    let host = match url_host {
        Some(h) => h,
        None => return Err(HttpError::InvalidUrl),
    };
    let list = match allow_list {
        Some(l) => l,
        None => return Ok(false),
    };
    let ghost view = strings_view(*list);
    let ghost hosts = opt_strings_view(*entry_hosts);
    let sentinel = <String as StringExecFns>::from_str(ALLOW_ALL_HOSTS);
    let mut i: usize = 0;
    while i < list.len()
        invariant
            i <= list.len(),
            view == strings_view(*list),
            url_host == Some(host),
            allow_list == Some(list),
            sentinel@ == allow_all_sentinel(),
            forall|j: int| 0 <= j < i ==> view[j] != allow_all_sentinel(),
        decreases list.len() - i,
    {
        assert(view[i as int] == list@[i as int]@);
        if list[i] == sentinel {
            assert(view[i as int] == allow_all_sentinel());
            assert(view.contains(allow_all_sentinel()));
            return Ok(true);
        }
        i = i + 1;
    }
    assert(!view.contains(allow_all_sentinel()));
    let mut found = false;
    let mut k: usize = 0;
    while k < entry_hosts.len()
        invariant
            k <= entry_hosts.len(),
            hosts == opt_strings_view(*entry_hosts),
            view == strings_view(*list),
            url_host == Some(host),
            allow_list == Some(list),
            !view.contains(allow_all_sentinel()),
            forall|j: int| 0 <= j < k ==> (#[trigger] hosts[j]) is Some,
            found == exists|j: int| 0 <= j < k && #[trigger] hosts[j] == Some(host@),
        decreases entry_hosts.len() - k,
    {
        match &entry_hosts[k] {
            None => {
                assert(hosts[k as int] is None);
                return Err(HttpError::InvalidUrl);
            },
            Some(h) => {
                assert(hosts[k as int] == Some(h@));
                if *h == *host {
                    found = true;
                }
            },
        }
        k = k + 1;
    }
    Ok(found)
}

/// Decides whether `url` may be contacted: parses the URL and every entry of
/// the allow-list for their hosts, then decides by `host_is_allowed`.
pub fn is_allowed(url: &str, allowed_hosts: Option<&Vec<String>>) -> (r: Result<bool, HttpError>)
    ensures
        r == allowed(url@, hosts_view(allowed_hosts)),
{
    let host = parse_host(url);
    let mut entry_hosts: Vec<Option<String>> = Vec::new();
    let ghost expected = entry_hosts_of(hosts_view(allowed_hosts));
    match allowed_hosts {
        Some(list) => {
            let mut k: usize = 0;
            while k < list.len()
                invariant
                    k <= list.len(),
                    expected == strings_view(*list).map_values(|e: Seq<char>| url_host(e)),
                    opt_strings_view(entry_hosts) == expected.take(k as int),
                decreases list.len() - k,
            {
                let h = parse_host(list[k].as_str());
                let ghost before = entry_hosts;
                entry_hosts.push(h);
                assert(opt_strings_view(entry_hosts) =~= opt_strings_view(before).push(
                    match h {
                        Some(s) => Some(s@),
                        None => None,
                    },
                ));
                assert(expected[k as int] == url_host(list@[k as int]@));
                assert(opt_strings_view(entry_hosts) =~= expected.take(k + 1));
                k = k + 1;
            }
            assert(expected.take(k as int) =~= expected);
        },
        None => {
            assert(opt_strings_view(entry_hosts) =~= expected);
        },
    }
    let host_ref = match &host {
        Some(h) => Some(h),
        None => None,
    };
    host_is_allowed(host_ref, allowed_hosts, &entry_hosts)
}

/// With the allow-all sentinel in the list, every URL that has a host may be
/// contacted.
pub proof fn lemma_sentinel_allows_all(url: Seq<char>, list: Seq<Seq<char>>)
    requires
        list.contains(allow_all_sentinel()),
        url_host(url) is Some,
    ensures
        allowed(url, Some(list)) == Ok::<bool, HttpError>(true),
{
}

/// Under a list without the sentinel whose entries all have hosts, a URL may
/// be contacted exactly when its host is the host of some entry.
pub proof fn lemma_exact_host_match(url: Seq<char>, list: Seq<Seq<char>>)
    requires
        url_host(url) is Some,
        !list.contains(allow_all_sentinel()),
        forall|i: int| 0 <= i < list.len() ==> (#[trigger] url_host(list[i])) is Some,
    ensures
        allowed(url, Some(list)) == Ok::<bool, HttpError>(
            exists|i: int| 0 <= i < list.len() && #[trigger] url_host(list[i]) == url_host(url),
        ),
{
    let eh = entry_hosts_of(Some(list));
    assert(eh.len() == list.len());
    assert forall|i: int| 0 <= i < eh.len() implies (#[trigger] eh[i]) is Some by {
        assert(eh[i] == url_host(list[i]));
    }
    let h = url_host(url)->0;
    if exists|i: int| 0 <= i < list.len() && #[trigger] url_host(list[i]) == url_host(url) {
        let i = choose|i: int| 0 <= i < list.len() && #[trigger] url_host(list[i]) == url_host(url);
        assert(eh[i] == Some(h));
    }
    if exists|i: int| 0 <= i < eh.len() && #[trigger] eh[i] == Some(h) {
        let i = choose|i: int| 0 <= i < eh.len() && #[trigger] eh[i] == Some(h);
        assert(url_host(list[i]) == eh[i]);
    }
}

/// No allow-list, or an empty one, denies every destination.
pub proof fn lemma_deny_by_default(url: Seq<char>)
    requires
        url_host(url) is Some,
    ensures
        allowed(url, None) == Ok::<bool, HttpError>(false),
        allowed(url, Some(Seq::empty())) == Ok::<bool, HttpError>(false),
{
    assert(!Seq::<Seq<char>>::empty().contains(allow_all_sentinel()));
}

} // verus!
