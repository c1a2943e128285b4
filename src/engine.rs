//! What a whole scan computes. Every resolution task ends in one call of
//! `Scan::record_lookup`, in whatever order the tasks finish; the laws below
//! hold for every such order, as a sequence of recorded lookups.

use crate::models::host::HostView;
use crate::models::ip::Ip;
use crate::models::scan::{
    answer_ips, has_name, hosts_wf, names_unique, host_with_ip, merged, recorded, with_host, with_ip, with_ips,
    ScanView,
};
use crate::wordlist::{candidates, words_of};
use vstd::prelude::*;

verus! {

/// The addresses recorded for `name`.
pub open spec fn addresses_of(hs: Seq<HostView>, name: Seq<char>) -> Set<Ip> {
    Set::new(
        |ip: Ip|
            exists|i: int| 0 <= i < hs.len() && (#[trigger] hs[i]).name == name && hs[i].ips.contains(ip),
    )
}

/// The hosts as a mapping from each name to the set of its addresses.
pub open spec fn contents(hs: Seq<HostView>) -> Map<Seq<char>, Set<Ip>> {
    Map::new(|n: Seq<char>| has_name(hs, n), |n: Seq<char>| addresses_of(hs, n))
}

/// One finished lookup: the candidate name, and its addresses or `None` if
/// the lookup failed.
pub type Lookup = (Seq<char>, Option<Seq<Ip>>);

/// The scan after the lookups were recorded, in the order given.
pub open spec fn replay(s: ScanView, lookups: Seq<Lookup>) -> ScanView
    decreases lookups.len(),
{
    if lookups.len() == 0 {
        s
    } else {
        recorded(replay(s, lookups.drop_last()), lookups.last().0, lookups.last().1)
    }
}

/// The scan of `domain` before any lookup has finished.
pub open spec fn fresh(domain: Seq<char>) -> ScanView {
    ScanView { hosts: Seq::empty(), domain: domain.push('.'), ticks: 0 }
}

/// A lookup of `name` that answered with `ip` among its addresses.
pub open spec fn answered(lookups: Seq<Lookup>, name: Seq<char>, ip: Ip) -> bool {
    exists|i: int|
        0 <= i < lookups.len() && (#[trigger] lookups[i]).0 == name && answer_ips(lookups[i].1).contains(ip)
}

/// A lookup of `name` that answered with at least one address.
pub open spec fn resolved(lookups: Seq<Lookup>, name: Seq<char>) -> bool {
    exists|i: int|
        0 <= i < lookups.len() && (#[trigger] lookups[i]).0 == name && answer_ips(lookups[i].1).len() > 0
}

/// What the lookups should leave behind: a host for each name that resolved
/// at least once, holding the union of all the addresses answered for it.
pub open spec fn expected(lookups: Seq<Lookup>) -> Map<Seq<char>, Set<Ip>> {
    Map::new(
        |n: Seq<char>| resolved(lookups, n),
        |n: Seq<char>| Set::new(|ip: Ip| answered(lookups, n, ip)),
    )
}

proof fn lemma_with_host(hs: Seq<HostView>, name: Seq<char>)
    requires
        hosts_wf(hs),
    ensures
        hosts_wf(with_host(hs, name)),
        has_name(with_host(hs, name), name),
        addresses_of(with_host(hs, name), name) == addresses_of(hs, name),
        contents(with_host(hs, name)) == (if has_name(hs, name) {
            contents(hs)
        } else {
            contents(hs).insert(name, Set::empty())
        }),
{
    let w = with_host(hs, name);
    if !has_name(hs, name) {
        let e = HostView { name, ips: Seq::empty() };
        assert(w[hs.len() as int] == e);
        assert forall|i: int| 0 <= i < hs.len() implies w[i] == hs[i] by {}
        assert(e.ips.no_duplicates());
        assert forall|m: Seq<char>| has_name(w, m) == (has_name(hs, m) || m == name) by {
            if has_name(w, m) && m != name {
                let i = choose|i: int| 0 <= i < w.len() && (#[trigger] w[i]).name == m;
                assert(hs[i].name == m);
            }
            if has_name(hs, m) {
                let i = choose|i: int| 0 <= i < hs.len() && (#[trigger] hs[i]).name == m;
                assert(w[i].name == m);
            }
        }
        assert forall|m: Seq<char>| #[trigger] addresses_of(w, m) == addresses_of(hs, m) by {
            assert forall|ip: Ip| addresses_of(w, m).contains(ip) implies addresses_of(hs, m).contains(ip) by {
                let i = choose|i: int|
                    0 <= i < w.len() && (#[trigger] w[i]).name == m && w[i].ips.contains(ip);
                assert(i < hs.len());
                assert(hs[i] == w[i]);
            }
            assert forall|ip: Ip| addresses_of(hs, m).contains(ip) implies addresses_of(w, m).contains(ip) by {
                let i = choose|i: int|
                    0 <= i < hs.len() && (#[trigger] hs[i]).name == m && hs[i].ips.contains(ip);
                assert(w[i] == hs[i]);
            }
            assert(addresses_of(w, m) =~= addresses_of(hs, m));
        }
        assert(addresses_of(hs, name) =~= Set::empty()) by {
            assert forall|ip: Ip| !addresses_of(hs, name).contains(ip) by {}
        }
        assert(contents(w) =~= contents(hs).insert(name, Set::empty()));
    }
}

proof fn lemma_with_ip(hs: Seq<HostView>, name: Seq<char>, ip: Ip)
    requires
        hosts_wf(hs),
    ensures
        hosts_wf(with_ip(hs, name, ip)),
        forall|m: Seq<char>| #[trigger] has_name(with_ip(hs, name, ip), m) == has_name(hs, m),
        addresses_of(with_ip(hs, name, ip), name) == (if has_name(hs, name) {
            addresses_of(hs, name).insert(ip)
        } else {
            addresses_of(hs, name)
        }),
        forall|m: Seq<char>|
            m != name ==> #[trigger] addresses_of(with_ip(hs, name, ip), m) == addresses_of(hs, m),
        contents(with_ip(hs, name, ip)) == (if has_name(hs, name) {
            contents(hs).insert(name, addresses_of(hs, name).insert(ip))
        } else {
            contents(hs)
        }),
{
    let w = with_ip(hs, name, ip);
    assert forall|i: int| 0 <= i < w.len() implies #[trigger] w[i] == host_with_ip(hs[i], name, ip)
        && w[i].name == hs[i].name by {}
    assert forall|i: int| 0 <= i < w.len() implies (#[trigger] w[i]).ips.no_duplicates() by {
        assert(hs[i].ips.no_duplicates());
        if hs[i].name == name && !hs[i].ips.contains(ip) {
            let p = hs[i].ips;
            assert forall|a: int, b: int| 0 <= a < b < p.push(ip).len() implies p.push(ip)[a]
                != p.push(ip)[b] by {
                if b == p.len() {
                    assert(p[a] == p.push(ip)[a]);
                }
            }
        }
    }
    assert forall|m: Seq<char>| #[trigger] has_name(w, m) == has_name(hs, m) by {
        if has_name(w, m) {
            let i = choose|i: int| 0 <= i < w.len() && (#[trigger] w[i]).name == m;
            assert(hs[i].name == m);
        }
        if has_name(hs, m) {
            let i = choose|i: int| 0 <= i < hs.len() && (#[trigger] hs[i]).name == m;
            assert(w[i].name == m);
        }
    }
    assert forall|m: Seq<char>| m != name implies #[trigger] addresses_of(w, m) == addresses_of(hs, m) by {
        assert forall|x: Ip| addresses_of(w, m).contains(x) implies addresses_of(hs, m).contains(x) by {
            let i = choose|i: int|
                0 <= i < w.len() && (#[trigger] w[i]).name == m && w[i].ips.contains(x);
            assert(w[i] == hs[i]);
        }
        assert forall|x: Ip| addresses_of(hs, m).contains(x) implies addresses_of(w, m).contains(x) by {
            let i = choose|i: int|
                0 <= i < hs.len() && (#[trigger] hs[i]).name == m && hs[i].ips.contains(x);
            assert(w[i] == hs[i]);
        }
        assert(addresses_of(w, m) =~= addresses_of(hs, m));
    }
    let target = if has_name(hs, name) {
        addresses_of(hs, name).insert(ip)
    } else {
        addresses_of(hs, name)
    };
    assert forall|x: Ip| addresses_of(w, name).contains(x) implies target.contains(x) by {
        let i = choose|i: int|
            0 <= i < w.len() && (#[trigger] w[i]).name == name && w[i].ips.contains(x);
        assert(hs[i].name == name);
        if x != ip {
            if hs[i].ips.contains(ip) {
                assert(hs[i].ips.contains(x));
            } else {
                let k = choose|k: int| 0 <= k < w[i].ips.len() && w[i].ips[k] == x;
                assert(k < hs[i].ips.len());
                assert(hs[i].ips[k] == x);
            }
        }
    }
    assert forall|x: Ip| target.contains(x) implies addresses_of(w, name).contains(x) by {
        if addresses_of(hs, name).contains(x) {
            let i = choose|i: int|
                0 <= i < hs.len() && (#[trigger] hs[i]).name == name && hs[i].ips.contains(x);
            let k = choose|k: int| 0 <= k < hs[i].ips.len() && hs[i].ips[k] == x;
            if !hs[i].ips.contains(ip) {
                assert(w[i].ips[k] == x);
            }
            assert(w[i].ips.contains(x));
        } else {
            let i = choose|i: int| 0 <= i < hs.len() && (#[trigger] hs[i]).name == name;
            if !hs[i].ips.contains(ip) {
                assert(w[i].ips[hs[i].ips.len() as int] == ip);
            }
            assert(w[i].ips.contains(x));
        }
    }
    assert(addresses_of(w, name) =~= target);
    if has_name(hs, name) {
        assert(contents(w) =~= contents(hs).insert(name, addresses_of(hs, name).insert(ip)));
    } else {
        assert(contents(w) =~= contents(hs));
    }
}

/// Recording a list of addresses for a name that has a host, one
/// `add_ip_for_host` after another, keeps the hosts well formed and leaves
/// that host with the union of its addresses and the list; no other host
/// changes.
pub proof fn lemma_with_ips(hs: Seq<HostView>, name: Seq<char>, ips: Seq<Ip>)
    requires
        hosts_wf(hs),
        has_name(hs, name),
    ensures
        hosts_wf(with_ips(hs, name, ips)),
        has_name(with_ips(hs, name, ips), name),
        addresses_of(with_ips(hs, name, ips), name) == addresses_of(hs, name).union(ips.to_set()),
        contents(with_ips(hs, name, ips)) == contents(hs).insert(
            name,
            addresses_of(hs, name).union(ips.to_set()),
        ),
    decreases ips.len(),
{
    if ips.len() == 0 {
        assert(ips.to_set() =~= Set::empty());
        assert(addresses_of(hs, name).union(ips.to_set()) =~= addresses_of(hs, name));
        assert(contents(hs).insert(name, addresses_of(hs, name)) =~= contents(hs));
    } else {
        let prev = with_ips(hs, name, ips.drop_last());
        lemma_with_ips(hs, name, ips.drop_last());
        lemma_with_ip(prev, name, ips.last());
        assert(ips.to_set() =~= ips.drop_last().to_set().insert(ips.last())) by {
            assert forall|x: Ip| ips.to_set().contains(x) implies ips.drop_last().to_set().insert(
                ips.last(),
            ).contains(x) by {
                let k = choose|k: int| 0 <= k < ips.len() && ips[k] == x;
                if k < ips.len() - 1 {
                    assert(ips.drop_last()[k] == x);
                }
            }
            assert forall|x: Ip| ips.drop_last().to_set().insert(ips.last()).contains(x) implies ips.to_set().contains(
                x,
            ) by {
                if x != ips.last() {
                    let k = choose|k: int| 0 <= k < ips.drop_last().len() && ips.drop_last()[k] == x;
                    assert(ips[k] == x);
                }
            }
        }
        assert(addresses_of(hs, name).union(ips.drop_last().to_set()).insert(ips.last())
            =~= addresses_of(hs, name).union(ips.to_set()));
        assert(contents(hs).insert(name, addresses_of(hs, name).union(ips.drop_last().to_set())).insert(
            name,
            addresses_of(hs, name).union(ips.to_set()),
        ) =~= contents(hs).insert(name, addresses_of(hs, name).union(ips.to_set())));
    }
}

/// Merging one answer into well-formed hosts keeps them well formed; an
/// answer without addresses changes nothing, and any other answer adds its
/// addresses to those of its name, with a host for the name if it had none.
pub proof fn lemma_merged(hs: Seq<HostView>, name: Seq<char>, ips: Seq<Ip>)
    requires
        hosts_wf(hs),
    ensures
        hosts_wf(merged(hs, name, ips)),
        contents(merged(hs, name, ips)) == (if ips.len() == 0 {
            contents(hs)
        } else {
            contents(hs).insert(name, addresses_of(hs, name).union(ips.to_set()))
        }),
{
    if ips.len() > 0 {
        let h = with_host(hs, name);
        lemma_with_host(hs, name);
        lemma_with_ips(h, name, ips);
        assert(contents(h).insert(name, addresses_of(hs, name).union(ips.to_set())) =~= contents(
            hs,
        ).insert(name, addresses_of(hs, name).union(ips.to_set())));
    }
}

/// Recording a lookup a second time with the same answer changes no host:
/// addresses already listed are not listed again.
pub proof fn lemma_merge_idempotent(hs: Seq<HostView>, name: Seq<char>, ips: Seq<Ip>)
    requires
        hosts_wf(hs),
    ensures
        merged(merged(hs, name, ips), name, ips) == merged(hs, name, ips),
{
    if ips.len() > 0 {
        let m = merged(hs, name, ips);
        lemma_merged(hs, name, ips);
        lemma_with_host(hs, name);
        lemma_with_ips(with_host(hs, name), name, ips);
        assert(with_host(m, name) == m);
        assert forall|x: Ip| ips.contains(x) implies addresses_of(m, name).contains(x) by {
            assert(ips.to_set().contains(x));
        }
        lemma_with_ips_known(m, name, ips);
    }
}

proof fn lemma_with_ip_known(hs: Seq<HostView>, name: Seq<char>, ip: Ip)
    requires
        names_unique(hs),
        addresses_of(hs, name).contains(ip),
    ensures
        with_ip(hs, name, ip) == hs,
{
    let i = choose|i: int|
        0 <= i < hs.len() && (#[trigger] hs[i]).name == name && hs[i].ips.contains(ip);
    assert forall|j: int| 0 <= j < hs.len() implies host_with_ip(#[trigger] hs[j], name, ip)
        == hs[j] by {
        if hs[j].name == name && j != i {
            if j < i {
                assert(hs[j].name != hs[i].name);
            } else {
                assert(hs[i].name != hs[j].name);
            }
        }
    }
    assert(with_ip(hs, name, ip) =~= hs);
}

/// Recording again addresses that a host already lists, one `add_ip_for_host`
/// after another, changes nothing.
pub proof fn lemma_with_ips_known(hs: Seq<HostView>, name: Seq<char>, ips: Seq<Ip>)
    requires
        names_unique(hs),
        forall|x: Ip| ips.contains(x) ==> addresses_of(hs, name).contains(x),
    ensures
        with_ips(hs, name, ips) == hs,
    decreases ips.len(),
{
    if ips.len() > 0 {
        assert forall|x: Ip| ips.drop_last().contains(x) implies addresses_of(hs, name).contains(x) by {
            let k = choose|k: int| 0 <= k < ips.drop_last().len() && ips.drop_last()[k] == x;
            assert(ips[k] == x);
            assert(ips.contains(x));
        }
        lemma_with_ips_known(hs, name, ips.drop_last());
        assert(ips.contains(ips.last())) by {
            assert(ips[ips.len() - 1] == ips.last());
        }
        lemma_with_ip_known(hs, name, ips.last());
    }
}

/// The addresses answered for `name` by the lookups.
pub open spec fn answered_set(lookups: Seq<Lookup>, name: Seq<char>) -> Set<Ip> {
    Set::new(|ip: Ip| answered(lookups, name, ip))
}

proof fn lemma_absent_no_addresses(hs: Seq<HostView>, name: Seq<char>)
    requires
        !has_name(hs, name),
    ensures
        addresses_of(hs, name) == Set::<Ip>::empty(),
{
    assert forall|ip: Ip| !addresses_of(hs, name).contains(ip) by {
        if addresses_of(hs, name).contains(ip) {
            let i = choose|i: int|
                0 <= i < hs.len() && (#[trigger] hs[i]).name == name && hs[i].ips.contains(ip);
            assert(has_name(hs, name));
        }
    }
    assert(addresses_of(hs, name) =~= Set::<Ip>::empty());
}

proof fn lemma_last_lookup(lookups: Seq<Lookup>, m: Seq<char>)
    requires
        lookups.len() > 0,
    ensures
        resolved(lookups, m) == (resolved(lookups.drop_last(), m) || (lookups.last().0 == m
            && answer_ips(lookups.last().1).len() > 0)),
        answered_set(lookups, m) == (if lookups.last().0 == m {
            answered_set(lookups.drop_last(), m).union(answer_ips(lookups.last().1).to_set())
        } else {
            answered_set(lookups.drop_last(), m)
        }),
{
    let p = lookups.drop_last();
    let k = lookups.len() - 1;
    assert(lookups[k] == lookups.last());
    if resolved(lookups, m) {
        let i = choose|i: int|
            0 <= i < lookups.len() && (#[trigger] lookups[i]).0 == m && answer_ips(lookups[i].1).len() > 0;
        if i < k {
            assert(p[i] == lookups[i]);
        }
    }
    if resolved(p, m) {
        let i = choose|i: int|
            0 <= i < p.len() && (#[trigger] p[i]).0 == m && answer_ips(p[i].1).len() > 0;
        assert(lookups[i] == p[i]);
    }
    let target = if lookups.last().0 == m {
        answered_set(p, m).union(answer_ips(lookups.last().1).to_set())
    } else {
        answered_set(p, m)
    };
    assert forall|ip: Ip| answered_set(lookups, m).contains(ip) implies target.contains(ip) by {
        let i = choose|i: int|
            0 <= i < lookups.len() && (#[trigger] lookups[i]).0 == m && answer_ips(lookups[i].1).contains(ip);
        if i < k {
            assert(p[i] == lookups[i]);
        }
    }
    assert forall|ip: Ip| target.contains(ip) implies answered_set(lookups, m).contains(ip) by {
        if answered_set(p, m).contains(ip) {
            let i = choose|i: int|
                0 <= i < p.len() && (#[trigger] p[i]).0 == m && answer_ips(p[i].1).contains(ip);
            assert(lookups[i] == p[i]);
        } else {
            assert(answer_ips(lookups[k].1).contains(ip));
        }
    }
    assert(answered_set(lookups, m) =~= target);
}

proof fn lemma_replay_hosts(s: ScanView, lookups: Seq<Lookup>)
    requires
        s.hosts.len() == 0,
    ensures
        hosts_wf(replay(s, lookups).hosts),
        forall|m: Seq<char>| #[trigger] has_name(replay(s, lookups).hosts, m) == resolved(lookups, m),
        forall|m: Seq<char>| #[trigger] addresses_of(replay(s, lookups).hosts, m) == answered_set(lookups, m),
    decreases lookups.len(),
{
    let h = replay(s, lookups).hosts;
    if lookups.len() == 0 {
        assert forall|m: Seq<char>| #[trigger] addresses_of(h, m) == answered_set(lookups, m) by {
            assert(addresses_of(h, m) =~= answered_set(lookups, m));
        }
    } else {
        let p = lookups.drop_last();
        let prev = replay(s, p).hosts;
        let n = lookups.last().0;
        let ips = answer_ips(lookups.last().1);
        lemma_replay_hosts(s, p);
        lemma_merged(prev, n, ips);
        assert(h == merged(prev, n, ips));
        assert forall|m: Seq<char>| #[trigger] has_name(h, m) == resolved(lookups, m) by {
            lemma_last_lookup(lookups, m);
            assert(contents(h).dom().contains(m) == has_name(h, m));
            assert(contents(prev).dom().contains(m) == has_name(prev, m));
        }
        assert forall|m: Seq<char>| #[trigger] addresses_of(h, m) == answered_set(lookups, m) by {
            lemma_last_lookup(lookups, m);
            assert(contents(h).dom().contains(m) == has_name(h, m));
            assert(contents(prev).dom().contains(m) == has_name(prev, m));
            if has_name(h, m) {
                assert(contents(h)[m] == addresses_of(h, m));
                if has_name(prev, m) {
                    assert(contents(prev)[m] == addresses_of(prev, m));
                }
                if ips.len() == 0 {
                    assert(ips.to_set() =~= Set::<Ip>::empty());
                    assert(answered_set(p, m).union(ips.to_set()) =~= answered_set(p, m));
                }
                if m == n && ips.len() > 0 {
                    if !has_name(prev, m) {
                        lemma_absent_no_addresses(prev, m);
                    }
                }
            } else {
                lemma_absent_no_addresses(h, m);
                lemma_absent_no_addresses(prev, m);
                if m == n {
                    assert(ips.len() == 0);
                    assert(ips.to_set() =~= Set::<Ip>::empty());
                    assert(answered_set(p, m).union(ips.to_set()) =~= answered_set(p, m));
                }
            }
        }
    }
}

/// Every finished lookup counts once in progress, whatever it answered.
pub proof fn lemma_progress(s: ScanView, lookups: Seq<Lookup>)
    ensures
        replay(s, lookups).ticks == s.ticks + lookups.len(),
        replay(s, lookups).domain == s.domain,
    decreases lookups.len(),
{
    if lookups.len() > 0 {
        lemma_progress(s, lookups.drop_last());
    }
}

/// Whatever the order in which lookups finish, the scan ends with a host for
/// exactly the names that some lookup resolved to at least one address, each
/// holding the union of the addresses answered for it, none listed twice;
/// progress counts every lookup.
pub proof fn lemma_lookups_collected(domain: Seq<char>, lookups: Seq<Lookup>)
    ensures
        hosts_wf(replay(fresh(domain), lookups).hosts),
        contents(replay(fresh(domain), lookups).hosts) == expected(lookups),
        replay(fresh(domain), lookups).ticks == lookups.len(),
{
    let h = replay(fresh(domain), lookups).hosts;
    lemma_replay_hosts(fresh(domain), lookups);
    lemma_progress(fresh(domain), lookups);
    assert(contents(h) =~= expected(lookups)) by {
        assert forall|m: Seq<char>| #[trigger] contents(h).dom().contains(m) implies contents(h)[m]
            == expected(lookups)[m] by {
            assert(addresses_of(h, m) == answered_set(lookups, m));
            assert(answered_set(lookups, m) =~= expected(lookups)[m]);
        }
    }
}

/// A scan in which each candidate name of the wordlist was looked up once,
/// in any order, ends with progress equal to the number of words, so the
/// wait for outstanding lookups ends.
pub proof fn lemma_scan_completes(wordlist: Seq<char>, domain: Seq<char>, lookups: Seq<Lookup>)
    requires
        lookups.map_values(|l: Lookup| l.0).to_multiset() == candidates(wordlist, domain).to_multiset(),
    ensures
        replay(fresh(domain), lookups).ticks == words_of(wordlist).len(),
{
    broadcast use vstd::seq_lib::group_to_multiset_ensures;

    lemma_progress(fresh(domain), lookups);
    let names = lookups.map_values(|l: Lookup| l.0);
    let cands = candidates(wordlist, domain);
    assert(names.len() == lookups.len());
    assert(cands.len() == words_of(wordlist).len());
    assert(names.to_multiset().len() == names.len());
    assert(cands.to_multiset().len() == cands.len());
}

/// Recording one list of addresses after another is recording their
/// concatenation, so the law for one list covers any number of lookups.
pub proof fn lemma_with_ips_concat(hs: Seq<HostView>, name: Seq<char>, a: Seq<Ip>, b: Seq<Ip>)
    ensures
        with_ips(with_ips(hs, name, a), name, b) == with_ips(hs, name, a + b),
    decreases b.len(),
{
    if b.len() == 0 {
        assert(a + b =~= a);
    } else {
        lemma_with_ips_concat(hs, name, a, b.drop_last());
        assert((a + b).drop_last() =~= a + b.drop_last());
        assert((a + b).last() == b.last());
    }
}

} // verus!
