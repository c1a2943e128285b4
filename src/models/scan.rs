//! # Scan
//!
//! The state that every resolution task of a scan folds its result into: the
//! hosts found so far and the number of finished lookups.

use super::host::{Host, HostView};
use super::ip::Ip;
use crate::resolvers::{preset_config, preset_for, preset_of, preset_servers, servers_of};
use trust_dns_resolver::config::ResolverConfig;
use vstd::prelude::*;
use vstd::string::*;

verus! {

/// Scan is the main model of the application: the hosts found for a domain,
/// and how many candidate subdomains have been checked.
#[derive(Debug, Clone)]
pub struct Scan {
    /// List of subdomains for which IP addresses were found
    pub hosts: Vec<Host>,
    /// Scanned domain, in fully-qualified form
    pub domain: String,
    /// Number of scanned subdomains
    pub ticks: i64,
}

/// What a scan holds.
pub struct ScanView {
    pub hosts: Seq<HostView>,
    pub domain: Seq<char>,
    pub ticks: int,
}

impl View for Scan {
    type V = ScanView;

    open spec fn view(&self) -> ScanView {
        ScanView {
            hosts: self.hosts@.map_values(|h: Host| h@),
            domain: self.domain@,
            ticks: self.ticks as int,
        }
    }
}

/// No two hosts share a name.
pub open spec fn names_unique(hs: Seq<HostView>) -> bool {
    forall|i: int, j: int| 0 <= i < j < hs.len() ==> hs[i].name != hs[j].name
}

/// No host lists an address twice.
pub open spec fn ips_distinct(hs: Seq<HostView>) -> bool {
    forall|i: int| 0 <= i < hs.len() ==> (#[trigger] hs[i]).ips.no_duplicates()
}

/// The hosts form a mapping from names to sets of addresses.
pub open spec fn hosts_wf(hs: Seq<HostView>) -> bool {
    names_unique(hs) && ips_distinct(hs)
}

/// Some host has this name.
pub open spec fn has_name(hs: Seq<HostView>, name: Seq<char>) -> bool {
    exists|i: int| 0 <= i < hs.len() && (#[trigger] hs[i]).name == name
}

/// The hosts with a host for `name` added at the end, unless one is there.
pub open spec fn with_host(hs: Seq<HostView>, name: Seq<char>) -> Seq<HostView> {
    if has_name(hs, name) {
        hs
    } else {
        hs.push(HostView { name, ips: Seq::empty() })
    }
}

/// One host after `ip` was recorded for `name`.
pub open spec fn host_with_ip(h: HostView, name: Seq<char>, ip: Ip) -> HostView {
    if h.name == name && !h.ips.contains(ip) {
        HostView { name: h.name, ips: h.ips.push(ip) }
    } else {
        h
    }
}

/// The hosts after `ip` was appended to every host named `name` that lacks it.
pub open spec fn with_ip(hs: Seq<HostView>, name: Seq<char>, ip: Ip) -> Seq<HostView> {
    hs.map_values(|h: HostView| host_with_ip(h, name, ip))
}

/// The hosts after each of `ips` was recorded for `name`, in order.
pub open spec fn with_ips(hs: Seq<HostView>, name: Seq<char>, ips: Seq<Ip>) -> Seq<HostView>
    decreases ips.len(),
{
    if ips.len() == 0 {
        hs
    } else {
        with_ip(with_ips(hs, name, ips.drop_last()), name, ips.last())
    }
}

/// The hosts after a successful lookup of `name` answered `ips`: an answer
/// without addresses changes nothing; otherwise the host is created if
/// needed and the new addresses are appended.
pub open spec fn merged(hs: Seq<HostView>, name: Seq<char>, ips: Seq<Ip>) -> Seq<HostView> {
    if ips.len() == 0 {
        hs
    } else {
        with_ips(with_host(hs, name), name, ips)
    }
}

/// The addresses of the first host named `name`.
pub open spec fn ips_of(hs: Seq<HostView>, name: Seq<char>) -> Seq<Ip>
    decreases hs.len(),
{
    if hs.len() == 0 {
        Seq::empty()
    } else if hs[0].name == name {
        hs[0].ips
    } else {
        ips_of(hs.drop_first(), name)
    }
}

/// `i` is the position of the first host named `name`.
pub open spec fn first_with_name(hs: Seq<HostView>, name: Seq<char>, i: int) -> bool {
    0 <= i < hs.len() && hs[i].name == name && forall|j: int| 0 <= j < i ==> hs[j].name != name
}

/// Addresses of an optional lookup answer; a failed lookup has none.
pub open spec fn answer_ips(answer: Option<Seq<Ip>>) -> Seq<Ip> {
    match answer {
        Some(ips) => ips,
        None => Seq::empty(),
    }
}

/// The view of an optional lookup answer.
pub open spec fn answer_view(answer: Option<Vec<Ip>>) -> Option<Seq<Ip>> {
    match answer {
        Some(ips) => Some(ips@),
        None => None,
    }
}

/// The scan after one lookup of `name` finished with `answer` (`None` for a
/// failed lookup): the answer is merged, and progress grows by one.
pub open spec fn recorded(s: ScanView, name: Seq<char>, answer: Option<Seq<Ip>>) -> ScanView {
    ScanView { hosts: merged(s.hosts, name, answer_ips(answer)), domain: s.domain, ticks: s.ticks + 1 }
}

proof fn lemma_first_is_ips_of(hs: Seq<HostView>, name: Seq<char>, i: int)
    requires
        first_with_name(hs, name, i),
    ensures
        ips_of(hs, name) == hs[i].ips,
    decreases hs.len(),
{
    if i > 0 {
        assert(hs[0].name != name);
        let t = hs.drop_first();
        assert forall|j: int| 0 <= j < i - 1 implies t[j].name != name by {
            assert(t[j] == hs[j + 1]);
        }
        lemma_first_is_ips_of(t, name, i - 1);
    }
}

/// Tells whether `ips` holds `ip`.
fn contains_ip(ips: &Vec<Ip>, ip: &Ip) -> (r: bool)
    ensures
        r == ips@.contains(*ip),
{
    let mut k: usize = 0;
    while k < ips.len()
        invariant
            k <= ips.len(),
            forall|j: int| 0 <= j < k ==> ips@[j] != *ip,
        decreases ips.len() - k,
    {
        if ips[k] == *ip {
            return true;
        }
        k = k + 1;
    }
    false
}

/// Initializers
impl Scan {
    /// The scan is well formed: host names are unique, no host lists an
    /// address twice, and progress is not negative.
    pub open spec fn wf(&self) -> bool {
        hosts_wf(self@.hosts) && self.ticks >= 0
    }

    /// Creates an empty scan of `domain`, which it stores in fully-qualified
    /// form (with a trailing dot).
    pub fn new(domain: String) -> (r: Scan)
        ensures
            r.wf(),
            r@.hosts == Seq::<HostView>::empty(),
            r@.domain == domain@.push('.'),
            r@.ticks == 0,
    {
        let mut domain = domain;
        proof {
            reveal_strlit(".");
        }
        domain.append(".");
        let r = Scan { hosts: Vec::new(), domain, ticks: 0 };
        assert(r@.hosts =~= Seq::<HostView>::empty());
        r
    }
}

/// The counter of scanned subdomains
impl Scan {
    /// Increments progress by `i`.
    pub fn inc_tick(&mut self, i: i64)
        requires
            i64::MIN <= old(self).ticks + i <= i64::MAX,
        ensures
            final(self).ticks == old(self).ticks + i,
            final(self).hosts == old(self).hosts,
            final(self).domain == old(self).domain,
    {
        self.ticks = self.ticks + i;
    }

    /// Tells whether lookups are still outstanding for a wordlist of `len`
    /// words: true exactly while progress is below `len`.
    pub fn is_tick_available(&self, len: &usize) -> (r: bool)
        requires
            self.ticks >= 0,
        ensures
            r == (self.ticks < *len as int),
    {
        (self.ticks as u64) < (*len as u64)
    }
}

/// The hosts
impl Scan {
    /// The position of the first host named `name`, if any.
    fn position(&self, name: &String) -> (r: Option<usize>)
        ensures
            match r {
                Some(i) => first_with_name(self@.hosts, name@, i as int),
                None => !has_name(self@.hosts, name@),
            },
    {
        let mut i: usize = 0;
        while i < self.hosts.len()
            invariant
                i <= self.hosts.len(),
                forall|j: int| 0 <= j < i ==> self@.hosts[j].name != name@,
            decreases self.hosts.len() - i,
        {
            if self.hosts[i].name == *name {
                return Some(i);
            }
            i = i + 1;
        }
        None
    }

    /// Tells whether some host has the name `name`.
    pub fn contains_host(&self, name: &String) -> (r: bool)
        ensures
            r == has_name(self@.hosts, name@),
    {
        self.position(name).is_some()
    }

    /// Adds a host without addresses named `name`, unless one is there.
    pub fn add_host(&mut self, name: String)
        requires
            old(self).wf(),
        ensures
            final(self).wf(),
            final(self)@.hosts == with_host(old(self)@.hosts, name@),
            final(self).domain == old(self).domain,
            final(self).ticks == old(self).ticks,
    {
        if !self.contains_host(&name) {
            let ghost hs = self@.hosts;
            let host = Host::new(name);
            self.hosts.push(host);
            assert(self@.hosts =~= with_host(hs, name@));
        }
    }

    /// Appends `ip` to the addresses of every host named `name` that does
    /// not list it yet.
    pub fn add_ip_for_host(&mut self, name: &String, ip: Ip)
        requires
            old(self).wf(),
        ensures
            final(self).wf(),
            final(self)@.hosts == with_ip(old(self)@.hosts, name@, ip),
            final(self).domain == old(self).domain,
            final(self).ticks == old(self).ticks,
    {
        let ghost hs = self@.hosts;
        let mut i: usize = 0;
        while i < self.hosts.len()
            invariant
                i <= self.hosts.len(),
                self.hosts.len() == hs.len(),
                forall|j: int| 0 <= j < i ==> self.hosts@[j]@ == host_with_ip(hs[j], name@, ip),
                forall|j: int| i <= j < hs.len() ==> self.hosts@[j]@ == hs[j],
                self.domain == old(self).domain,
                self.ticks == old(self).ticks,
            decreases self.hosts.len() - i,
        {
            if self.hosts[i].name == *name {
                if !contains_ip(&self.hosts[i].ips, &ip) {
                    self.hosts[i].ips.push(ip);
                }
            }
            i = i + 1;
        }
        assert(self@.hosts =~= with_ip(hs, name@, ip));
        assert forall|j: int| 0 <= j < self@.hosts.len() implies (
        #[trigger] self@.hosts[j]).ips.no_duplicates() by {
            assert(hs[j].ips.no_duplicates());
        }
    }

    /// The first host named `name`.
    pub fn get_host_by_name(&self, name: &String) -> (r: &Host)
        requires
            has_name(self@.hosts, name@),
        ensures
            exists|i: int| first_with_name(self@.hosts, name@, i) && *r == self.hosts[i],
    {
        let i = self.position(name).unwrap();
        &self.hosts[i]
    }

    /// Tells whether the first host named `name` lists `ip`.
    pub fn host_contains_ip(&self, name: &String, ip: &Ip) -> (r: bool)
        requires
            has_name(self@.hosts, name@),
        ensures
            r == ips_of(self@.hosts, name@).contains(*ip),
    {
        let host = self.get_host_by_name(name);
        let ghost i = choose|i: int| first_with_name(self@.hosts, name@, i) && *host == self.hosts[i];
        proof {
            lemma_first_is_ips_of(self@.hosts, name@, i);
        }
        contains_ip(&host.ips, ip)
    }
}

/// Folding lookup results in
impl Scan {
    /// Merges the answer of a successful lookup of `name`: with at least one
    /// address, the host is created if it is missing and every address it
    /// does not list yet is appended; an empty answer changes nothing.
    pub fn merge_answer(&mut self, name: String, ips: &Vec<Ip>)
        requires
            old(self).wf(),
        ensures
            final(self).wf(),
            final(self)@.hosts == merged(old(self)@.hosts, name@, ips@),
            final(self).domain == old(self).domain,
            final(self).ticks == old(self).ticks,
    {
        if ips.len() == 0 {
            return;
        }
        let ghost hs = self@.hosts;
        if !self.contains_host(&name) {
            self.add_host(name.clone());
        }
        let mut k: usize = 0;
        while k < ips.len()
            invariant
                k <= ips.len(),
                self.wf(),
                self@.hosts == with_ips(with_host(hs, name@), name@, ips@.subrange(0, k as int)),
                self.domain == old(self).domain,
                self.ticks == old(self).ticks,
            decreases ips.len() - k,
        {
            self.add_ip_for_host(&name, ips[k]);
            assert(ips@.subrange(0, k + 1).drop_last() =~= ips@.subrange(0, k as int));
            k = k + 1;
        }
        assert(ips@.subrange(0, ips.len() as int) =~= ips@);
    }

    /// Records that one lookup of `name` has finished, with its addresses,
    /// or `None` if it failed: the answer is merged first, then progress
    /// grows by one.
    pub fn record_lookup(&mut self, name: String, answer: Option<Vec<Ip>>)
        requires
            old(self).wf(),
            old(self).ticks < i64::MAX,
        ensures
            final(self).wf(),
            final(self)@ == recorded(old(self)@, name@, answer_view(answer)),
    {
        match answer {
            Some(ips) => self.merge_answer(name, &ips),
            None => {},
        }
        self.inc_tick(1);
    }
}

/// DNS resolver selection
impl Scan {
    /// The resolver configuration for an identifier: the name servers of the
    /// preset that `preset_for` selects, Google's for an identifier it does
    /// not know.
    pub fn get_resolver_config(name: &String) -> (r: ResolverConfig)
        ensures
            servers_of(r) == preset_servers(preset_of(name@)),
    {
        preset_config(preset_for(name))
    }
}

} // verus!
