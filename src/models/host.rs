//! # Host

use super::ip::Ip;
use vstd::prelude::*;

verus! {

/// A subdomain and the IP addresses found for it.
#[derive(Debug, Clone)]
pub struct Host {
    /// Subdomain
    pub name: String,
    /// IPs
    pub ips: Vec<Ip>,
}

/// What a host holds: its name and its addresses, in the order they were found.
pub struct HostView {
    pub name: Seq<char>,
    pub ips: Seq<Ip>,
}

impl View for Host {
    type V = HostView;

    open spec fn view(&self) -> HostView {
        HostView { name: self.name@, ips: self.ips@ }
    }
}

impl Host {
    /// Creates a host without addresses for a subdomain.
    pub fn new(name: String) -> (r: Host)
        ensures
            r@ == (HostView { name: name@, ips: Seq::empty() }),
    {
        Host { name, ips: Vec::new() }
    }
}

} // verus!
