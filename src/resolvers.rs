//! Resolver presets: which public DNS service a resolver identifier selects.

use crate::models::ip::Ip;
use trust_dns_resolver::config::ResolverConfig;
use vstd::prelude::*;
use vstd::string::*;

verus! {

/// Identifier of the Google preset, also the fallback for unknown identifiers.
pub const GOOGLE: &'static str = "google";

/// Identifier of the Cloudflare preset.
pub const CLOUDFLARE: &'static str = "cloudflare";

/// Identifier of the Quad9 preset.
pub const QUAD: &'static str = "quad9";

/// A public DNS service whose servers a scan can query.
#[derive(Clone, Copy, Debug, PartialEq, Eq, Structural)]
pub enum Preset {
    Google,
    Cloudflare,
    Quad9,
}

/// The preset that an identifier selects: an exact, case-sensitive match of
/// one of the known identifiers, and Google for anything else.
pub open spec fn preset_of(name: Seq<char>) -> Preset {
    if name == CLOUDFLARE@ {
        Preset::Cloudflare
    } else if name == QUAD@ {
        Preset::Quad9
    } else {
        Preset::Google
    }
}

/// Selects the preset for a resolver identifier. Total: unknown identifiers
/// fall back to Google.
pub fn preset_for(name: &String) -> (r: Preset)
    ensures
        r == preset_of(name@),
{
    let cloudflare = String::from_str(CLOUDFLARE);
    let quad = String::from_str(QUAD);
    if *name == cloudflare {
        Preset::Cloudflare
    } else if *name == quad {
        Preset::Quad9
    } else {
        Preset::Google
    }
}

#[verifier::external_type_specification]
#[verifier::external_body]
pub struct ExResolverConfig(ResolverConfig);

/// The name servers that a resolver configuration lists, as address and port
/// (each is listed for UDP and for TCP alike).
pub uninterp spec fn servers_of(c: ResolverConfig) -> Set<(Ip, u16)>;

/// The name servers of a preset: its two IPv4 and two IPv6 addresses, on
/// port 53.
pub open spec fn preset_servers(p: Preset) -> Set<(Ip, u16)> {
    match p {
        Preset::Google => set![
            (Ip::V4(0x0808_0808), 53u16),
            (Ip::V4(0x0808_0404), 53u16),
            (Ip::V6(0x2001_4860_4860_0000_0000_0000_0000_8888), 53u16),
            (Ip::V6(0x2001_4860_4860_0000_0000_0000_0000_8844), 53u16),
        ],
        Preset::Cloudflare => set![
            (Ip::V4(0x0101_0101), 53u16),
            (Ip::V4(0x0100_0001), 53u16),
            (Ip::V6(0x2606_4700_4700_0000_0000_0000_0000_1111), 53u16),
            (Ip::V6(0x2606_4700_4700_0000_0000_0000_0000_1001), 53u16),
        ],
        Preset::Quad9 => set![
            (Ip::V4(0x0909_0909), 53u16),
            (Ip::V4(0x9570_7070), 53u16),
            (Ip::V6(0x2620_00fe_0000_0000_0000_0000_0000_00fe), 53u16),
            (Ip::V6(0x2620_00fe_0000_0000_0000_0000_00fe_0009), 53u16),
        ],
    }
}

/// Relies on trust_dns_resolver's ResolverConfig::google: from constants, it
/// lists 8.8.8.8, 8.8.4.4, 2001:4860:4860::8888 and 2001:4860:4860::8844 on
/// port 53, and cannot fail.
pub assume_specification[ ResolverConfig::google ]() -> (r: ResolverConfig)
    ensures
        servers_of(r) == preset_servers(Preset::Google),
;

/// Relies on trust_dns_resolver's ResolverConfig::cloudflare: from constants,
/// it lists 1.1.1.1, 1.0.0.1, 2606:4700:4700::1111 and 2606:4700:4700::1001
/// on port 53, and cannot fail.
pub assume_specification[ ResolverConfig::cloudflare ]() -> (r: ResolverConfig)
    ensures
        servers_of(r) == preset_servers(Preset::Cloudflare),
;

/// Relies on trust_dns_resolver's ResolverConfig::quad9: from constants, it
/// lists 9.9.9.9, 149.112.112.112, 2620:fe::fe and 2620:fe::fe:9 on port 53,
/// and cannot fail.
pub assume_specification[ ResolverConfig::quad9 ]() -> (r: ResolverConfig)
    ensures
        servers_of(r) == preset_servers(Preset::Quad9),
;

/// The resolver configuration of a preset.
pub fn preset_config(preset: Preset) -> (r: ResolverConfig)
    ensures
        servers_of(r) == preset_servers(preset),
{
    match preset {
        Preset::Google => ResolverConfig::google(),
        Preset::Cloudflare => ResolverConfig::cloudflare(),
        Preset::Quad9 => ResolverConfig::quad9(),
    }
}

} // verus!
