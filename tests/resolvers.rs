use subrut::models::scan::Scan;
use subrut::resolvers::{preset_config, preset_for, Preset};
use trust_dns_resolver::config::ResolverConfig;

#[test]
fn known_identifiers_select_their_preset() {
    assert_eq!(preset_for(&"google".to_string()), Preset::Google);
    assert_eq!(preset_for(&"cloudflare".to_string()), Preset::Cloudflare);
    assert_eq!(preset_for(&"quad9".to_string()), Preset::Quad9);
}

#[test]
fn unknown_identifiers_fall_back_to_google() {
    assert_eq!(preset_for(&"dugacloud".to_string()), Preset::Google);
    assert_eq!(preset_for(&"Cloudflare".to_string()), Preset::Google);
    assert_eq!(preset_for(&"".to_string()), Preset::Google);
}

#[test]
fn dugacloud_config_is_google_config() {
    assert_eq!(
        Scan::get_resolver_config(&"dugacloud".to_string()),
        Scan::get_resolver_config(&"google".to_string())
    );
    assert_eq!(
        Scan::get_resolver_config(&"dugacloud".to_string()),
        ResolverConfig::google()
    );
}

#[test]
fn preset_configs_match_the_resolver_presets() {
    assert_eq!(
        Scan::get_resolver_config(&"cloudflare".to_string()),
        ResolverConfig::cloudflare()
    );
    assert_eq!(
        Scan::get_resolver_config(&"quad9".to_string()),
        ResolverConfig::quad9()
    );
    assert_eq!(preset_config(Preset::Google), ResolverConfig::google());
    assert_ne!(preset_config(Preset::Google), ResolverConfig::quad9());
}

fn servers(name: &str) -> std::collections::BTreeSet<String> {
    Scan::get_resolver_config(&name.to_string())
        .name_servers()
        .iter()
        .map(|s| s.socket_addr.to_string())
        .collect()
}

fn expected(addrs: &[&str]) -> std::collections::BTreeSet<String> {
    addrs.iter().map(|a| a.to_string()).collect()
}

#[test]
fn preset_name_servers() {
    assert_eq!(
        servers("google"),
        expected(&["8.8.8.8:53", "8.8.4.4:53", "[2001:4860:4860::8888]:53", "[2001:4860:4860::8844]:53"])
    );
    assert_eq!(
        servers("cloudflare"),
        expected(&["1.1.1.1:53", "1.0.0.1:53", "[2606:4700:4700::1111]:53", "[2606:4700:4700::1001]:53"])
    );
    assert_eq!(
        servers("quad9"),
        expected(&["9.9.9.9:53", "149.112.112.112:53", "[2620:fe::fe]:53", "[2620:fe::fe:9]:53"])
    );
    assert_eq!(servers("dugacloud"), servers("google"));
}
