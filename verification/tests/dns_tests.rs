use netdog::dns::{DnsSettings, LeaseInfo};
use netdog::errors::NetdogError;
use netdog::ip::IpAddress;

fn netdog_toml() -> &'static str {
    "name-servers = [\"1.2.3.4\", \"2.3.4.5\"]\nsearch-list = [\"us-west-2.compute.internal\", \"foo.bar.baz\"]\n"
}

fn lease_one_nameserver() -> LeaseInfo {
    LeaseInfo {
        dns_servers: Some(vec![IpAddress::V4([192, 168, 0, 2])]),
        dns_search: Some(vec!["us-west-2.compute.internal".to_string()]),
    }
}

#[test]
fn dns_from_config() {
    let dns_settings = DnsSettings::from_config_str(Some(netdog_toml())).unwrap();
    assert!(dns_settings.nameservers.is_some());
    assert!(dns_settings.search.is_some());
}

#[test]
fn empty_config() {
    let dns_settings = DnsSettings::from_config_str(Some("")).unwrap();
    assert!(dns_settings.nameservers.is_none());
    assert!(dns_settings.search.is_none());
}

#[test]
fn missing_config() {
    let dns_settings = DnsSettings::from_config_str(None).unwrap();
    assert!(dns_settings.nameservers.is_none());
    assert!(dns_settings.search.is_none());
}

#[test]
fn malformed_config_is_an_error() {
    for bad in [
        "name-servers = 5\n",
        "name-servers = [\"not an ip\"]\n",
        "search-list = \"flat\"\n",
        "search-list = [5]\n",
        "not toml at all [",
    ] {
        assert!(matches!(
            DnsSettings::from_config_str(Some(bad)).unwrap_err(),
            NetdogError::ConfigParseFailed
        ));
    }
}

#[test]
fn config_nameservers_are_deduplicated() {
    let config = "name-servers = [\"1.2.3.4\", \"1.2.3.4\", \"2.3.4.5\"]\n";
    let dns_settings = DnsSettings::from_config_str(Some(config)).unwrap();
    let servers = dns_settings.nameservers.unwrap();
    assert_eq!(servers, vec![IpAddress::V4([1, 2, 3, 4]), IpAddress::V4([2, 3, 4, 5])]);
}

#[test]
fn dns_from_lease_file() {
    let lease = lease_one_nameserver();
    let mut got = DnsSettings::default();
    got.merge_lease(&lease);

    let expected = DnsSettings {
        nameservers: Some(vec![IpAddress::V4([192, 168, 0, 2])]),
        search: Some(vec!["us-west-2.compute.internal".to_string()]),
    };
    assert_eq!(got, expected)
}

#[test]
fn merge_precedence_full_static_config_wins() {
    let lease = LeaseInfo {
        dns_servers: Some(vec![IpAddress::V4([9, 9, 9, 9])]),
        dns_search: Some(vec!["other.example".to_string()]),
    };
    let mut settings = DnsSettings::from_config_str(Some(netdog_toml())).unwrap();
    let before_ns = settings.nameservers.clone();
    let before_search = settings.search.clone();
    settings.merge_lease(&lease);
    assert_eq!(settings.nameservers, before_ns);
    assert_eq!(settings.search, before_search);
}

#[test]
fn merge_precedence_backfills_only_unset_field() {
    let lease = LeaseInfo {
        dns_servers: Some(vec![IpAddress::V4([9, 9, 9, 9])]),
        dns_search: Some(vec!["other.example".to_string()]),
    };
    let config = "name-servers = [\"1.2.3.4\"]\n";
    let mut settings = DnsSettings::from_config_str(Some(config)).unwrap();
    settings.merge_lease(&lease);
    assert_eq!(settings.nameservers, Some(vec![IpAddress::V4([1, 2, 3, 4])]));
    assert_eq!(settings.search, Some(vec!["other.example".to_string()]));
}

#[test]
fn write_resolv_conf_from_lease_single_nameserver() {
    let lease = lease_one_nameserver();
    let mut settings = DnsSettings::default();
    settings.merge_lease(&lease);

    let expected = "search us-west-2.compute.internal\nnameserver 192.168.0.2\n";
    assert_eq!(settings.render_resolv_conf(), expected);
}

#[test]
fn write_resolv_conf_from_lease_multiple_nameservers() {
    let lease = LeaseInfo {
        dns_servers: Some(vec![IpAddress::V4([192, 168, 0, 2]), IpAddress::V4([1, 2, 3, 4])]),
        dns_search: Some(vec!["us-west-2.compute.internal".to_string()]),
    };
    let mut settings = DnsSettings::default();
    settings.merge_lease(&lease);

    // Since the nameservers are shuffled, the resulting text can be either
    // of the following, and must be exactly one of them.
    let format1 = "search us-west-2.compute.internal\nnameserver 192.168.0.2\nnameserver 1.2.3.4\n";
    let format2 = "search us-west-2.compute.internal\nnameserver 1.2.3.4\nnameserver 192.168.0.2\n";

    let resolv_conf = settings.render_resolv_conf();
    assert_ne!(resolv_conf == format1, resolv_conf == format2)
}

#[test]
fn write_resolv_conf_from_config_multiple_nameservers() {
    let settings = DnsSettings::from_config_str(Some(netdog_toml())).unwrap();

    // Since the nameservers are shuffled, the resulting text can be either
    // of the following, and must be exactly one of them.
    let format1 =
        "search us-west-2.compute.internal foo.bar.baz\nnameserver 1.2.3.4\nnameserver 2.3.4.5\n";
    let format2 =
        "search us-west-2.compute.internal foo.bar.baz\nnameserver 2.3.4.5\nnameserver 1.2.3.4\n";

    let resolv_conf = settings.render_resolv_conf();
    assert_ne!(resolv_conf == format1, resolv_conf == format2)
}

#[test]
fn empty_settings_render_empty_document() {
    let settings = DnsSettings::from_config_str(Some("")).unwrap();
    assert_eq!(settings.render_resolv_conf(), "");
}

#[test]
fn from_config_or_lease_without_either_is_empty() {
    let settings = DnsSettings::from_config_or_lease(None, None).unwrap();
    assert_eq!(settings, DnsSettings::default());
    assert_eq!(settings.render_resolv_conf(), "");
}
