use netdog::dns::DnsSettings;
use netdog::errors::NetdogError;
use netdog::interface_name::InterfaceName;
use netdog::ip::IpAddress;
use netdog::networkd_status::NetworkdStatus;

fn qemu_status_json() -> &'static str {
    "{\
        \"Name\": \"eth0\",\
        \"HardwareAddress\": [82, 84, 0, 18, 52, 86],\
        \"DNS\": [\
            {\"Family\": 2, \"Address\": [10, 0, 2, 3], \"ConfigSource\": \"DHCPv4\", \"ConfigProvider\": [10, 0, 2, 2]}\
        ],\
        \"Addresses\": [\
            {\"Family\": 2, \"Address\": [10, 0, 2, 15], \"PrefixLength\": 24, \"ConfigSource\": \"DHCPv4\"}\
        ],\
        \"OperationalState\": \"routable\"\
    }"
}

fn full_status_json() -> &'static str {
    "{\
        \"Name\": \"eth0\",\
        \"HardwareAddress\": [2, 220, 190, 7, 21, 9],\
        \"DNS\": [\
            {\"Family\": 2, \"Address\": [172, 31, 0, 2], \"ConfigSource\": \"DHCPv4\", \"ConfigProvider\": [172, 31, 16, 1]}\
        ],\
        \"SearchDomains\": [\
            {\"Domain\": \"us-west-2.compute.internal\", \"ConfigSource\": \"DHCPv4\", \"ConfigProvider\": [172, 31, 16, 1]}\
        ],\
        \"Addresses\": [\
            {\"Family\": 10, \"Address\": [254, 128, 0, 0, 0, 0, 0, 0, 0, 220, 190, 255, 254, 7, 21, 9], \"PrefixLength\": 64, \"ConfigSource\": \"foreign\"},\
            {\"Family\": 2, \"Address\": [172, 31, 28, 92], \"PrefixLength\": 20, \"ConfigSource\": \"DHCPv4\"}\
        ]\
    }"
}

#[test]
fn parse_qemu_status() {
    let network_status_result = NetworkdStatus::from_json_str(qemu_status_json());
    assert!(network_status_result.is_ok());

    let network_status = network_status_result.unwrap();
    assert_eq!(network_status.primary_address().unwrap(), IpAddress::V4([10, 0, 2, 15]));

    if let Some(nameservers) = &network_status.dns {
        let nameserver: Vec<IpAddress> = nameservers.iter().map(|n| n.address).collect();
        assert_eq!(nameserver[0], IpAddress::V4([10, 0, 2, 3]));
    } else {
        panic!("Nameservers not found in qemu_networkctl_output.json")
    };

    assert!(network_status.search_domains.is_none());
}

#[test]
fn parse_full_status() {
    let network_status_result = NetworkdStatus::from_json_str(full_status_json());
    assert!(network_status_result.is_ok());

    let network_status = network_status_result.unwrap();
    assert_eq!(network_status.primary_address().unwrap(), IpAddress::V4([172, 31, 28, 92]));

    if let Some(nameservers) = &network_status.dns {
        let nameserver: Vec<IpAddress> = nameservers.iter().map(|n| n.address).collect();
        assert_eq!(nameserver[0], IpAddress::V4([172, 31, 0, 2]));
    } else {
        panic!("Nameservers not found in qemu_networkctl_output.json")
    };

    if let Some(search_domains) = &network_status.search_domains {
        let search: Vec<String> = search_domains.iter().map(|d| d.domain.clone()).collect();
        assert_eq!(search[0], "us-west-2.compute.internal".to_string());
    } else {
        panic!("Search Domains not found in qemu_networkctl_output.json")
    }
}

#[test]
fn status_parse_failures() {
    for bad in [
        "",
        "not json",
        "{}",
        "{\"Name\": \"eth0\"}",
        "{\"Name\": \"bad.name\", \"HardwareAddress\": [], \"Addresses\": []}",
        "{\"Name\": \"eth0\", \"HardwareAddress\": [300], \"Addresses\": []}",
    ] {
        assert!(matches!(
            NetworkdStatus::from_json_str(bad).unwrap_err(),
            NetdogError::StatusParseFailed
        ));
    }
}

#[test]
fn status_bad_address_length_is_a_decode_error() {
    let bad = "{\
        \"Name\": \"eth0\",\
        \"HardwareAddress\": [0, 0, 0, 0, 0, 0],\
        \"Addresses\": [\
            {\"Family\": 2, \"Address\": [1, 2, 3, 4, 5], \"PrefixLength\": 24, \"ConfigSource\": \"DHCPv4\"}\
        ]\
    }";
    assert!(matches!(
        NetworkdStatus::from_json_str(bad).unwrap_err(),
        NetdogError::BadAddressEncoding { bytes, .. } if bytes == vec![1, 2, 3, 4, 5]
    ));
}

fn status_with_addresses(addresses: Vec<IpAddress>) -> NetworkdStatus {
    NetworkdStatus {
        name: InterfaceName::try_from("eth0").unwrap(),
        dns: None,
        search_domains: None,
        mac_address: vec![0, 0, 0, 0, 0, 0],
        addresses,
    }
}

#[test]
fn primary_address_selection() {
    let v4_a = IpAddress::V4([10, 0, 2, 15]);
    let v4_b = IpAddress::V4([172, 31, 28, 92]);
    let v6 = IpAddress::V6([254, 128, 0, 0, 0, 0, 0, 0, 0, 0, 0, 0, 0, 0, 0, 1]);

    // Zero addresses fail.
    assert!(matches!(
        status_with_addresses(vec![]).primary_address().unwrap_err(),
        NetdogError::NoAddressForInterface { interface } if interface == "eth0"
    ));

    // Exactly one address is primary, whatever its family.
    assert_eq!(status_with_addresses(vec![v4_a]).primary_address().unwrap(), v4_a);
    assert_eq!(status_with_addresses(vec![v6]).primary_address().unwrap(), v6);

    // With several, the first IPv4 in list order wins, wherever it is.
    assert_eq!(status_with_addresses(vec![v6, v4_b, v4_a]).primary_address().unwrap(), v4_b);
    assert_eq!(status_with_addresses(vec![v4_a, v6, v4_b]).primary_address().unwrap(), v4_a);

    // Several addresses but no IPv4: no IPv6 fallback, this fails.
    assert!(status_with_addresses(vec![v6, v6]).primary_address().is_err());
}

#[test]
fn merge_status_backfills_unset_fields() {
    let status = NetworkdStatus::from_json_str(full_status_json()).unwrap();
    let mut settings = DnsSettings::default();
    settings.merge_status(&status);
    assert_eq!(settings.nameservers, Some(vec![IpAddress::V4([172, 31, 0, 2])]));
    assert_eq!(settings.search, Some(vec!["us-west-2.compute.internal".to_string()]));

    let from_both = DnsSettings::from_config_or_status(None, &status).unwrap();
    assert_eq!(from_both, settings);
}

#[test]
fn merge_status_keeps_static_config() {
    let status = NetworkdStatus::from_json_str(full_status_json()).unwrap();
    let config = "name-servers = [\"1.2.3.4\"]\nsearch-list = [\"foo.bar.baz\"]\n";
    let settings = DnsSettings::from_config_or_status(Some(config), &status).unwrap();
    assert_eq!(settings.nameservers, Some(vec![IpAddress::V4([1, 2, 3, 4])]));
    assert_eq!(settings.search, Some(vec!["foo.bar.baz".to_string()]));
}
