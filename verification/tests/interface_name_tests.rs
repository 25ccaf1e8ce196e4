use netdog::interface_name::InterfaceName;

#[test]
fn invalid_interface_name() {
    let long = "a".repeat(16);
    let bad_str = [
        long.as_str(),
        "",
        ".",
        "..",
        "f/eno1",
        "eno 1",
        "eno\n1",
        "\n",
        "\r",
        "\u{000B}",
        "\u{000C}",
        "\u{0085}",
        "\u{2028}",
        "\u{2029}",
    ];
    for bad in bad_str {
        assert!(InterfaceName::try_from(bad).is_err())
    }
}

#[test]
fn valid_interface_name() {
    let long = "a".repeat(15);
    let ok_str = [long.as_str(), "eno1", "eth0", "enp5s0", "enx0eb36944b633"];
    for ok in ok_str {
        assert!(InterfaceName::try_from(ok).is_ok())
    }
}

#[test]
fn interface_name_round_trips() {
    for ok in ["eno1", "eth0", "enx0eb36944b633"] {
        let name = InterfaceName::try_from(ok).unwrap();
        assert_eq!(name.name(), ok);
        assert_eq!(name.to_text(), ok);
    }
}

#[test]
fn invalid_interface_name_error_carries_input() {
    let err = InterfaceName::try_from("f/eno1").unwrap_err();
    assert!(matches!(
        err,
        netdog::errors::NetdogError::InvalidInterfaceName { input, .. } if input == "f/eno1"
    ));
}
