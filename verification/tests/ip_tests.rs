use netdog::errors::NetdogError;
use netdog::ip::{ipaddr_from_vec, parse_ip_text, IpAddress};

#[test]
fn valid_ipv4addr_from_vec() {
    let ok_vec: Vec<Vec<u8>> = vec![vec![172, 1, 2, 2], vec![0, 0, 0, 0]];
    for ok in ok_vec {
        assert!(ipaddr_from_vec(ok).is_ok())
    }
}

#[test]
fn valid_ip6addr_from_vec() {
    let ok_vec = vec![
        vec![254, 128, 0, 0, 0, 0, 0, 0, 80, 84, 0, 255, 254, 18, 52, 86],
        vec![254, 128, 0, 0, 0, 0, 0, 0, 4, 8, 13, 255, 254, 137, 48, 197],
    ];
    for ok in ok_vec {
        assert!(ipaddr_from_vec(ok).is_ok())
    }
}

#[test]
fn invalid_ipaddr_from_vec() {
    let bad_vec = vec![
        vec![0],
        vec![1, 2, 3, 4, 5],
        vec![1, 2, 3, 4, 5, 6, 7, 8, 9, 10, 11, 12, 13, 14, 15],
        vec![1, 2, 3, 4, 5, 6, 7, 8, 9, 10, 11, 12, 13, 14, 15, 16, 17],
    ];
    for bad in bad_vec {
        assert!(ipaddr_from_vec(bad).is_err())
    }
}

#[test]
fn ipaddr_from_vec_families() {
    assert_eq!(ipaddr_from_vec(vec![10, 0, 2, 15]).unwrap(), IpAddress::V4([10, 0, 2, 15]));
    let sixteen = vec![254, 128, 0, 0, 0, 0, 0, 0, 0, 0, 0, 0, 0, 0, 0, 1];
    assert_eq!(
        ipaddr_from_vec(sixteen.clone()).unwrap(),
        IpAddress::V6([254, 128, 0, 0, 0, 0, 0, 0, 0, 0, 0, 0, 0, 0, 0, 1])
    );
    assert!(matches!(
        ipaddr_from_vec(vec![1, 2, 3]).unwrap_err(),
        NetdogError::BadAddressEncoding { bytes, .. } if bytes == vec![1, 2, 3]
    ));
}

#[test]
fn ipv4_text_renders_dotted_decimal() {
    assert_eq!(IpAddress::V4([192, 168, 0, 2]).to_text(), "192.168.0.2");
    assert_eq!(IpAddress::V4([0, 0, 0, 0]).to_text(), "0.0.0.0");
    assert_eq!(IpAddress::V4([255, 255, 255, 255]).to_text(), "255.255.255.255");
}

#[test]
fn ipv6_text_renders_compressed() {
    // The longest run of at least two zero groups becomes `::`.
    assert_eq!(IpAddress::V6([0; 16]).to_text(), "::");
    assert_eq!(
        IpAddress::V6([0, 0, 0, 0, 0, 0, 0, 0, 0, 0, 0, 0, 0, 0, 0, 1]).to_text(),
        "::1"
    );
    assert_eq!(
        IpAddress::V6([254, 128, 0, 0, 0, 0, 0, 0, 0, 0, 0, 0, 0, 0, 0, 1]).to_text(),
        "fe80::1"
    );
    assert_eq!(
        IpAddress::V6([255, 255, 18, 52, 0, 15, 0, 1, 0, 0, 0, 0, 171, 205, 239, 1]).to_text(),
        "ffff:1234:f:1::abcd:ef01"
    );
    // A single zero group is not compressed; with no run of two, the full
    // eight groups appear.
    assert_eq!(
        IpAddress::V6([0, 1, 0, 0, 0, 1, 0, 1, 0, 1, 0, 1, 0, 1, 0, 1]).to_text(),
        "1:0:1:1:1:1:1:1"
    );
    // On a tie, the leftmost run is compressed.
    assert_eq!(
        IpAddress::V6([0, 1, 0, 0, 0, 0, 0, 1, 0, 0, 0, 0, 0, 1, 0, 1]).to_text(),
        "1::1:0:0:1:1"
    );
    // An IPv4-mapped address renders in the `::ffff:` dotted form.
    assert_eq!(
        IpAddress::V6([0, 0, 0, 0, 0, 0, 0, 0, 0, 0, 255, 255, 192, 168, 0, 2]).to_text(),
        "::ffff:192.168.0.2"
    );
}

#[test]
fn parse_ipv4_texts() {
    assert_eq!(parse_ip_text("192.168.0.2"), Some(IpAddress::V4([192, 168, 0, 2])));
    assert_eq!(parse_ip_text("0.0.0.0"), Some(IpAddress::V4([0, 0, 0, 0])));
    assert_eq!(parse_ip_text("255.255.255.255"), Some(IpAddress::V4([255, 255, 255, 255])));
    for bad in ["", "1.2.3", "1.2.3.4.5", "256.1.1.1", "01.2.3.4", "1.2.3.4.", "a.b.c.d", "1 2 3 4"]
    {
        assert_eq!(parse_ip_text(bad), None, "{} should not parse", bad);
    }
}

#[test]
fn parse_ipv6_texts() {
    assert_eq!(
        parse_ip_text("fe80:0:0:0:0:0:0:1"),
        Some(IpAddress::V6([254, 128, 0, 0, 0, 0, 0, 0, 0, 0, 0, 0, 0, 0, 0, 1]))
    );
    assert_eq!(
        parse_ip_text("fe80::1"),
        Some(IpAddress::V6([254, 128, 0, 0, 0, 0, 0, 0, 0, 0, 0, 0, 0, 0, 0, 1]))
    );
    assert_eq!(parse_ip_text("::"), Some(IpAddress::V6([0; 16])));
    assert_eq!(
        parse_ip_text("::1"),
        Some(IpAddress::V6([0, 0, 0, 0, 0, 0, 0, 0, 0, 0, 0, 0, 0, 0, 0, 1]))
    );
    assert_eq!(
        parse_ip_text("2001:0db8:0:0:0:0:0:1"),
        Some(IpAddress::V6([32, 1, 13, 184, 0, 0, 0, 0, 0, 0, 0, 0, 0, 0, 0, 1]))
    );
    for bad in ["1:::2", "1::2::3", "::1::", "12345::", "fe80:", ":fe80", "1:2:3:4:5:6:7", "g::1",
        "1:2:3:4:5:6:7:8:9"]
    {
        assert_eq!(parse_ip_text(bad), None, "{} should not parse", bad);
    }
}

#[test]
fn parse_embedded_ipv4_texts() {
    // A dotted-decimal quad may close an IPv6 address, as in the
    // IPv4-mapped form.
    assert_eq!(
        parse_ip_text("::ffff:1.2.3.4"),
        Some(IpAddress::V6([0, 0, 0, 0, 0, 0, 0, 0, 0, 0, 255, 255, 1, 2, 3, 4]))
    );
    assert_eq!(
        parse_ip_text("::13.1.68.3"),
        Some(IpAddress::V6([0, 0, 0, 0, 0, 0, 0, 0, 0, 0, 0, 0, 13, 1, 68, 3]))
    );
    assert_eq!(
        parse_ip_text("1:2:3:4:5:6:7.8.9.10"),
        Some(IpAddress::V6([0, 1, 0, 2, 0, 3, 0, 4, 0, 5, 0, 6, 7, 8, 9, 10]))
    );
    // Only at the end: a quad before the `::`, or a malformed tail, is
    // rejected.
    for bad in ["1.2.3.4::5", "::ffff:1.2.3", "::ffff:1.2.3.4.5", "::ffff:256.1.1.1",
        "1.2.3.4::"]
    {
        assert_eq!(parse_ip_text(bad), None, "{} should not parse", bad);
    }
}

#[test]
fn parse_and_render_round_trip() {
    for text in ["10.0.2.15", "fe80::1", "::", "::1", "::ffff:10.0.2.15", "1:2:3:4:5:6:7:8"] {
        let addr = parse_ip_text(text).unwrap();
        assert_eq!(addr.to_text(), text);
    }
}
