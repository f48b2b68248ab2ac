use porture::addr::{parse_ip, IpAddress, SocketAddress};
#[test]
fn parses_dotted_quads() {
    assert_eq!(parse_ip("127.0.0.1"), Some(IpAddress::V4(0x7f00_0001)));
    assert_eq!(parse_ip("8.8.8.8"), Some(IpAddress::V4(0x0808_0808)));
    assert_eq!(parse_ip("0.0.0.0"), Some(IpAddress::V4(0)));
    assert_eq!(parse_ip("255.255.255.255"), Some(IpAddress::V4(0xffff_ffff)));
    assert_eq!(parse_ip("1.2.3.4"), Some(IpAddress::V4(0x0102_0304)));
}

#[test]
fn rejects_malformed_dotted_quads() {
    for text in [
        "", "1", "1.2.3", "1.2.3.4.5", "256.0.0.1", "1.2.3.256", "01.2.3.4", "1.2.3.04", "1..2.3",
        ".1.2.3", "1.2.3.", "1.2.3.4 ", " 1.2.3.4", "a.b.c.d", "1.2.3.-4", "1.2.3.4444",
        "localhost", "1,2,3,4", "1.2.3.4\n", "00.0.0.0", "0x1.2.3.4", "１.2.3.4",
    ] {
        assert_eq!(parse_ip(text), None, "{:?}", text);
    }
}

#[test]
fn parses_ipv6_texts() {
    assert_eq!(parse_ip("::"), Some(IpAddress::V6(0)));
    assert_eq!(parse_ip("::1"), Some(IpAddress::V6(1)));
    assert_eq!(parse_ip("1::"), Some(IpAddress::V6(1u128 << 112)));
    assert_eq!(
        parse_ip("2001:db8::8a2e:370:7334"),
        Some(IpAddress::V6(0x2001_0db8_0000_0000_0000_8a2e_0370_7334))
    );
    assert_eq!(
        parse_ip("1:2:3:4:5:6:7:8"),
        Some(IpAddress::V6(0x0001_0002_0003_0004_0005_0006_0007_0008))
    );
    assert_eq!(parse_ip("::ffff:1.2.3.4"), Some(IpAddress::V6(0xffff_0102_0304)));
    assert_eq!(
        parse_ip("1:2:3:4:5:6:1.2.3.4"),
        Some(IpAddress::V6(0x0001_0002_0003_0004_0005_0006_0102_0304))
    );
    assert_eq!(
        parse_ip("FFFF:ffff:FfFf:0:0:0:0:1"),
        Some(IpAddress::V6(0xffff_ffff_ffff_0000_0000_0000_0000_0001))
    );
    assert_eq!(
        parse_ip("1:2:3:4:5:6:7::"),
        Some(IpAddress::V6(0x0001_0002_0003_0004_0005_0006_0007_0000))
    );
}

#[test]
fn rejects_malformed_ipv6_texts() {
    for text in [
        ":", ":::", "1:", ":1", "1:2:3:4:5:6:7", "1:2:3:4:5:6:7:8:9", "1::2::3", "1:::2",
        "12345::", "g::", "::1.2.3", "::1.2.3.256", "1.2.3.4::", "1:2:3:4:5:6:7:1.2.3.4",
        "1:2:3:4:5:6::1.2.3.4", "::1:2:3:4:5:6:7:8", "1:2:3:4:5:6:7:8::", "::01.2.3.4",
        "1.2.3.4:1:2:3:4:5:6", "fe80::1%eth0", "[::1]", "::1 ", "1:2:3:4:5:6:7:",
        ":1:2:3:4:5:6:7", "::1.2.3.4:5",
    ] {
        assert_eq!(parse_ip(text), None, "{:?}", text);
    }
}

#[test]
fn gap_stands_for_the_missing_groups() {
    assert_eq!(
        parse_ip("::2:3:4:5:6:7:8"),
        Some(IpAddress::V6(0x0000_0002_0003_0004_0005_0006_0007_0008))
    );
    assert_eq!(
        parse_ip("1:2:3:4::6:7:8"),
        Some(IpAddress::V6(0x0001_0002_0003_0004_0000_0006_0007_0008))
    );
    assert_eq!(
        parse_ip("1:2:3:4:5::1.2.3.4"),
        Some(IpAddress::V6(0x0001_0002_0003_0004_0005_0000_0102_0304))
    );
    assert_eq!(parse_ip("::0.0.0.0"), Some(IpAddress::V6(0)));
    assert_eq!(parse_ip("::255.255.255.255"), Some(IpAddress::V6(0xffff_ffff)));
    assert_eq!(parse_ip("0:0:0:0:0:0:0:0"), Some(IpAddress::V6(0)));
    assert_eq!(
        parse_ip("a:b:c:d:e:f:0:1"),
        Some(IpAddress::V6(0x000a_000b_000c_000d_000e_000f_0000_0001))
    );
    assert_eq!(parse_ip("a:b:c:d:e:f:0:1"), parse_ip("A:B:C:D:E:F:0:1"));
    assert_eq!(parse_ip("fe80::"), Some(IpAddress::V6(0xfe80u128 << 112)));
}

#[test]
fn socket_address_keeps_address_and_port() {
    let v4 = SocketAddress::new(IpAddress::V4(0x7f00_0001), 8080);
    assert_eq!(v4, SocketAddress::V4 { ip: 0x7f00_0001, port: 8080 });
    assert_eq!(v4.ip(), IpAddress::V4(0x7f00_0001));
    assert_eq!(v4.port(), 8080);
    let v6 = SocketAddress::new(IpAddress::V6(1), 53);
    assert_eq!(v6, SocketAddress::V6 { ip: 1, port: 53, flowinfo: 0, scope_id: 0 });
    assert_eq!(v6.ip(), IpAddress::V6(1));
    assert_eq!(v6.port(), 53);
}
