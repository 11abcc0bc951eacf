use latency_probe::classify::classify;
use latency_probe::classify::AddressFamily;
use latency_probe::classify::IpAddress;
use latency_probe::classify::Ipv4Address;
use latency_probe::classify::Ipv6Address;

fn v4(text: &str) -> [u8; 4] {
    match classify(text) {
        Ok(IpAddress::V4(a)) => a.octets,
        other => panic!("expected a v4 address for {:?}, got {:?}", text, other),
    }
}

fn v6(text: &str) -> [u16; 8] {
    match classify(text) {
        Ok(IpAddress::V6(a)) => a.segments,
        other => panic!("expected a v6 address for {:?}, got {:?}", text, other),
    }
}

#[test]
fn classifies_plain_ipv4() {
    assert_eq!(v4("203.0.113.1"), [203, 0, 113, 1]);
    assert_eq!(v4("0.0.0.0"), [0, 0, 0, 0]);
    assert_eq!(v4("255.255.255.255"), [255, 255, 255, 255]);
    assert_eq!(v4("127.0.0.1"), [127, 0, 0, 1]);
}

#[test]
fn rejects_malformed_ipv4() {
    assert!(classify("256.0.0.1").is_err());
    assert!(classify("1.2.3").is_err());
    assert!(classify("1.2.3.4.5").is_err());
    assert!(classify("01.2.3.4").is_err());
    assert!(classify("1..2.3").is_err());
    assert!(classify("1.2.3.").is_err());
    assert!(classify(".1.2.3").is_err());
    assert!(classify("1.2.3.x").is_err());
    assert!(classify("1234.1.1.1").is_err());
}

#[test]
fn classifies_full_ipv6() {
    assert_eq!(v6("1:2:3:4:5:6:7:8"), [1, 2, 3, 4, 5, 6, 7, 8]);
    assert_eq!(
        v6("2001:0db8:85a3:08d3:1319:8a2e:0370:7344"),
        [0x2001, 0x0db8, 0x85a3, 0x08d3, 0x1319, 0x8a2e, 0x0370, 0x7344]
    );
    assert_eq!(v6("abcd:ef01:2345:6789:ABCD:EF01:2345:6789"),
        [0xabcd, 0xef01, 0x2345, 0x6789, 0xabcd, 0xef01, 0x2345, 0x6789]);
}

#[test]
fn classifies_compressed_ipv6() {
    assert_eq!(v6("::"), [0, 0, 0, 0, 0, 0, 0, 0]);
    assert_eq!(v6("::1"), [0, 0, 0, 0, 0, 0, 0, 1]);
    assert_eq!(v6("1::"), [1, 0, 0, 0, 0, 0, 0, 0]);
    assert_eq!(v6("2001:db8::1"), [0x2001, 0x0db8, 0, 0, 0, 0, 0, 1]);
    assert_eq!(v6("1:2:3:4:5:6:7::"), [1, 2, 3, 4, 5, 6, 7, 0]);
    assert_eq!(v6("::1:2:3:4:5:6:7"), [0, 1, 2, 3, 4, 5, 6, 7]);
    assert_eq!(v6("fe80::202:b3ff:fe1e:8329"), [0xfe80, 0, 0, 0, 0x0202, 0xb3ff, 0xfe1e, 0x8329]);
}

#[test]
fn classifies_embedded_ipv4_in_ipv6() {
    assert_eq!(v6("::ffff:192.168.1.1"), [0, 0, 0, 0, 0, 0xffff, 0xc0a8, 0x0101]);
    assert_eq!(v6("1:2:3:4:5:6:7.8.9.10"), [1, 2, 3, 4, 5, 6, 0x0708, 0x090a]);
    assert_eq!(v6("64:ff9b::255.255.255.255"), [0x64, 0xff9b, 0, 0, 0, 0, 0xffff, 0xffff]);
}

#[test]
fn rejects_malformed_ipv6() {
    assert!(classify(":").is_err());
    assert!(classify(":::").is_err());
    assert!(classify("1:2:3:4:5:6:7").is_err());
    assert!(classify("1:2:3:4:5:6:7:8:9").is_err());
    assert!(classify("1:2:3:4:5:6:7:8::").is_err());
    assert!(classify("::1:2:3:4:5:6:7:8").is_err());
    assert!(classify("1::2::3").is_err());
    assert!(classify("12345::").is_err());
    assert!(classify("g::1").is_err());
    assert!(classify(":1:2:3:4:5:6:7").is_err());
    assert!(classify("1:2:3:4:5:6:7:").is_err());
    assert!(classify("1:2.3.4.5:6::7").is_err());
    assert!(classify("::ffff:1.2.3").is_err());
}

#[test]
fn rejects_text_that_is_no_address() {
    assert!(classify("not-an-ip").is_err());
    assert!(classify("").is_err());
    assert!(classify("example.com").is_err());
    assert!(classify("1.2.3.4 ").is_err());
    assert!(classify("fe80::1%eth0").is_err());
}

#[test]
fn family_follows_variant() {
    let four = classify("10.0.0.1").unwrap();
    assert_eq!(four.family(), AddressFamily::V4);
    let six = classify("::1").unwrap();
    assert_eq!(six.family(), AddressFamily::V6);
    assert_eq!(
        four,
        IpAddress::V4(Ipv4Address { octets: [10, 0, 0, 1] })
    );
    assert_eq!(
        six,
        IpAddress::V6(Ipv6Address { segments: [0, 0, 0, 0, 0, 0, 0, 1] })
    );
}
