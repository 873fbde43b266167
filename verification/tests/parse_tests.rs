use big_red_button::decimal::{parse_u16, parse_u8, push_decimal};
use big_red_button::endpoint::{
    hostname_record, parse_backend_url, parse_https_url, parse_ipv4, resolved_target,
};

#[test]
fn parse_u8_like_std() {
    for s in ["0", "7", "255", "256", "+7", "+", "", "-1", " 1", "1 ", "007", "+255", "1a", "99999999999"] {
        assert_eq!(parse_u8(s), s.parse::<u8>().ok(), "input {:?}", s);
    }
}

#[test]
fn parse_u16_like_std() {
    for s in ["0", "4000", "65535", "65536", "+80", "", "x", "8080/"] {
        assert_eq!(parse_u16(s), s.parse::<u16>().ok(), "input {:?}", s);
    }
}

#[test]
fn decimal_text() {
    for n in [0usize, 7, 10, 42, 1000, usize::MAX] {
        let mut s = String::from("n=");
        push_decimal(&mut s, n);
        assert_eq!(s, format!("n={}", n));
    }
}

#[test]
fn backend_url_ip_and_port() {
    let t = parse_backend_url("192.168.1.10:4000").unwrap();
    assert_eq!(t.host, "192.168.1.10");
    assert_eq!(t.ipv4, Some([192, 168, 1, 10]));
    assert_eq!(t.port, 4000);
}

#[test]
fn backend_url_host_name() {
    let t = parse_backend_url("arewegoneyet.viitam\u{e4}ki.fi:8080").unwrap();
    assert_eq!(t.host, "arewegoneyet.viitam\u{e4}ki.fi");
    assert_eq!(t.ipv4, None);
    assert_eq!(t.port, 8080);
    let t = parse_backend_url("api.example.co.uk:80").unwrap();
    assert_eq!(t.host, "api.example.co.uk");
    assert_eq!(t.ipv4, None);
    let t = parse_backend_url("localhost:3000").unwrap();
    assert_eq!(t.host, "localhost");
    assert_eq!(t.ipv4, None);
    assert_eq!(t.port, 3000);
}

#[test]
fn backend_url_defaults() {
    let t = parse_backend_url("10.0.0.300:http").unwrap();
    assert_eq!(t.host, "10.0.0.300");
    assert_eq!(t.ipv4, None);
    assert_eq!(t.port, 4000);
    let t = parse_backend_url("10.0.0.1:").unwrap();
    assert_eq!(t.ipv4, Some([10, 0, 0, 1]));
    assert_eq!(t.port, 4000);
}

#[test]
fn backend_url_rejected() {
    assert!(parse_backend_url("192.168.1.10").is_none());
    assert!(parse_backend_url(":80").is_none());
    assert!(parse_backend_url("").is_none());
}

#[test]
fn ipv4_octets() {
    assert_eq!(parse_ipv4("0.0.0.0"), Some([0, 0, 0, 0]));
    assert_eq!(parse_ipv4("+1.2.3.4"), Some([1, 2, 3, 4]));
    assert_eq!(parse_ipv4("1.2.3"), None);
    assert_eq!(parse_ipv4("1.2.3.4.5"), None);
    assert_eq!(parse_ipv4("1.2.3.256"), None);
    assert_eq!(parse_ipv4("1..3.4"), None);
}

#[test]
fn resolved_target_takes_first_address() {
    let r = resolved_target("example.com", 443, &[[1u8, 2, 3, 4], [5, 6, 7, 8]]).unwrap();
    assert_eq!(r.0.as_str(), "example.com");
    assert_eq!(r.1, 443);
    assert_eq!(r.2, [1, 2, 3, 4]);
    let none: [[u8; 4]; 0] = [];
    assert!(resolved_target("example.com", 443, &none).is_err());
    let long = "h".repeat(200);
    assert_eq!(resolved_target(&long, 443, &[7u32]).unwrap().0.as_str(), "");
}

#[test]
fn https_url_parts() {
    assert_eq!(parse_https_url("https://example.com:8443/api/destroy"), Some(("example.com", 8443)));
    assert_eq!(parse_https_url("https://example.com/api"), Some(("example.com", 443)));
    assert_eq!(parse_https_url("https://example.com"), Some(("example.com", 443)));
    assert_eq!(parse_https_url("https://example.com:x/"), Some(("example.com", 443)));
    assert_eq!(parse_https_url("https://h:1:2/"), Some(("h", 443)));
    assert_eq!(parse_https_url("https://"), Some(("", 443)));
    assert_eq!(parse_https_url("http://example.com"), None);
    assert_eq!(parse_https_url("HTTPS://example.com"), None);
}

#[test]
fn hostname_kept_only_when_it_fits() {
    assert_eq!(hostname_record("example.com").as_str(), "example.com");
    let exact = "h".repeat(128);
    assert_eq!(hostname_record(&exact).as_str(), exact);
    let long = "h".repeat(129);
    assert_eq!(hostname_record(&long).as_str(), "");
}

#[test]
fn written_numbers_read_back() {
    for n in [0u16, 9, 10, 443, 4000, 65535] {
        let mut s = String::new();
        push_decimal(&mut s, n as usize);
        assert_eq!(parse_u16(&s), Some(n));
    }
}

#[test]
fn written_backend_url_reads_back() {
    for (octets, port) in [([127u8, 0, 0, 1], 3000u16), ([255, 255, 255, 255], 65535), ([0, 10, 200, 7], 0)] {
        let mut url = String::new();
        for (i, o) in octets.iter().enumerate() {
            if i > 0 {
                url.push('.');
            }
            push_decimal(&mut url, *o as usize);
        }
        url.push(':');
        push_decimal(&mut url, port as usize);
        let t = parse_backend_url(&url).unwrap();
        assert_eq!(t.ipv4, Some(octets));
        assert_eq!(t.port, port);
    }
}
