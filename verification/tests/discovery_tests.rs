use gaia::discovery::{
    extract_instance_name, format_instance, next_available, parse_instance_number, Peer,
    PeerAddr, ServiceRole,
};

#[test]
fn test_parse_instance_number() {
    assert_eq!(
        parse_instance_number("capture-01._gaia-capture._tcp.local.", "capture"),
        Some(1)
    );
    assert_eq!(
        parse_instance_number("processing-12._gaia-processing._tcp.local.", "processing"),
        Some(12)
    );
    assert_eq!(
        parse_instance_number("web-01._gaia-web._tcp.local.", "capture"),
        None
    );
    assert_eq!(parse_instance_number("garbage", "capture"), None);
}

#[test]
fn test_next_available() {
    let empty: Vec<u32> = Vec::new();
    assert_eq!(next_available(&empty), 1);

    let set: Vec<u32> = vec![1, 2, 3];
    assert_eq!(next_available(&set), 4);

    let gap: Vec<u32> = vec![1, 3];
    assert_eq!(next_available(&gap), 2);
}

#[test]
fn test_extract_instance_name() {
    assert_eq!(
        extract_instance_name("capture-01._gaia-capture._tcp.local."),
        "capture-01"
    );
}

#[test]
fn test_service_type_and_prefix() {
    assert_eq!(ServiceRole::Capture.service_type(), "_gaia-capture._tcp.local.");
    assert_eq!(ServiceRole::Processing.service_type(), "_gaia-processing._tcp.local.");
    assert_eq!(ServiceRole::Web.service_type(), "_gaia-web._tcp.local.");
    assert_eq!(ServiceRole::Capture.prefix(), "capture");
    assert_eq!(ServiceRole::Processing.prefix(), "processing");
    assert_eq!(ServiceRole::Web.prefix(), "web");
}

#[test]
fn test_format_instance() {
    assert_eq!(format_instance("capture", 1), "capture-01");
    assert_eq!(format_instance("processing", 12), "processing-12");
    assert_eq!(format_instance("web", 123), "web-123");
}

#[test]
fn test_http_url_prefers_ipv4() {
    let peer = Peer {
        instance_name: String::from("capture-01"),
        addresses: vec![
            PeerAddr::V6(String::from("fe80::1")),
            PeerAddr::V4(192, 168, 1, 10),
        ],
        port: 8089,
    };
    assert_eq!(peer.http_url().unwrap(), "http://192.168.1.10:8089");

    let v6only = Peer {
        instance_name: String::from("capture-02"),
        addresses: vec![PeerAddr::V6(String::from("fe80::1"))],
        port: 8089,
    };
    assert_eq!(v6only.http_url().unwrap(), "http://[fe80::1]:8089");

    let none = Peer {
        instance_name: String::from("capture-03"),
        addresses: Vec::new(),
        port: 8089,
    };
    assert!(none.http_url().is_none());
}

#[test]
fn test_non_loopback_addresses() {
    let peer = Peer {
        instance_name: String::from("capture-01"),
        addresses: vec![
            PeerAddr::V4(127, 0, 0, 1),
            PeerAddr::V6(String::from("fe80::1")),
            PeerAddr::V4(10, 0, 0, 2),
            PeerAddr::V6(String::from("::1")),
        ],
        port: 1,
    };
    let out = peer.non_loopback_addresses();
    assert_eq!(out.len(), 2);
    assert!(matches!(out[0], PeerAddr::V4(10, 0, 0, 2)));
    assert!(matches!(out[1], PeerAddr::V6(_)));
}
