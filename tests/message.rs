use ssdp::header::{Location, Man, MX, ST};
use ssdp::{Config, IpVersionMode, MessageType, NotifyMessage, SSDPError, SSDPMessage, SearchRequest, SearchResponse};

#[test]
fn positive_notify_message_type() {
    let raw_message = "NOTIFY * HTTP/1.1\r\nHOST: 192.168.1.1\r\n\r\n";

    NotifyMessage::raw_ssdp(raw_message.as_bytes()).unwrap();
}

#[test]
#[should_panic]
fn negative_search_message_type() {
    let raw_message = "M-SEARCH * HTTP/1.1\r\nHOST: 192.168.1.1\r\n\r\n";

    NotifyMessage::raw_ssdp(raw_message.as_bytes()).unwrap();
}

#[test]
#[should_panic]
fn negative_response_message_type() {
    let raw_message = "HTTP/1.1 200 OK\r\n\r\n";

    NotifyMessage::raw_ssdp(raw_message.as_bytes()).unwrap();
}

#[test]
fn kinds_must_match_their_wrapper() {
    let notify = b"NOTIFY * HTTP/1.1\r\nHOST: 239.255.255.250:1900\r\n\r\n";
    let status = b"HTTP/1.1 200 OK\r\nST: ssdp:all\r\n\r\n";
    let search = b"M-SEARCH * HTTP/1.1\r\nST: ssdp:all\r\n\r\n";
    assert!(NotifyMessage::raw_ssdp(notify).is_ok());
    assert_eq!(SearchRequest::raw_ssdp(notify).err(), Some(SSDPError::WrongMessageType));
    assert_eq!(SearchResponse::raw_ssdp(notify).err(), Some(SSDPError::WrongMessageType));
    assert!(SearchResponse::raw_ssdp(status).is_ok());
    assert_eq!(NotifyMessage::raw_ssdp(status).err(), Some(SSDPError::WrongMessageType));
    assert_eq!(SearchRequest::raw_ssdp(status).err(), Some(SSDPError::WrongMessageType));
    assert!(SearchRequest::raw_ssdp(search).is_ok());
    assert_eq!(NotifyMessage::raw_ssdp(search).err(), Some(SSDPError::WrongMessageType));
}

#[test]
fn decode_errors_are_distinguished() {
    assert_eq!(SSDPMessage::decode(b"GET / HTTP/1.1\r\n\r\n").err(), Some(SSDPError::InvalidStartLine));
    assert_eq!(SSDPMessage::decode(b"NOTIFY * HTTP/1.0\r\n\r\n").err(), Some(SSDPError::InvalidStartLine));
    assert_eq!(SSDPMessage::decode(b"NOTIFY * HTTP/1.1").err(), Some(SSDPError::Truncated));
    assert_eq!(SSDPMessage::decode(b"NOTIFY * HTTP/1.1\r\nHOST: x\r\n").err(), Some(SSDPError::Truncated));
    assert_eq!(SSDPMessage::decode(b"").err(), Some(SSDPError::Truncated));
    assert_eq!(
        SSDPMessage::decode(b"NOTIFY * HTTP/1.1\r\nno colon here\r\n\r\n").err(),
        Some(SSDPError::InvalidHeaderLine)
    );
    assert_eq!(
        SSDPMessage::decode(b"NOTIFY * HTTP/1.1\r\n: empty name\r\n\r\n").err(),
        Some(SSDPError::InvalidHeaderLine)
    );
    assert_eq!(SSDPMessage::decode(b"HTTP/1.1 404 Not Found\r\n\r\n").unwrap().message_type(), MessageType::Response);
    assert_eq!(SSDPMessage::decode(b"HTTP/1.1 20 OK\r\n\r\n").err(), Some(SSDPError::InvalidStartLine));
}

#[test]
fn search_datagram_decodes_to_typed_headers() {
    let raw = b"M-SEARCH * HTTP/1.1\r\nHOST: 239.255.255.250:1900\r\nMAN: \"ssdp:discover\"\r\nMX: 5\r\nST: ssdp:all\r\n\r\n";
    let request = SearchRequest::raw_ssdp(raw).unwrap();
    assert_eq!(request.get::<MX>(), Some(MX(5)));
    assert_eq!(request.get::<ST>(), Some(ST::All));
    assert_eq!(request.get::<Man>(), Some(Man));
    assert_eq!(request.get_raw("host"), Some(vec![b"239.255.255.250:1900".to_vec()]));
    assert_eq!(request.get::<Location>(), None);
}

#[test]
fn header_names_ignore_case_and_values_are_trimmed() {
    let raw = b"NOTIFY * HTTP/1.1\r\nnt:   upnp:rootdevice  \r\nLocation:http://h/d.xml\r\n\r\n";
    let m = NotifyMessage::raw_ssdp(raw).unwrap();
    assert_eq!(m.get_raw("NT"), Some(vec![b"upnp:rootdevice".to_vec()]));
    assert_eq!(m.get::<Location>(), Some(Location("http://h/d.xml".to_string())));
}

#[test]
fn multi_valued_header_keeps_order() {
    let mut m = NotifyMessage::new();
    m.set_raw("X-Multi", vec![b"a".to_vec(), b"b".to_vec()]);
    assert_eq!(m.get_raw("X-Multi"), Some(vec![b"a".to_vec(), b"b".to_vec()]));
    assert_eq!(m.get_raw("x-multi"), Some(vec![b"a".to_vec(), b"b".to_vec()]));
    assert_eq!(m.get_raw("Other"), None);
}

#[test]
fn set_overwrites_by_name() {
    let mut m = SearchRequest::new();
    m.set_raw("mx", vec![b"9".to_vec(), b"10".to_vec()]);
    m.set(MX(3));
    assert_eq!(m.get_raw("MX"), Some(vec![b"3".to_vec()]));
    assert_eq!(m.get::<MX>(), Some(MX(3)));
    m.set_raw("Mx", vec![]);
    assert_eq!(m.get_raw("MX"), Some(vec![]));
    assert_eq!(m.get::<MX>(), None);
}

#[test]
fn header_set_with_no_values_differs_from_unset() {
    let mut m = NotifyMessage::new();
    assert_eq!(m.get_raw("X-Empty"), None);
    m.set_raw("X-Empty", vec![]);
    assert_eq!(m.get_raw("X-Empty"), Some(vec![]));
    assert_eq!(m.get_raw("x-empty"), Some(vec![]));
    assert_eq!(m.get_raw("X-Other"), None);
    assert_eq!(m.encode(), b"NOTIFY * HTTP/1.1\r\n\r\n".to_vec());
    m.set_raw("x-EMPTY", vec![b"v".to_vec()]);
    assert_eq!(m.get_raw("X-Empty"), Some(vec![b"v".to_vec()]));
    m.set_raw("X-Empty", vec![]);
    assert_eq!(m.get_raw("X-Empty"), Some(vec![]));
    assert_eq!(NotifyMessage::default().get_raw("X-Empty"), None);
}

#[test]
fn encode_writes_start_line_headers_and_blank_line() {
    let mut request = SearchRequest::new();
    request.set(Man);
    request.set(MX(5));
    request.set(ST::All);
    assert_eq!(
        request.encode(),
        b"M-SEARCH * HTTP/1.1\r\nMAN: \"ssdp:discover\"\r\nMX: 5\r\nST: ssdp:all\r\n\r\n".to_vec()
    );
    let mut notify = NotifyMessage::new();
    notify.set_raw("NTS", vec![b"ssdp:alive".to_vec()]);
    assert_eq!(notify.encode(), b"NOTIFY * HTTP/1.1\r\nNTS: ssdp:alive\r\n\r\n".to_vec());
    assert_eq!(SearchResponse::new().encode(), b"HTTP/1.1 200 OK\r\n\r\n".to_vec());
}

#[test]
fn reencoding_a_decoded_message_keeps_its_headers() {
    let inputs: Vec<&[u8]> = vec![
        b"NOTIFY * HTTP/1.1\r\nHOST:  a \r\nX: 1\r\nx: 2\r\n\r\n",
        b"M-SEARCH * HTTP/1.1\r\nST: ssdp:all\r\nEMPTY:\r\n\r\n",
        b"HTTP/1.1 200 OK\r\nLOCATION: http://h/\r\n\r\n",
    ];
    for raw in inputs {
        let m = SSDPMessage::decode(raw).unwrap();
        let again = SSDPMessage::decode(&m.encode()).unwrap();
        assert_eq!(again.message_type(), m.message_type());
        for name in ["HOST", "X", "ST", "EMPTY", "LOCATION"] {
            assert_eq!(again.get_raw(name), m.get_raw(name));
        }
        assert_eq!(again.encode(), m.encode());
    }
}

#[test]
fn config_defaults_and_setters() {
    let c = Config::new();
    assert_eq!(c.ipv4_addr, "239.255.255.250");
    assert_eq!(c.ipv6_addr, "FF02::C");
    assert_eq!(c.port, 1900);
    assert_eq!(c.ttl, 2);
    assert_eq!(c.mode, IpVersionMode::Any);
    let c = Config::default()
        .set_ipv4_addr("239.0.0.1")
        .set_ipv6_addr("FF05::C")
        .set_port(1901)
        .set_ttl(4)
        .set_mode(IpVersionMode::V6Only);
    assert_eq!(c.ipv4_addr, "239.0.0.1");
    assert_eq!(c.ipv6_addr, "FF05::C");
    assert_eq!(c.port, 1901);
    assert_eq!(c.ttl, 4);
    assert_eq!(c.mode, IpVersionMode::V6Only);
}
