use ssdp::header::{decimal_bytes, Header, Location, Man, MX, ST};
use ssdp::SSDPError;

#[test]
fn positive_lower_bound() {
    let mx_lower_header = &vec![b"1"[..].to_vec()];

    match MX::parse_header(mx_lower_header) {
        Ok(n) if n == MX(1) => (),
        _ => panic!("Failed To Accept 1 As MX Value"),
    };
}

#[test]
fn positive_inner_bound() {
    let mx_inner_header = &vec![b"5"[..].to_vec()];

    match MX::parse_header(mx_inner_header) {
        Ok(n) if n == MX(5) => (),
        _ => panic!("Failed To Accept 5 As MX Value"),
    };
}

#[test]
fn positive_upper_bound() {
    let mx_upper_header = &vec![b"120"[..].to_vec()];

    match MX::parse_header(mx_upper_header) {
        Ok(n) if n == MX(120) => (),
        _ => panic!("Failed To Accept 120 As MX Value"),
    };
}

#[test]
#[should_panic]
fn negative_decimal_bound() {
    let mx_decimal_header = &vec![b"0.5"[..].to_vec()];

    MX::parse_header(mx_decimal_header).unwrap();
}

#[test]
#[should_panic]
fn negative_negative_bound() {
    let mx_negative_header = &vec![b"-5"[..].to_vec()];

    MX::parse_header(mx_negative_header).unwrap();
}

#[test]
#[should_panic]
fn negative_too_high_bound() {
    let mx_too_high_header = &vec![b"121"[..].to_vec()];

    MX::parse_header(mx_too_high_header).unwrap();
}

#[test]
#[should_panic]
fn negative_zero_bound() {
    let mx_zero_header = &vec![b"0"[..].to_vec()];

    MX::parse_header(mx_zero_header).unwrap();
}

#[test]
fn mx_new_accepts_exactly_the_range() {
    assert_eq!(MX::new(0), Err(SSDPError::InvalidHeader));
    assert_eq!(MX::new(1), Ok(MX(1)));
    assert_eq!(MX::new(60), Ok(MX(60)));
    assert_eq!(MX::new(120), Ok(MX(120)));
    assert_eq!(MX::new(121), Err(SSDPError::InvalidHeader));
    assert_eq!(MX::new(255), Err(SSDPError::InvalidHeader));
}

#[test]
fn mx_parse_refuses_signs_spaces_and_several_values() {
    assert!(MX::parse_header(&vec![b"+5".to_vec()]).is_err());
    assert!(MX::parse_header(&vec![b" 5".to_vec()]).is_err());
    assert!(MX::parse_header(&vec![b"".to_vec()]).is_err());
    assert!(MX::parse_header(&vec![b"five".to_vec()]).is_err());
    assert!(MX::parse_header(&vec![b"99999999999".to_vec()]).is_err());
    assert!(MX::parse_header(&vec![]).is_err());
    assert!(MX::parse_header(&vec![b"5".to_vec(), b"5".to_vec()]).is_err());
    assert_eq!(MX::parse_header(&vec![b"007".to_vec()]), Ok(MX(7)));
}

#[test]
fn mx_formats_without_padding() {
    assert_eq!(MX(5).fmt_header(), b"5".to_vec());
    assert_eq!(MX(42).fmt_header(), b"42".to_vec());
    assert_eq!(MX(120).fmt_header(), b"120".to_vec());
    assert_eq!(decimal_bytes(0), b"0".to_vec());
    assert_eq!(decimal_bytes(255), b"255".to_vec());
    assert_eq!(MX::header_name(), "MX");
}

#[test]
fn mx_round_trips_through_its_text() {
    for n in 1..=120u8 {
        let text = MX(n).fmt_header();
        assert_eq!(MX::parse_header(&vec![text]), Ok(MX(n)));
    }
}

#[test]
fn st_fixed_tokens_and_targets() {
    assert_eq!(ST::parse_header(&vec![b"ssdp:all".to_vec()]), Ok(ST::All));
    assert_eq!(ST::parse_header(&vec![b"upnp:rootdevice".to_vec()]), Ok(ST::RootDevice));
    assert_eq!(
        ST::parse_header(&vec![b"urn:schemas-upnp-org:device:MediaServer:1".to_vec()]),
        Ok(ST::Target("urn:schemas-upnp-org:device:MediaServer:1".to_string()))
    );
    assert_eq!(ST::parse_header(&vec![b"SSDP:ALL".to_vec()]), Ok(ST::Target("SSDP:ALL".to_string())));
    assert!(ST::parse_header(&vec![vec![0xff, 0xfe]]).is_err());
    assert!(ST::parse_header(&vec![]).is_err());
    assert_eq!(ST::All.fmt_header(), b"ssdp:all".to_vec());
    assert_eq!(ST::RootDevice.fmt_header(), b"upnp:rootdevice".to_vec());
    assert_eq!(ST::Target("uuid:abc".to_string()).fmt_header(), b"uuid:abc".to_vec());
    assert_eq!(ST::header_name(), "ST");
}

#[test]
fn st_equality_is_structural() {
    assert_eq!(ST::Target("a".to_string()), ST::Target("a".to_string()));
    assert_ne!(ST::Target("a".to_string()), ST::Target("b".to_string()));
    assert_ne!(ST::All, ST::RootDevice);
}

#[test]
fn location_and_man() {
    assert_eq!(
        Location::parse_header(&vec![b"http://10.0.0.2:80/desc.xml".to_vec()]),
        Ok(Location("http://10.0.0.2:80/desc.xml".to_string()))
    );
    assert_eq!(Location("http://h/".to_string()).fmt_header(), b"http://h/".to_vec());
    assert_eq!(Location::header_name(), "LOCATION");
    assert_eq!(Man::parse_header(&vec![b"\"ssdp:discover\"".to_vec()]), Ok(Man));
    assert!(Man::parse_header(&vec![b"ssdp:discover".to_vec()]).is_err());
    assert_eq!(Man.fmt_header(), b"\"ssdp:discover\"".to_vec());
    assert_eq!(Man::header_name(), "MAN");
}
