use ssdp::net::{connector_addrs, filter_policy, is_not_globally, local_addrs, membership, send_target, Membership};
use ssdp::receiver::{decode_event, listener_step, ListenerAction, ListenerEvent, ListenerState};
use ssdp::{IpAddress, IpVersionMode, SSDPError, SocketAddress};

fn v6(ip: [u16; 8], scope_id: u32) -> SocketAddress {
    SocketAddress::V6 { ip, port: 0, flowinfo: 0, scope_id }
}

fn v4(ip: [u8; 4], port: u16) -> SocketAddress {
    SocketAddress::V4 { ip, port }
}

#[test]
fn ipv6_filter_policy() {
    assert!(!filter_policy(&IpAddress::V6([0; 8])));
    assert!(!filter_policy(&IpAddress::V6([0, 0, 0, 0, 0, 0, 0, 1])));
    assert!(!filter_policy(&IpAddress::V6([0xfc00, 0, 0, 0, 0, 0, 0, 1])));
    assert!(!filter_policy(&IpAddress::V6([0xfd12, 0x3456, 0, 0, 0, 0, 0, 1])));
    assert!(!filter_policy(&IpAddress::V6([0xfe80, 0, 0, 0, 0x1234, 0, 0, 1])));
    assert!(!filter_policy(&IpAddress::V6([0xfebf, 0, 0, 0, 0, 0, 0, 1])));
    assert!(!filter_policy(&IpAddress::V6([0x2001, 0xdb8, 0, 0, 0, 0, 0, 1])));
    assert!(!filter_policy(&IpAddress::V6([0x2001, 0x2, 0, 0, 0, 0, 0, 1])));
    assert!(filter_policy(&IpAddress::V6([0x2001, 0x4860, 0x4860, 0, 0, 0, 0, 0x8888])));
    assert!(filter_policy(&IpAddress::V6([0xfec0, 0, 0, 0, 0, 0, 0, 1])));
    assert!(is_not_globally(&[0, 0, 0, 0, 0, 0, 0, 1]));
    assert!(!is_not_globally(&[0x2a00, 0x1450, 0, 0, 0, 0, 0, 0x200e]));
}

#[test]
fn ipv4_filter_policy() {
    assert!(!filter_policy(&IpAddress::V4([127, 0, 0, 1])));
    assert!(!filter_policy(&IpAddress::V4([127, 1, 2, 3])));
    assert!(filter_policy(&IpAddress::V4([192, 168, 1, 10])));
    assert!(filter_policy(&IpAddress::V4([0, 0, 0, 0])));
}

#[test]
fn local_and_connector_addresses() {
    let found = vec![
        v4([127, 0, 0, 1], 0),
        v4([192, 168, 1, 10], 5),
        v6([0xfe80, 0, 0, 0, 0, 0, 0, 1], 3),
        v6([0x2001, 0x4860, 0, 0, 0, 0, 0, 1], 2),
    ];
    assert_eq!(local_addrs(&found), vec![v4([192, 168, 1, 10], 5), v6([0x2001, 0x4860, 0, 0, 0, 0, 0, 1], 2)]);
    assert_eq!(connector_addrs(&found, IpVersionMode::V4Only), vec![v4([192, 168, 1, 10], 0)]);
    assert_eq!(connector_addrs(&found, IpVersionMode::V6Only), vec![v6([0x2001, 0x4860, 0, 0, 0, 0, 0, 1], 2)]);
    assert_eq!(connector_addrs(&found, IpVersionMode::Any).len(), 2);
    assert_eq!(IpVersionMode::from_addr(&v4([1, 2, 3, 4], 0)), IpVersionMode::V4Only);
    assert_eq!(IpVersionMode::from_addr(&v6([1; 8], 0)), IpVersionMode::V6Only);
}

#[test]
fn send_target_keeps_the_interface_scope() {
    let g4 = [239, 255, 255, 250];
    let g6 = [0xff02, 0, 0, 0, 0, 0, 0, 0xc];
    assert_eq!(send_target(&v4([10, 0, 0, 2], 4000), g4, g6, 1900), v4(g4, 1900));
    let local = SocketAddress::V6 { ip: [0x2001, 1, 0, 0, 0, 0, 0, 1], port: 5000, flowinfo: 7, scope_id: 3 };
    assert_eq!(
        send_target(&local, g4, g6, 1900),
        SocketAddress::V6 { ip: g6, port: 1900, flowinfo: 7, scope_id: 3 }
    );
}

#[test]
fn membership_needs_one_family() {
    let g4 = IpAddress::V4([239, 255, 255, 250]);
    let g6 = IpAddress::V6([0xff02, 0, 0, 0, 0, 0, 0, 0xc]);
    assert_eq!(
        membership(&v4([10, 0, 0, 2], 0), &g4),
        Ok(Membership::V4 { group: [239, 255, 255, 250], iface: [10, 0, 0, 2] })
    );
    assert_eq!(
        membership(&v6([0x2001, 1, 0, 0, 0, 0, 0, 1], 9), &g6),
        Ok(Membership::V6 { group: [0xff02, 0, 0, 0, 0, 0, 0, 0xc], scope_id: 9 })
    );
    assert_eq!(membership(&v4([10, 0, 0, 2], 0), &g6), Err(SSDPError::AddressFamilyMismatch));
    assert_eq!(membership(&v6([1; 8], 0), &g4), Err(SSDPError::AddressFamilyMismatch));
}

#[test]
fn listener_decisions() {
    let run = ListenerState::Running;
    assert_eq!(listener_step(run, ListenerEvent::Decoded), (run, ListenerAction::Forward));
    assert_eq!(listener_step(run, ListenerEvent::Rejected), (run, ListenerAction::Receive));
    assert_eq!(listener_step(run, ListenerEvent::ReadFailed), (run, ListenerAction::Receive));
    assert_eq!(listener_step(run, ListenerEvent::ReadTimedOut), (ListenerState::TimedOut, ListenerAction::Stop));
    assert_eq!(listener_step(run, ListenerEvent::ForwardFailed), (ListenerState::Closed, ListenerAction::Stop));
    assert_eq!(
        listener_step(ListenerState::Closed, ListenerEvent::Decoded),
        (ListenerState::Closed, ListenerAction::Stop)
    );
    let ok: Result<u8, ()> = Ok(1);
    let bad: Result<u8, ()> = Err(());
    assert_eq!(decode_event(&ok), ListenerEvent::Decoded);
    assert_eq!(decode_event(&bad), ListenerEvent::Rejected);
}
