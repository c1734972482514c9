//! Datagram sockets.

use edge_libos::errno::{EADDRINUSE, EADDRNOTAVAIL, EIO};
use edge_libos::fd::SockAddr;
use edge_libos::sys::udp::{Family, UdpBind, UdpFailure, UdpSocketState, RECV_QUEUE_CAP};

fn local(port: u16) -> SockAddr {
    SockAddr::V4 { port, addr: [127, 0, 0, 1] }
}

#[test]
fn udp_socket_state_default_has_no_socket_no_queue() {
    let mut s = UdpSocketState::new(Family::V4, false, false);
    assert!(!s.has_pending());
    assert!(s.try_dequeue().is_none());
    assert!(s.bound_addr.is_none());
    assert!(s.peer_addr.is_none());
}

#[test]
fn udp_socket_state_enqueue_returns_true_when_was_empty() {
    let mut s = UdpSocketState::new(Family::V4, false, false);
    assert!(s.enqueue(vec![1, 2, 3], local(53)));
    assert!(s.has_pending());
    assert!(!s.enqueue(vec![4, 5, 6], local(53)));
}

#[test]
fn udp_socket_state_dequeue_is_fifo() {
    let mut s = UdpSocketState::new(Family::V4, false, false);
    s.enqueue(vec![1], local(53));
    s.enqueue(vec![2], local(54));
    let d1 = s.try_dequeue().unwrap();
    assert_eq!(d1.bytes, vec![1]);
    assert_eq!(d1.addr, local(53));
    let d2 = s.try_dequeue().unwrap();
    assert_eq!(d2.bytes, vec![2]);
    assert_eq!(d2.addr, local(54));
    assert!(s.try_dequeue().is_none());
}

#[test]
fn udp_socket_state_queue_overflow_drops_oldest() {
    let mut s = UdpSocketState::new(Family::V4, false, false);
    let total = RECV_QUEUE_CAP + 1;
    for i in 0..total {
        s.enqueue(vec![i as u8], local(53));
    }
    let first = s.try_dequeue().unwrap();
    assert_eq!(first.bytes, vec![1]);
}

#[test]
fn udp_socket_state_pump_cancel_is_idempotent() {
    let mut s = UdpSocketState::new(Family::V4, false, false);
    s.request_pump_cancel();
    s.request_pump_cancel();
    assert!(s.pump_cancel);
}

#[test]
fn udp_socket_state_shutdown_flags_default_zero() {
    let s = UdpSocketState::new(Family::V4, false, false);
    assert_eq!(s.shutdown_flags, 0);
}

#[test]
fn a_socket_is_bound_once() {
    let mut s = UdpSocketState::new(Family::V4, false, true);
    assert!(matches!(s.ensure_bound(local(0)), UdpBind::Open(_)));
    assert_eq!(s.bound(Ok(local(4000))), Ok(local(4000)));
    assert!(!matches!(s.ensure_bound(local(0)), UdpBind::Open(_)));
    assert_eq!(s.local_addr(), Some(local(4000)));
    assert_eq!(UdpSocketState::still_bound(Some(local(4000))), Ok(local(4000)));
}

#[test]
fn a_failed_bind_leaves_the_socket_unbound() {
    let mut s = UdpSocketState::new(Family::V6, true, false);
    assert_eq!(s.bound(Err(UdpFailure::AddrInUse)), Err(-EADDRINUSE));
    assert_eq!(s.bound(Err(UdpFailure::AddrNotAvailable)), Err(-EADDRNOTAVAIL));
    assert_eq!(s.bound(Err(UdpFailure::Other)), Err(-EIO));
    assert!(s.local_addr().is_none());
    assert_eq!(UdpSocketState::still_bound(None), Err(-EIO));
    match s.ensure_bound(local(0)) {
        UdpBind::Open(plan) => {
            assert_eq!(plan.family, Family::V6);
            assert_eq!(plan.only_v6, Some(true));
            assert!(!plan.reuse_address);
        }
        UdpBind::Bound => panic!("nothing is bound"),
    }
}
