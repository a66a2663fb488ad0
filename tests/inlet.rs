use np_tunnel::backpressure::{Backpressure, READ_BUF_MAX_LEN};
use np_tunnel::inlet::{Inlet, InletAction, InletError, InletProxyType, SendGate};
use np_tunnel::message::ProxyMessage;

fn started(method: &str, compressed: bool) -> Inlet {
    let mut inlet = Inlet::new("inlet".to_string());
    assert_eq!(
        inlet.start(InletProxyType::TCP, "127.0.0.1:9100".to_string(), compressed, method.to_string()),
        Ok(true)
    );
    inlet
}

#[test]
fn from_u32_maps_the_three_types() {
    assert_eq!(InletProxyType::from_u32(0), Some(InletProxyType::TCP));
    assert_eq!(InletProxyType::from_u32(1), Some(InletProxyType::UDP));
    assert_eq!(InletProxyType::from_u32(2), Some(InletProxyType::SOCKS5));
    assert_eq!(InletProxyType::from_u32(3), None);
}

#[test]
fn start_twice_is_refused() {
    let mut inlet = started("None", false);
    assert!(inlet.running());
    let r = inlet.start(InletProxyType::UDP, "x:1".to_string(), false, "None".to_string());
    assert_eq!(r, Err(InletError::RepeatedStart));
    assert!(inlet.running());
}

#[test]
fn socks5_is_not_implemented() {
    let mut inlet = Inlet::new("d".to_string());
    let r = inlet.start(InletProxyType::SOCKS5, "x:1".to_string(), false, "None".to_string());
    assert_eq!(r, Err(InletError::NotImplemented));
    assert!(!inlet.running());
}

#[test]
fn udp_start_reports_not_tcp() {
    let mut inlet = Inlet::new("d".to_string());
    let r = inlet.start(InletProxyType::UDP, "x:1".to_string(), false, "None".to_string());
    assert_eq!(r, Ok(false));
}

#[test]
fn bind_failure_leaves_inlet_stopped() {
    let mut inlet = started("None", false);
    let e = inlet.on_bind_failure("address in use".to_string());
    assert_eq!(e, InletError::BindFailure("address in use".to_string()));
    assert!(!inlet.running());
}

#[test]
fn stop_is_idempotent_and_restart_works() {
    let mut inlet = started("None", false);
    assert_eq!(inlet.description(), "inlet");
    for _ in 0..3 {
        assert!(inlet.stop());
        assert!(!inlet.stop());
        assert!(inlet.start(InletProxyType::TCP, "e:1".to_string(), false, "None".to_string()).is_ok());
    }
    assert!(inlet.stop());
    assert!(!inlet.running());
}

#[test]
fn session_start_emits_connect_with_base64_key() {
    let mut inlet = started("aes-128-gcm", true);
    let m = inlet.on_session_start(7, "10.0.0.1:5555".to_string(), b"abc".to_vec());
    assert_eq!(
        m,
        ProxyMessage::I2oConnect(
            7,
            true,
            true,
            "127.0.0.1:9100".to_string(),
            "aes-128-gcm".to_string(),
            "YWJj".to_string(),
            "10.0.0.1:5555".to_string()
        )
    );
}

#[test]
fn echo_round_trip_messages() {
    let mut inlet = started("None", false);
    let c = inlet.on_session_start(1, "127.0.0.1:40000".to_string(), Vec::new());
    assert!(matches!(c, ProxyMessage::I2oConnect(1, true, false, _, _, ref k, _) if k.is_empty()));
    let sent = inlet.on_recv_frame(1, b"hello".to_vec());
    assert_eq!(sent, SendGate::Sent(ProxyMessage::I2oSendData(1, b"hello".to_vec())));
    assert_eq!(inlet.input(ProxyMessage::O2iSendDataResult(1, 5)), Ok(InletAction::Nothing));
    match inlet.input(ProxyMessage::O2iRecvData(1, b"hello".to_vec())) {
        Ok(InletAction::Deliver(d)) => {
            assert_eq!(d.session_id, 1);
            assert_eq!(d.data, b"hello".to_vec());
            assert!(!d.decrypt);
            assert!(!d.decompress);
            assert_eq!(d.ack, ProxyMessage::I2oRecvDataResult(1, 5));
        }
        other => panic!("unexpected {:?}", other),
    }
}

#[test]
fn encrypted_compressed_delivery_asks_for_decoding() {
    let mut inlet = started("aes-256-gcm", true);
    inlet.on_session_start(3, "c:1".to_string(), vec![9u8; 32]);
    match inlet.input(ProxyMessage::O2iRecvData(3, vec![1u8; 100])) {
        Ok(InletAction::Deliver(d)) => {
            assert!(d.decrypt);
            assert!(d.decompress);
            assert_eq!(d.encryption_key, vec![9u8; 32]);
            assert_eq!(d.ack, ProxyMessage::I2oRecvDataResult(3, 100));
        }
        other => panic!("unexpected {:?}", other),
    }
}

#[test]
fn outlet_dial_failure_closes_session() {
    let mut inlet = started("None", false);
    inlet.on_session_start(4, "c:1".to_string(), Vec::new());
    let r = inlet.input(ProxyMessage::O2iConnect(4, false, "connection refused".to_string()));
    assert_eq!(r, Ok(InletAction::Close(4)));
    assert_eq!(inlet.on_recv_frame(4, b"x".to_vec()), SendGate::Dropped);
    assert_eq!(inlet.input(ProxyMessage::O2iRecvData(4, b"y".to_vec())), Ok(InletAction::Nothing));
}

#[test]
fn successful_connect_needs_nothing() {
    let mut inlet = started("None", false);
    inlet.on_session_start(4, "c:1".to_string(), Vec::new());
    assert_eq!(inlet.input(ProxyMessage::O2iConnect(4, true, String::new())), Ok(InletAction::Nothing));
    assert!(matches!(inlet.on_recv_frame(4, b"x".to_vec()), SendGate::Sent(_)));
}

#[test]
fn backpressure_saturation_and_release() {
    let mut inlet = started("None", false);
    inlet.on_session_start(5, "c:1".to_string(), Vec::new());
    let chunk = vec![0u8; 65536];
    let mut sent: u64 = 0;
    let mut waited = false;
    for _ in 0..64 {
        match inlet.on_recv_frame(5, chunk.clone()) {
            SendGate::Sent(_) => sent += 65536,
            SendGate::Wait(f) => {
                assert_eq!(f.len(), 65536);
                waited = true;
                break;
            }
            SendGate::Dropped => panic!("dropped"),
        }
    }
    assert!(waited);
    assert!(sent > READ_BUF_MAX_LEN);
    assert_eq!(sent, READ_BUF_MAX_LEN + 65536);
    assert_eq!(inlet.input(ProxyMessage::O2iSendDataResult(5, 65536)), Ok(InletAction::Nothing));
    assert!(matches!(inlet.on_recv_frame(5, chunk.clone()), SendGate::Sent(_)));
}

#[test]
fn unknown_session_message_is_dropped() {
    let mut inlet = started("None", false);
    assert_eq!(inlet.input(ProxyMessage::O2iRecvData(999, b"x".to_vec())), Ok(InletAction::Nothing));
    assert_eq!(inlet.input(ProxyMessage::O2iDisconnect(999)), Ok(InletAction::Nothing));
    assert_eq!(inlet.input(ProxyMessage::O2iSendDataResult(999, 1)), Ok(InletAction::Nothing));
    assert!(inlet.running());
}

#[test]
fn inlet_side_messages_are_refused() {
    let mut inlet = started("None", false);
    assert_eq!(inlet.input(ProxyMessage::I2oDisconnect(1)), Err(InletError::UnknownMessage));
    assert_eq!(inlet.input(ProxyMessage::I2oSendData(1, Vec::new())), Err(InletError::UnknownMessage));
}

#[test]
fn disconnect_while_in_flight() {
    let mut inlet = started("None", false);
    inlet.on_session_start(6, "c:1".to_string(), Vec::new());
    assert!(matches!(inlet.on_recv_frame(6, b"part".to_vec()), SendGate::Sent(_)));
    assert_eq!(inlet.on_session_close(6), Some(ProxyMessage::I2oDisconnect(6)));
    assert_eq!(inlet.on_session_close(6), None);
    assert_eq!(inlet.input(ProxyMessage::O2iRecvData(6, b"late".to_vec())), Ok(InletAction::Nothing));
    assert_eq!(inlet.on_recv_frame(6, b"more".to_vec()), SendGate::Dropped);
}

#[test]
fn outlet_disconnect_asks_for_close() {
    let mut inlet = started("None", false);
    inlet.on_session_start(8, "c:1".to_string(), Vec::new());
    assert_eq!(inlet.input(ProxyMessage::O2iDisconnect(8)), Ok(InletAction::Close(8)));
    assert_eq!(inlet.on_session_close(8), Some(ProxyMessage::I2oDisconnect(8)));
}

#[test]
fn counter_clamps_at_zero() {
    let mut b = Backpressure::new();
    b.on_send(10);
    assert_eq!(b.read_buf_len, 10);
    b.on_ack(4);
    assert_eq!(b.read_buf_len, 6);
    b.on_ack(100);
    assert_eq!(b.read_buf_len, 0);
    assert!(b.can_send());
    b.on_send(READ_BUF_MAX_LEN);
    assert!(b.can_send());
    b.on_send(1);
    assert!(!b.can_send());
}

#[test]
fn message_session_id() {
    assert_eq!(ProxyMessage::O2iSendDataResult(42, 1).session_id(), 42);
    assert_eq!(ProxyMessage::I2oDisconnect(9).session_id(), 9);
}
