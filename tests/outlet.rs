use np_tunnel::inlet::{InletError, SendGate};
use np_tunnel::message::ProxyMessage;
use np_tunnel::outlet::{DialRequest, Outlet, OutletAction};

fn connect(sid: u32, method: &str, key_b64: &str) -> ProxyMessage {
    ProxyMessage::I2oConnect(
        sid,
        true,
        false,
        "127.0.0.1:9100".to_string(),
        method.to_string(),
        key_b64.to_string(),
        "127.0.0.1:40000".to_string(),
    )
}

#[test]
fn outlet_connect_dials_then_reports() {
    let mut o = Outlet::new("outlet".to_string());
    assert_eq!(o.description(), "outlet");
    let r = o.input(connect(1, "None", ""));
    assert_eq!(
        r,
        Ok(OutletAction::Dial(DialRequest {
            session_id: 1,
            is_tcp: true,
            endpoint_addr: "127.0.0.1:9100".to_string()
        }))
    );
    assert_eq!(o.input(connect(1, "None", "")), Ok(OutletAction::Nothing));
    assert_eq!(o.on_dial_result(1, Ok(())), Some(ProxyMessage::O2iConnect(1, true, String::new())));
    assert_eq!(o.on_dial_result(1, Ok(())), None);
}

#[test]
fn outlet_dial_failure_reports_error() {
    let mut o = Outlet::new("o".to_string());
    assert!(matches!(o.input(connect(2, "None", "")), Ok(OutletAction::Dial(_))));
    let r = o.on_dial_result(2, Err("connection refused".to_string()));
    assert_eq!(r, Some(ProxyMessage::O2iConnect(2, false, "connection refused".to_string())));
    assert_eq!(o.input(ProxyMessage::I2oSendData(2, b"x".to_vec())), Ok(OutletAction::Nothing));
    assert_eq!(o.on_recv_frame(2, b"y".to_vec()), SendGate::Dropped);
}

#[test]
fn outlet_bad_key_is_refused() {
    let mut o = Outlet::new("o".to_string());
    match o.input(connect(3, "aes-128-gcm", "not base64!")) {
        Ok(OutletAction::Reply(ProxyMessage::O2iConnect(3, false, e))) => assert!(!e.is_empty()),
        other => panic!("unexpected {:?}", other),
    }
}

#[test]
fn outlet_key_is_decoded() {
    let mut o = Outlet::new("o".to_string());
    assert!(matches!(o.input(connect(4, "aes-128-gcm", "YWJj")), Ok(OutletAction::Dial(_))));
    o.on_dial_result(4, Ok(()));
    match o.input(ProxyMessage::I2oSendData(4, b"hello".to_vec())) {
        Ok(OutletAction::Deliver(d)) => {
            assert_eq!(d.encryption_key, b"abc".to_vec());
            assert!(d.decrypt);
            assert!(!d.decompress);
            assert_eq!(d.data, b"hello".to_vec());
            assert_eq!(d.ack, ProxyMessage::O2iSendDataResult(4, 5));
        }
        other => panic!("unexpected {:?}", other),
    }
}

#[test]
fn outlet_echo_path() {
    let mut o = Outlet::new("o".to_string());
    o.input(connect(5, "None", "")).unwrap();
    o.on_dial_result(5, Ok(())).unwrap();
    assert_eq!(
        o.on_recv_frame(5, b"hello".to_vec()),
        SendGate::Sent(ProxyMessage::O2iRecvData(5, b"hello".to_vec()))
    );
    assert_eq!(o.input(ProxyMessage::I2oRecvDataResult(5, 5)), Ok(OutletAction::Nothing));
    assert_eq!(o.input(ProxyMessage::I2oDisconnect(5)), Ok(OutletAction::Close(5)));
    assert_eq!(o.on_recv_frame(5, b"late".to_vec()), SendGate::Dropped);
    assert_eq!(o.on_session_close(5), Some(ProxyMessage::O2iDisconnect(5)));
    assert_eq!(o.on_session_close(5), None);
}

#[test]
fn outlet_disconnect_while_dialing_forgets_session() {
    let mut o = Outlet::new("o".to_string());
    o.input(connect(6, "None", "")).unwrap();
    assert_eq!(o.input(ProxyMessage::I2oDisconnect(6)), Ok(OutletAction::Nothing));
    assert_eq!(o.on_dial_result(6, Ok(())), None);
}

#[test]
fn outlet_refuses_outlet_side_messages() {
    let mut o = Outlet::new("o".to_string());
    assert_eq!(o.input(ProxyMessage::O2iDisconnect(1)), Err(InletError::UnknownMessage));
}

#[test]
fn outlet_backpressure_waits() {
    let mut o = Outlet::new("o".to_string());
    o.input(connect(7, "None", "")).unwrap();
    o.on_dial_result(7, Ok(())).unwrap();
    assert!(matches!(o.on_recv_frame(7, vec![0u8; 1048577]), SendGate::Sent(_)));
    assert!(matches!(o.on_recv_frame(7, vec![1u8; 3]), SendGate::Wait(ref f) if f.len() == 3));
    o.input(ProxyMessage::I2oRecvDataResult(7, 1)).unwrap();
    assert!(matches!(o.on_recv_frame(7, vec![1u8; 3]), SendGate::Sent(_)));
}
