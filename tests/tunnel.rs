use np_tunnel::config::Config;
use np_tunnel::frame::on_try_extract_frame;
use np_tunnel::player::Player;
use np_tunnel::text::get_tunnel_address_port;
use np_tunnel::tunnel::{
    is_valid_tunnel_endpoint_address, is_valid_tunnel_source_address, tunnel_change_notices,
    tunnel_update_notices, Model, TunnelError, TunnelManager,
};

fn model(id: u32, source: &str, endpoint: &str, sender: u32, receiver: u32) -> Model {
    Model {
        id,
        source: source.to_string(),
        endpoint: endpoint.to_string(),
        enabled: 1,
        sender,
        receiver,
        description: "d".to_string(),
        tunnel_type: 0,
        password: "pw".to_string(),
        username: "user".to_string(),
    }
}

#[test]
fn address_ports() {
    assert_eq!(get_tunnel_address_port(&"127.0.0.1:9001".to_string()), Some(9001));
    assert_eq!(get_tunnel_address_port(&":65535".to_string()), Some(65535));
    assert_eq!(get_tunnel_address_port(&"h:65536".to_string()), None);
    assert_eq!(get_tunnel_address_port(&"h:".to_string()), None);
    assert_eq!(get_tunnel_address_port(&"h:12a".to_string()), None);
    assert_eq!(get_tunnel_address_port(&"nocolon".to_string()), None);
    assert_eq!(get_tunnel_address_port(&"[::1]:80".to_string()), Some(80));
    assert!(is_valid_tunnel_source_address(&":80".to_string()));
    assert!(!is_valid_tunnel_endpoint_address(&":80".to_string()));
    assert!(is_valid_tunnel_endpoint_address(&"example.com:80".to_string()));
}

#[test]
fn descriptions() {
    let t = model(12, "0.0.0.0:80", "10.0.0.2:8080", 3, 4);
    assert_eq!(t.outlet_description(), "id:12-sender:3-enabled:1");
    assert_eq!(
        t.inlet_description(),
        "id:12-source:0.0.0.0:80-endpoint:10.0.0.2:8080-sender:3-receiver:4-tunnel_type:0-username:user-password:pw-enabled:1"
    );
    let z = model(0, "", "", 0, 4294967295);
    assert_eq!(z.outlet_description(), "id:0-sender:0-enabled:1");
}

#[test]
fn manager_lookup_and_conflicts() {
    let mut m = TunnelManager::new();
    assert!(m.get_tunnel(1).is_none());
    m.insert_tunnel(model(1, "0.0.0.0:80", "a:1", 3, 4));
    m.insert_tunnel(model(2, "0.0.0.0:81", "a:1", 3, 4));
    assert_eq!(m.get_tunnel(2).map(|t| t.id), Some(2));
    assert!(m.port_conflict_detection(3, Some(80), None));
    assert!(!m.port_conflict_detection(3, Some(80), Some(1)));
    assert!(!m.port_conflict_detection(5, Some(80), None));
    assert_eq!(m.validate_tunnel(&model(0, "bad", "a:1", 3, 4), None), Err(TunnelError::AddressFormat));
    assert_eq!(m.validate_tunnel(&model(0, ":80", "a:1", 3, 4), None), Err(TunnelError::PortConflict));
    assert_eq!(m.validate_tunnel(&model(0, ":82", "a:1", 3, 4), None), Ok(()));
    assert_eq!(m.check_update_tunnel(&model(2, ":81", "a:1", 3, 4)), Ok(1));
    assert_eq!(m.check_update_tunnel(&model(9, ":90", "a:1", 3, 4)), Err(TunnelError::NotFound));
    let old = m.replace_tunnel(1, model(2, ":85", "a:2", 3, 4));
    assert_eq!(old.source, "0.0.0.0:81");
    assert_eq!(m.tunnels[1].source, ":85");
    assert_eq!(m.remove_tunnel(1).map(|t| t.id), Some(1));
    assert!(m.remove_tunnel(1).is_none());
    assert_eq!(m.tunnels.len(), 1);
}

#[test]
fn query_pages() {
    let mut m = TunnelManager::new();
    for i in 0..25u32 {
        m.insert_tunnel(model(i, ":1", "a:1", 1, 1));
    }
    let ids = |v: Vec<Model>| v.iter().map(|t| t.id).collect::<Vec<u32>>();
    assert_eq!(ids(m.query(0, 0)), (0..10).collect::<Vec<u32>>());
    assert_eq!(ids(m.query(2, 10)), (20..25).collect::<Vec<u32>>());
    assert_eq!(ids(m.query(1, 101)), (10..20).collect::<Vec<u32>>());
    assert!(m.query(3, 10).is_empty());
    assert!(m.query(usize::MAX, 100).is_empty());
    assert_eq!(ids(m.query(0, 25)), (0..25).collect::<Vec<u32>>());
    assert!(m.query(1, 25).is_empty());
}

#[test]
fn notices() {
    let t = model(1, ":1", "a:1", 3, 4);
    assert_eq!(tunnel_change_notices(&t, false), vec![(3, false), (4, false)]);
    let same = model(1, ":1", "a:1", 3, 3);
    assert_eq!(tunnel_change_notices(&same, true), vec![(3, true)]);
    let nobody = model(1, ":1", "a:1", 0, 4);
    assert_eq!(tunnel_change_notices(&nobody, true), vec![(4, true)]);
    let prev = model(1, ":1", "a:1", 5, 6);
    assert_eq!(tunnel_update_notices(&prev, &t), vec![(5, true), (6, true), (3, false), (4, false)]);
    assert_eq!(tunnel_update_notices(&t, &t), vec![(4, true), (3, false), (4, false)]);
}

#[test]
fn frame_takes_whole_buffer() {
    let mut b = bytes::BytesMut::new();
    assert_eq!(on_try_extract_frame(&mut b), None);
    b.extend_from_slice(b"hello world");
    assert_eq!(on_try_extract_frame(&mut b), Some(b"hello world".to_vec()));
    assert!(b.is_empty());
    assert_eq!(on_try_extract_frame(&mut b), None);
}

#[test]
fn player_sessions() {
    let mut p: Player<u8> = Player::new(7);
    assert_eq!(p.get_player_id(), 7);
    assert_eq!(p.get_session_id(), 32);
    assert!(p.is_online());
    p.on_disconnect_session();
    assert!(!p.is_online());
    p.on_connect_session(11, 1);
    assert_eq!(p.get_session_id(), 11);
    assert_eq!(p.tx(), &Some(1));
    p.on_terminate_old_session();
    assert!(!p.is_online());
    assert_eq!(p.tx(), &None);
}

#[test]
fn config_holds_url() {
    let c = Config { database_url: "sqlite://x".to_string() };
    assert_eq!(c.clone(), c);
}
