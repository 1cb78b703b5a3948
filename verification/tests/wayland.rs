use wishy::wayland::compositor_bridge::{
    BridgeState, attach_buffer, commit_surface, create_surface, destroy_surface, get_buffer_data,
};
use wishy::wayland::protocol::{create_message, decode_string, encode_string, parse_message, read_u16, read_u32};
use wishy::wayland::server::{WaylandObject, WaylandServer, accept_client, handle_message, init};
use wishy::wayland::shm::{ShmState, create_pool, destroy_pool, get_pool_data};

#[test]
fn message_round_trip() {
    let payload = [1u8, 2, 3, 4];
    let msg = create_message(7, 3, &payload);
    assert_eq!(msg, vec![7, 0, 0, 0, 3, 0, 12, 0, 1, 2, 3, 4]);
    let (header, body) = parse_message(&msg).unwrap();
    assert_eq!(header.object_id, 7);
    assert_eq!(header.opcode, 3);
    assert_eq!(header.size, 12);
    assert_eq!(body, &payload);
}

#[test]
fn parse_rejects_short_buffers() {
    assert!(parse_message(&[1, 0, 0, 0, 0, 0]).is_none());
    // announces 16 bytes, holds 12
    assert!(parse_message(&[1, 0, 0, 0, 0, 0, 16, 0, 9, 9, 9, 9]).is_none());
}

#[test]
fn little_endian_reads() {
    let data = [0x78u8, 0x56, 0x34, 0x12, 0xcd, 0xab];
    assert_eq!(read_u32(&data, 0), 0x1234_5678);
    assert_eq!(read_u16(&data, 4), 0xabcd);
}

#[test]
fn string_round_trip_with_padding() {
    let e = encode_string("wl_shm");
    assert_eq!(e, vec![6, 0, 0, 0, b'w', b'l', b'_', b's', b'h', b'm', 0, 0]);
    let (s, used) = decode_string(&e).unwrap();
    assert_eq!(s, "wl_shm");
    assert_eq!(used, 12);
    let e4 = encode_string("seat");
    assert_eq!(e4.len(), 8);
}

#[test]
fn decode_string_errors() {
    assert!(decode_string(&[1, 0]).is_none());
    assert!(decode_string(&[8, 0, 0, 0, b'a']).is_none());
    assert!(decode_string(&[2, 0, 0, 0, 0xff, 0xfe, 0, 0]).is_none());
}

#[test]
fn shm_pools() {
    let mut st = ShmState::new();
    assert!(create_pool(&mut st, 3, 5000).is_ok());
    assert_eq!(get_pool_data(&st, 3, 16), Some(0x7000_0000 + 16));
    assert!(create_pool(&mut st, 4, 10).is_ok());
    // the first pool took two pages
    assert_eq!(get_pool_data(&st, 4, 0), Some(0x7000_2000));
    destroy_pool(&mut st, 3);
    assert_eq!(get_pool_data(&st, 3, 0), None);
}

#[test]
fn bridge_surface_lifecycle() {
    let mut b = BridgeState::new();
    create_surface(&mut b, 5);
    let s = b.surfaces.get(&5).unwrap();
    assert_eq!((s.width, s.height, s.pending_commit), (800, 600, false));
    attach_buffer(&mut b, 5, 9, 320, 200);
    let s = b.surfaces.get(&5).unwrap();
    assert_eq!((s.buffer_id, s.width, s.height, s.pending_commit), (9, 320, 200, true));
    commit_surface(&mut b, 5);
    let s = b.surfaces.get(&5).unwrap();
    assert!(!s.pending_commit);
    assert_eq!(s.compositor_surface, Some(0));
    attach_buffer(&mut b, 6, 1, 1, 1);
    assert!(b.surfaces.get(&6).is_none());
    destroy_surface(&mut b, 5);
    assert!(b.surfaces.is_empty());
    assert_eq!(get_buffer_data(9), None);
}

fn request(object: u32, opcode: u16, payload: &[u8]) -> Vec<u8> {
    create_message(object, opcode, payload)
}

#[test]
fn server_registry_bind_and_surface() {
    let mut server = WaylandServer::new();
    let mut bridge = BridgeState::new();
    init(&mut server);
    assert_eq!(&server.socket_path[..14], b"/tmp/wayland-0");
    assert_eq!(server.socket_path[14], 0);
    accept_client(&mut server, 10);
    assert_eq!(server.clients[0].objects, vec![1]);

    // get_registry on the display: the registry takes the client's new id
    let r = handle_message(&mut server, &mut bridge, 10, &request(1, 0, &[]));
    assert!(r.is_none());
    assert_eq!(server.clients[0].objects, vec![1]);
    let r = handle_message(&mut server, &mut bridge, 10, &request(1, 0, &5u32.to_le_bytes()));
    assert!(r.is_none());
    assert!(matches!(server.objects.get(&5), Some(WaylandObject::Registry)));
    assert!(server.objects.get(&2).is_none());
    assert_eq!(server.next_object_id, 2);
    assert_eq!(server.clients[0].objects, vec![1, 5]);

    // bind wl_compositor as object 20
    let mut p = vec![1u8, 0, 0, 0];
    p.extend(encode_string("wl_compositor"));
    p.extend_from_slice(&[0, 0, 0, 0]);
    // the new id sits at byte 8: inside the string's length word and bytes
    let new_id = read_u32(&p, 8);
    handle_message(&mut server, &mut bridge, 10, &request(5, 0, &p));
    assert!(matches!(server.objects.get(&new_id), Some(WaylandObject::Compositor)));

    // create_surface 30 on the compositor
    handle_message(&mut server, &mut bridge, 10, &request(new_id, 0, &[30, 0, 0, 0]));
    assert!(matches!(server.objects.get(&30), Some(WaylandObject::Surface { width: 0, height: 0, buffer_id: 0 })));
    assert!(bridge.surfaces.get(&30).is_some());

    // attach buffer 44, then commit
    handle_message(&mut server, &mut bridge, 10, &request(30, 1, &[44, 0, 0, 0]));
    assert!(matches!(server.objects.get(&30), Some(WaylandObject::Surface { buffer_id: 44, .. })));
    handle_message(&mut server, &mut bridge, 10, &request(30, 6, &[]));
    assert!(!bridge.surfaces.get(&30).unwrap().pending_commit);
}

#[test]
fn server_ignores_unknown_objects_and_bad_buffers() {
    let mut server = WaylandServer::new();
    let mut bridge = BridgeState::new();
    init(&mut server);
    let before = server.objects.len();
    assert!(handle_message(&mut server, &mut bridge, 1, &request(99, 0, &[])).is_none());
    assert!(handle_message(&mut server, &mut bridge, 1, &[1, 0, 0]).is_none());
    assert_eq!(server.objects.len(), before);
    assert_eq!(server.next_object_id, 2);
}

#[test]
fn server_shm_pool_buffer_and_xdg() {
    let mut server = WaylandServer::new();
    let mut bridge = BridgeState::new();
    init(&mut server);
    server.objects.insert(50, WaylandObject::Shm);
    server.objects.insert(51, WaylandObject::XdgWmBase);
    // create_pool 60, fd 7, size 4096
    handle_message(&mut server, &mut bridge, 1, &request(50, 0, &[60, 0, 0, 0, 7, 0, 0, 0, 0, 16, 0, 0]));
    assert!(matches!(server.objects.get(&60), Some(WaylandObject::ShmPool { fd: 7, size: 4096, offset: 0 })));
    // create_buffer 61 at offset 8, 2x3, stride 8
    let p = [61u8, 0, 0, 0, 8, 0, 0, 0, 2, 0, 0, 0, 3, 0, 0, 0, 8, 0, 0, 0];
    handle_message(&mut server, &mut bridge, 1, &request(60, 0, &p));
    assert!(matches!(
        server.objects.get(&61),
        Some(WaylandObject::Buffer { width: 2, height: 3, stride: 8, format: 0, data: 8 })
    ));
    // get_xdg_surface 70 for surface 30, then get_toplevel 71
    handle_message(&mut server, &mut bridge, 1, &request(51, 2, &[70, 0, 0, 0, 30, 0, 0, 0]));
    assert!(matches!(server.objects.get(&70), Some(WaylandObject::XdgSurface { surface_id: 30 })));
    handle_message(&mut server, &mut bridge, 1, &request(70, 1, &[71, 0, 0, 0]));
    assert!(matches!(server.objects.get(&71), Some(WaylandObject::XdgToplevel { surface_id: 30 })));
}

#[test]
fn pools_are_aligned_and_disjoint() {
    let mut st = ShmState::new();
    assert!(create_pool(&mut st, 1, 100).is_ok());
    assert!(create_pool(&mut st, 2, 4097).is_ok());
    assert!(create_pool(&mut st, 3, 1).is_ok());
    let m1 = get_pool_data(&st, 1, 0).unwrap();
    let m2 = get_pool_data(&st, 2, 0).unwrap();
    let m3 = get_pool_data(&st, 3, 0).unwrap();
    for m in [m1, m2, m3] {
        assert_eq!(m % 4096, 0);
        assert!(m >= 0x7000_0000);
    }
    assert!(m1 + 100 <= m2 && m2 + 4097 <= m3);
    destroy_pool(&mut st, 2);
    assert_eq!(get_pool_data(&st, 2, 0), None);
}
