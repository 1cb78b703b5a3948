use std::collections::BTreeMap;
use vstd::prelude::*;
use vstd::string::StringSliceAdditionalSpecFns;
use vstd::utf8::valid_utf8;
use vstd::bytes::spec_u32_from_le_bytes;
use crate::util::str_eq;
use crate::wayland::compositor_bridge::{
    BridgeState, WaylandSurfaceState, commit_fits, commits_fit, committed, fresh_surface,
    lemma_commits_fit_kept,
};
use crate::wayland::protocol::{
    decode_string, holds_message, malformed_header, parse_message, read_u32, string_total, wire_u16,
    wire_u32,
};

verus! {

broadcast use vstd::std_specs::btree::group_btree_axioms;

/// The id of the display object, which every client starts with.
pub const DISPLAY_ID: u32 = 1;

/// The objects the server knows, with what it records of each.
#[derive(Clone, Copy)]
pub enum WaylandObject {
    Display,
    Registry,
    Compositor,
    Shm,
    Surface { width: u32, height: u32, buffer_id: u32 },
    ShmPool { fd: i32, size: usize, offset: usize },
    Buffer { width: u32, height: u32, stride: u32, format: u32, data: usize },
    Seat,
    Pointer,
    Keyboard,
    XdgWmBase,
    XdgSurface { surface_id: u32 },
    XdgToplevel { surface_id: u32 },
}

/// A connected client and the objects it was given.
pub struct Client {
    pub fd: i32,
    pub objects: Vec<u32>,
}

/// The compositor's protocol state: its clients, the objects by id, the
/// next id it hands out, and the path of its socket.
pub struct WaylandServer {
    pub clients: Vec<Client>,
    pub objects: BTreeMap<u32, WaylandObject>,
    pub next_object_id: u32,
    pub socket_path: [u8; 128],
}

/// A client as values: its descriptor and its objects.
pub type ClientView = (i32, Seq<u32>);

impl WaylandServer {
    pub open spec fn clients_view(&self) -> Seq<ClientView> {
        self.clients@.map_values(|c: Client| (c.fd, c.objects@))
    }

    /// An empty server: no clients, no objects, ids handed out from 2.
    pub fn new() -> (s: Self)
        ensures
            s.clients@.len() == 0,
            s.objects@ == Map::<u32, WaylandObject>::empty(),
            s.next_object_id == 2,
            s.socket_path@ == Seq::new(128, |i: int| 0u8),
    {
        let s = WaylandServer {
            clients: Vec::new(),
            objects: BTreeMap::new(),
            next_object_id: 2,
            socket_path: [0u8; 128],
        };
        proof {
            assert(s.socket_path@ =~= Seq::new(128, |i: int| 0u8));
        }
        s
    }
}

/// The socket the server listens on.
pub open spec fn socket_path_bytes() -> Seq<u8> {
    "/tmp/wayland-0".spec_bytes()
}

/// Writes the socket path at the start of the path buffer and creates the
/// display object.
pub fn init(server: &mut WaylandServer)
    ensures
        final(server).socket_path@ == socket_path_bytes() + old(server).socket_path@.subrange(
            socket_path_bytes().len() as int,
            128,
        ),
        final(server).objects@ == old(server).objects@.insert(DISPLAY_ID, WaylandObject::Display),
        final(server).clients@ == old(server).clients@,
        final(server).next_object_id == old(server).next_object_id,
{
    let name = "/tmp/wayland-0";
    proof {
        reveal_strlit("/tmp/wayland-0");
        vstd::string::is_ascii_spec_bytes(name);
        assert(name.spec_bytes().len() == 14);
    }
    let path = name.as_bytes();
    let n = path.len();
    let mut i: usize = 0;
    while i < n
        invariant
            n == path@.len(),
            n == 14,
            path@ == socket_path_bytes(),
            i <= n,
            server.socket_path@.len() == 128,
            forall|j: int| 0 <= j < i ==> server.socket_path@[j] == path@[j],
            forall|j: int| i <= j < 128 ==> server.socket_path@[j] == old(server).socket_path@[j],
            server.objects@ == old(server).objects@,
            server.clients@ == old(server).clients@,
            server.next_object_id == old(server).next_object_id,
        decreases n - i,
    {
        server.socket_path[i] = path[i];
        i += 1;
    }
    server.objects.insert(DISPLAY_ID, WaylandObject::Display);
    proof {
        assert(server.socket_path@ =~= socket_path_bytes() + old(server).socket_path@.subrange(
            socket_path_bytes().len() as int,
            128,
        ));
    }
}

/// Adds a client that holds the display object.
pub fn accept_client(server: &mut WaylandServer, fd: i32)
    ensures
        final(server).clients_view() == old(server).clients_view().push((fd, seq![DISPLAY_ID])),
        final(server).objects@ == old(server).objects@,
        final(server).next_object_id == old(server).next_object_id,
        final(server).socket_path@ == old(server).socket_path@,
{
    let mut objects: Vec<u32> = Vec::new();
    objects.push(DISPLAY_ID);
    server.clients.push(Client { fd, objects });
    proof {
        assert(server.clients_view() =~= old(server).clients_view().push((fd, seq![DISPLAY_ID])));
    }
}

/// `i` is the first client with descriptor `fd`.
pub open spec fn first_client(cs: Seq<ClientView>, fd: i32, i: int) -> bool {
    &&& 0 <= i < cs.len()
    &&& cs[i].0 == fd
    &&& forall|j: int| 0 <= j < i ==> cs[j].0 != fd
}

/// The clients after object `id` is given to the first client with
/// descriptor `fd`; without such a client, nobody gets it.
pub open spec fn give_object(cs: Seq<ClientView>, fd: i32, id: u32) -> Seq<ClientView> {
    if exists|i: int| first_client(cs, fd, i) {
        let i = choose|i: int| first_client(cs, fd, i);
        cs.update(i, (fd, cs[i].1.push(id)))
    } else {
        cs
    }
}

proof fn lemma_first_client_unique(cs: Seq<ClientView>, fd: i32, i: int, k: int)
    requires
        first_client(cs, fd, i),
        first_client(cs, fd, k),
    ensures
        i == k,
{
    if k < i {
        assert(cs[k].0 != fd);
    } else if i < k {
        assert(cs[i].0 != fd);
    }
}

/// Gives object `id` to the first client with descriptor `fd`.
fn give_client_object(server: &mut WaylandServer, fd: i32, id: u32)
    ensures
        final(server).clients_view() == give_object(old(server).clients_view(), fd, id),
        final(server).objects@ == old(server).objects@,
        final(server).next_object_id == old(server).next_object_id,
        final(server).socket_path@ == old(server).socket_path@,
{
    let ghost cs = old(server).clients_view();
    let mut i: usize = 0;
    while i < server.clients.len()
        invariant
            i <= server.clients@.len(),
            *server == *old(server),
            cs == server.clients_view(),
            cs.len() == server.clients@.len(),
            forall|j: int| 0 <= j < i ==> cs[j].0 != fd,
        decreases server.clients@.len() - i,
    {
        if server.clients[i].fd == fd {
            proof {
                assert(cs[i as int].0 == fd);
                assert(first_client(cs, fd, i as int));
                let k = choose|k: int| first_client(cs, fd, k);
                lemma_first_client_unique(cs, fd, i as int, k);
            }
            let mut c = server.clients.remove(i);
            c.objects.push(id);
            server.clients.insert(i, c);
            proof {
                assert(server.clients_view() =~= cs.update(i as int, (fd, cs[i as int].1.push(id))));
            }
            return;
        }
        i += 1;
    }
}

/// The signed 32-bit argument at byte `off`.
pub open spec fn wire_i32(p: Seq<u8>, off: int) -> i32 {
    wire_u32(p, off) as i32
}

/// The global a registry bind names, by interface name.
pub open spec fn interface_object(name: Seq<u8>) -> Option<WaylandObject> {
    if name == "wl_compositor".spec_bytes() {
        Some(WaylandObject::Compositor)
    } else if name == "wl_shm".spec_bytes() {
        Some(WaylandObject::Shm)
    } else if name == "wl_seat".spec_bytes() {
        Some(WaylandObject::Seat)
    } else if name == "xdg_wm_base".spec_bytes() {
        Some(WaylandObject::XdgWmBase)
    } else {
        None
    }
}

/// The string argument of a registry bind, after its 4-byte name.
pub open spec fn bind_string(p: Seq<u8>) -> Seq<u8> {
    p.subrange(4, p.len() as int)
}

/// The object a registry bind creates: none when the payload is shorter
/// than 12 bytes, the interface string does not decode, or it names no
/// global the server offers.
pub open spec fn bind_object(p: Seq<u8>) -> Option<WaylandObject> {
    let rest = bind_string(p);
    let len = wire_u32(rest, 0) as int;
    if p.len() < 12 || rest.len() < string_total(len) || !valid_utf8(rest.subrange(4, 4 + len)) {
        None
    } else {
        interface_object(rest.subrange(4, 4 + len))
    }
}

/// The objects after a request `opcode` with payload `p` to object `id`.
pub open spec fn objects_after(
    objs: Map<u32, WaylandObject>,
    id: u32,
    opcode: u16,
    p: Seq<u8>,
) -> Map<u32, WaylandObject> {
    if !objs.contains_key(id) {
        objs
    } else {
        match objs[id] {
            WaylandObject::Display => if opcode == 0 && p.len() >= 4 {
                objs.insert(wire_u32(p, 0), WaylandObject::Registry)
            } else {
                objs
            },
            WaylandObject::Registry => if opcode == 0 {
                match bind_object(p) {
                    Some(o) => objs.insert(wire_u32(p, 8), o),
                    None => objs,
                }
            } else {
                objs
            },
            WaylandObject::Compositor => if opcode == 0 && p.len() >= 4 {
                objs.insert(wire_u32(p, 0), WaylandObject::Surface { width: 0, height: 0, buffer_id: 0 })
            } else {
                objs
            },
            WaylandObject::Shm => if opcode == 0 && p.len() >= 12 {
                objs.insert(
                    wire_u32(p, 0),
                    WaylandObject::ShmPool { fd: wire_i32(p, 4), size: wire_i32(p, 8) as usize, offset: 0 },
                )
            } else {
                objs
            },
            WaylandObject::Surface { width, height, .. } => if opcode == 1 && p.len() >= 4 {
                objs.insert(id, WaylandObject::Surface { width, height, buffer_id: wire_u32(p, 0) })
            } else {
                objs
            },
            WaylandObject::ShmPool { .. } => if opcode == 0 && p.len() >= 20 {
                objs.insert(
                    wire_u32(p, 0),
                    WaylandObject::Buffer {
                        width: wire_i32(p, 8) as u32,
                        height: wire_i32(p, 12) as u32,
                        stride: wire_i32(p, 16) as u32,
                        format: 0,
                        data: wire_i32(p, 4) as usize,
                    },
                )
            } else {
                objs
            },
            WaylandObject::XdgWmBase => if opcode == 2 && p.len() >= 8 {
                objs.insert(wire_u32(p, 0), WaylandObject::XdgSurface { surface_id: wire_u32(p, 4) })
            } else {
                objs
            },
            WaylandObject::XdgSurface { surface_id } => if opcode == 1 && p.len() >= 4 {
                objs.insert(wire_u32(p, 0), WaylandObject::XdgToplevel { surface_id })
            } else {
                objs
            },
            _ => objs,
        }
    }
}

/// The request is `get_registry` on the display, with the client's new
/// id for the registry.
pub open spec fn is_get_registry(objs: Map<u32, WaylandObject>, id: u32, opcode: u16, p: Seq<u8>) -> bool {
    objs.contains_key(id) && objs[id] is Display && opcode == 0 && p.len() >= 4
}

/// The request is `bind` on a registry.
pub open spec fn is_bind(objs: Map<u32, WaylandObject>, id: u32, opcode: u16) -> bool {
    objs.contains_key(id) && objs[id] is Registry && opcode == 0
}

/// After `get_registry` with a new id, that id names a registry, so later
/// requests to it are handled as registry requests (`bind`).
pub proof fn lemma_registry_reachable(objs: Map<u32, WaylandObject>, id: u32, p: Seq<u8>)
    requires
        is_get_registry(objs, id, 0, p),
    ensures
        ({
            let reg = wire_u32(p, 0);
            let after = objects_after(objs, id, 0, p);
            &&& after.contains_key(reg)
            &&& after[reg] is Registry
            &&& is_bind(after, reg, 0)
            &&& after == objs.insert(reg, WaylandObject::Registry)
        }),
{
}

/// The surfaces of the compositor after the request: a new `wl_surface`
/// is registered, and a surface commit is applied.
pub open spec fn surfaces_after(
    m: Map<u32, WaylandSurfaceState>,
    objs: Map<u32, WaylandObject>,
    id: u32,
    opcode: u16,
    p: Seq<u8>,
) -> Map<u32, WaylandSurfaceState> {
    if objs.contains_key(id) && objs[id] is Compositor && opcode == 0 && p.len() >= 4 {
        m.insert(wire_u32(p, 0), fresh_surface(wire_u32(p, 0)))
    } else if objs.contains_key(id) && objs[id] is Surface && opcode == 6 {
        committed(m, id)
    } else {
        m
    }
}

/// What a request needs so that handling it cannot overflow: a bind string
/// whose padded length is addressable.
pub open spec fn request_fits(objs: Map<u32, WaylandObject>, id: u32, opcode: u16, p: Seq<u8>) -> bool {
    is_bind(objs, id, opcode) && p.len() >= 12 ==> string_total(wire_u32(bind_string(p), 0) as int) <= usize::MAX
}

/// The payload of the message in `data`.
pub open spec fn message_payload(data: Seq<u8>) -> Seq<u8> {
    data.subrange(8, wire_u16(data, 6) as int)
}

/// A buffer the server can take: a sound header, and a request that fits.
pub open spec fn message_fits(objs: Map<u32, WaylandObject>, data: Seq<u8>) -> bool {
    &&& !malformed_header(data)
    &&& holds_message(data) ==> request_fits(objs, wire_u32(data, 0), wire_u16(data, 4), message_payload(data))
}

fn handle_display(server: &mut WaylandServer, fd: i32, opcode: u16, payload: &[u8]) -> (r: Option<Vec<u8>>)
    ensures
        r is None,
        opcode == 0 && payload@.len() >= 4 ==> {
            &&& final(server).objects@ == old(server).objects@.insert(wire_u32(payload@, 0), WaylandObject::Registry)
            &&& final(server).next_object_id == old(server).next_object_id
            &&& final(server).clients_view() == give_object(old(server).clients_view(), fd, wire_u32(payload@, 0))
        },
        !(opcode == 0 && payload@.len() >= 4) ==> *final(server) == *old(server),
        final(server).socket_path@ == old(server).socket_path@,
{
    if opcode == 0 && payload.len() >= 4 {
        let registry_id = read_u32(payload, 0);
        server.objects.insert(registry_id, WaylandObject::Registry);
        give_client_object(server, fd, registry_id);
    }
    None
}

/// The global named by an interface string.
fn lookup_interface(name: &str) -> (r: Option<WaylandObject>)
    ensures
        r == interface_object(name.spec_bytes()),
{
    if str_eq(name, "wl_compositor") {
        Some(WaylandObject::Compositor)
    } else if str_eq(name, "wl_shm") {
        Some(WaylandObject::Shm)
    } else if str_eq(name, "wl_seat") {
        Some(WaylandObject::Seat)
    } else if str_eq(name, "xdg_wm_base") {
        Some(WaylandObject::XdgWmBase)
    } else {
        None
    }
}

fn handle_registry(server: &mut WaylandServer, opcode: u16, payload: &[u8]) -> (r: Option<Vec<u8>>)
    requires
        opcode == 0 && payload@.len() >= 12 ==> string_total(wire_u32(bind_string(payload@), 0) as int) <= usize::MAX,
    ensures
        r is None,
        final(server).objects@ == (if opcode == 0 {
            match bind_object(payload@) {
                Some(o) => old(server).objects@.insert(wire_u32(payload@, 8), o),
                None => old(server).objects@,
            }
        } else {
            old(server).objects@
        }),
        final(server).clients@ == old(server).clients@,
        final(server).next_object_id == old(server).next_object_id,
        final(server).socket_path@ == old(server).socket_path@,
{
    if opcode != 0 {
        return None;
    }
    if payload.len() < 12 {
        return None;
    }
    let _name = read_u32(payload, 0);
    let new_id = read_u32(payload, 8);
    let rest = &payload[4..payload.len()];
    assert(rest@ == bind_string(payload@));
    let decoded = decode_string(rest);
    match decoded {
        None => None,
        Some((interface, _)) => {
            match lookup_interface(interface) {
                Some(object) => {
                    server.objects.insert(new_id, object);
                    None
                },
                None => None,
            }
        },
    }
}

fn handle_compositor(server: &mut WaylandServer, bridge: &mut BridgeState, opcode: u16, payload: &[u8]) -> (r: Option<Vec<u8>>)
    ensures
        r is None,
        opcode == 0 && payload@.len() >= 4 ==> {
            &&& final(server).objects@ == old(server).objects@.insert(
                wire_u32(payload@, 0),
                WaylandObject::Surface { width: 0, height: 0, buffer_id: 0 },
            )
            &&& final(bridge).surfaces@ == old(bridge).surfaces@.insert(
                wire_u32(payload@, 0),
                fresh_surface(wire_u32(payload@, 0)),
            )
        },
        !(opcode == 0 && payload@.len() >= 4) ==> final(server).objects@ == old(server).objects@
            && final(bridge).surfaces@ == old(bridge).surfaces@,
        final(server).clients@ == old(server).clients@,
        final(server).next_object_id == old(server).next_object_id,
        final(server).socket_path@ == old(server).socket_path@,
{
    if opcode == 0 && payload.len() >= 4 {
        let surface_id = read_u32(payload, 0);
        server.objects.insert(surface_id, WaylandObject::Surface { width: 0, height: 0, buffer_id: 0 });
        crate::wayland::compositor_bridge::create_surface(bridge, surface_id);
    }
    None
}

fn handle_shm(server: &mut WaylandServer, opcode: u16, payload: &[u8]) -> (r: Option<Vec<u8>>)
    ensures
        r is None,
        final(server).objects@ == (if opcode == 0 && payload@.len() >= 12 {
            old(server).objects@.insert(
                wire_u32(payload@, 0),
                WaylandObject::ShmPool {
                    fd: wire_i32(payload@, 4),
                    size: wire_i32(payload@, 8) as usize,
                    offset: 0,
                },
            )
        } else {
            old(server).objects@
        }),
        final(server).clients@ == old(server).clients@,
        final(server).next_object_id == old(server).next_object_id,
        final(server).socket_path@ == old(server).socket_path@,
{
    if opcode == 0 && payload.len() >= 12 {
        let pool_id = read_u32(payload, 0);
        let shm_fd = read_u32(payload, 4) as i32;
        let size = (read_u32(payload, 8) as i32) as usize;
        server.objects.insert(pool_id, WaylandObject::ShmPool { fd: shm_fd, size, offset: 0 });
    }
    None
}

fn handle_surface(
    server: &mut WaylandServer,
    bridge: &mut BridgeState,
    surface_id: u32,
    opcode: u16,
    payload: &[u8],
) -> (r: Option<Vec<u8>>)
    requires
        old(server).objects@.contains_key(surface_id),
        old(server).objects@[surface_id] is Surface,
        opcode == 6 ==> commit_fits(old(bridge).surfaces@, surface_id),
    ensures
        r is None,
        final(server).objects@ == (if opcode == 1 && payload@.len() >= 4 {
            old(server).objects@.insert(
                surface_id,
                WaylandObject::Surface {
                    width: old(server).objects@[surface_id]->Surface_width,
                    height: old(server).objects@[surface_id]->Surface_height,
                    buffer_id: wire_u32(payload@, 0),
                },
            )
        } else {
            old(server).objects@
        }),
        final(bridge).surfaces@ == (if opcode == 6 {
            committed(old(bridge).surfaces@, surface_id)
        } else {
            old(bridge).surfaces@
        }),
        final(server).clients@ == old(server).clients@,
        final(server).next_object_id == old(server).next_object_id,
        final(server).socket_path@ == old(server).socket_path@,
{
    if opcode == 1 {
        if payload.len() < 4 {
            return None;
        }
        let buffer_id = read_u32(payload, 0);
        match server.objects.get(&surface_id) {
            Some(WaylandObject::Surface { width, height, .. }) => {
                let (w, h) = (*width, *height);
                server.objects.insert(surface_id, WaylandObject::Surface { width: w, height: h, buffer_id });
            },
            _ => {},
        }
        None
    } else if opcode == 6 {
        crate::wayland::compositor_bridge::commit_surface(bridge, surface_id);
        None
    } else {
        None
    }
}

fn handle_shm_pool(server: &mut WaylandServer, opcode: u16, payload: &[u8]) -> (r: Option<Vec<u8>>)
    ensures
        r is None,
        final(server).objects@ == (if opcode == 0 && payload@.len() >= 20 {
            old(server).objects@.insert(
                wire_u32(payload@, 0),
                WaylandObject::Buffer {
                    width: wire_i32(payload@, 8) as u32,
                    height: wire_i32(payload@, 12) as u32,
                    stride: wire_i32(payload@, 16) as u32,
                    format: 0,
                    data: wire_i32(payload@, 4) as usize,
                },
            )
        } else {
            old(server).objects@
        }),
        final(server).clients@ == old(server).clients@,
        final(server).next_object_id == old(server).next_object_id,
        final(server).socket_path@ == old(server).socket_path@,
{
    if opcode == 0 && payload.len() >= 20 {
        let buffer_id = read_u32(payload, 0);
        let offset = (read_u32(payload, 4) as i32) as usize;
        let width = (read_u32(payload, 8) as i32) as u32;
        let height = (read_u32(payload, 12) as i32) as u32;
        let stride = (read_u32(payload, 16) as i32) as u32;
        server.objects.insert(
            buffer_id,
            WaylandObject::Buffer { width, height, stride, format: 0, data: offset },
        );
    }
    None
}

fn handle_xdg_wm_base(server: &mut WaylandServer, opcode: u16, payload: &[u8]) -> (r: Option<Vec<u8>>)
    ensures
        r is None,
        final(server).objects@ == (if opcode == 2 && payload@.len() >= 8 {
            old(server).objects@.insert(
                wire_u32(payload@, 0),
                WaylandObject::XdgSurface { surface_id: wire_u32(payload@, 4) },
            )
        } else {
            old(server).objects@
        }),
        final(server).clients@ == old(server).clients@,
        final(server).next_object_id == old(server).next_object_id,
        final(server).socket_path@ == old(server).socket_path@,
{
    if opcode == 2 && payload.len() >= 8 {
        let xdg_surface_id = read_u32(payload, 0);
        let surface_id = read_u32(payload, 4);
        server.objects.insert(xdg_surface_id, WaylandObject::XdgSurface { surface_id });
    }
    None
}

fn handle_xdg_surface(server: &mut WaylandServer, xdg_surface_id: u32, opcode: u16, payload: &[u8]) -> (r: Option<Vec<u8>>)
    requires
        old(server).objects@.contains_key(xdg_surface_id),
        old(server).objects@[xdg_surface_id] is XdgSurface,
    ensures
        r is None,
        final(server).objects@ == (if opcode == 1 && payload@.len() >= 4 {
            old(server).objects@.insert(
                wire_u32(payload@, 0),
                WaylandObject::XdgToplevel {
                    surface_id: old(server).objects@[xdg_surface_id]->XdgSurface_surface_id,
                },
            )
        } else {
            old(server).objects@
        }),
        final(server).clients@ == old(server).clients@,
        final(server).next_object_id == old(server).next_object_id,
        final(server).socket_path@ == old(server).socket_path@,
{
    if opcode == 1 {
        if payload.len() < 4 {
            return None;
        }
        let toplevel_id = read_u32(payload, 0);
        match server.objects.get(&xdg_surface_id) {
            Some(WaylandObject::XdgSurface { surface_id }) => {
                let sid = *surface_id;
                server.objects.insert(toplevel_id, WaylandObject::XdgToplevel { surface_id: sid });
            },
            _ => {},
        }
    }
    None
}

/// Toplevel requests change nothing.
fn handle_xdg_toplevel() -> (r: Option<Vec<u8>>)
    ensures
        r is None,
{
    None
}

/// Handles one request from client `fd`. No request is answered, so the
/// result is always `None`; what a request does is in the state: a
/// buffer that holds no whole message, or a request to an unknown object,
/// changes nothing.
pub fn handle_message(server: &mut WaylandServer, bridge: &mut BridgeState, fd: i32, data: &[u8]) -> (r: Option<Vec<u8>>)
    requires
        message_fits(old(server).objects@, data@),
        commits_fit(old(bridge).surfaces@),
    ensures
        r is None,
        commits_fit(final(bridge).surfaces@),
        final(server).socket_path@ == old(server).socket_path@,
        !holds_message(data@) ==> *final(server) == *old(server) && *final(bridge) == *old(bridge),
        holds_message(data@) ==> ({
            let objs = old(server).objects@;
            let id = wire_u32(data@, 0);
            let opcode = wire_u16(data@, 4);
            let p = message_payload(data@);
            &&& final(server).objects@ == objects_after(objs, id, opcode, p)
            &&& final(server).next_object_id == old(server).next_object_id
            &&& final(server).clients_view() == (if is_get_registry(objs, id, opcode, p) {
                give_object(old(server).clients_view(), fd, wire_u32(p, 0))
            } else {
                old(server).clients_view()
            })
            &&& final(bridge).surfaces@ == surfaces_after(old(bridge).surfaces@, objs, id, opcode, p)
        }),
{
    let parsed = parse_message(data);
    let (msg, payload) = match parsed {
        Some(mp) => mp,
        None => {
            return None;
        },
    };
    let target = match server.objects.get(&msg.object_id) {
        Some(o) => *o,
        None => {
            return None;
        },
    };
    proof {
        lemma_commits_fit_kept(bridge.surfaces@, msg.object_id);
        let id = msg.object_id;
        assert(commit_fits(bridge.surfaces@, id));
        if payload@.len() >= 4 {
            lemma_commits_fit_kept(bridge.surfaces@, wire_u32(payload@, 0));
        }
    }
    match target {
        WaylandObject::Display => handle_display(server, fd, msg.opcode, payload),
        WaylandObject::Registry => handle_registry(server, msg.opcode, payload),
        WaylandObject::Compositor => handle_compositor(server, bridge, msg.opcode, payload),
        WaylandObject::Shm => handle_shm(server, msg.opcode, payload),
        WaylandObject::Surface { .. } => handle_surface(server, bridge, msg.object_id, msg.opcode, payload),
        WaylandObject::ShmPool { .. } => handle_shm_pool(server, msg.opcode, payload),
        WaylandObject::XdgWmBase => handle_xdg_wm_base(server, msg.opcode, payload),
        WaylandObject::XdgSurface { .. } => handle_xdg_surface(server, msg.object_id, msg.opcode, payload),
        WaylandObject::XdgToplevel { .. } => handle_xdg_toplevel(),
        _ => None,
    }
}

/// Each global the registry offers is bound by its own interface name and
/// by no other: `wl_compositor` gives a compositor, `wl_shm` shared
/// memory, `wl_seat` a seat and `xdg_wm_base` the xdg shell; every other
/// name gives nothing.
pub proof fn lemma_interface_objects(name: Seq<u8>)
    ensures
        (interface_object(name) == Some(WaylandObject::Compositor)) <==> name == "wl_compositor".spec_bytes(),
        (interface_object(name) == Some(WaylandObject::Shm)) <==> name == "wl_shm".spec_bytes(),
        (interface_object(name) == Some(WaylandObject::Seat)) <==> name == "wl_seat".spec_bytes(),
        (interface_object(name) == Some(WaylandObject::XdgWmBase)) <==> name == "xdg_wm_base".spec_bytes(),
        (interface_object(name) is None) <==> (name != "wl_compositor".spec_bytes() && name != "wl_shm".spec_bytes()
            && name != "wl_seat".spec_bytes() && name != "xdg_wm_base".spec_bytes()),
{
    reveal_strlit("wl_compositor");
    reveal_strlit("wl_shm");
    reveal_strlit("wl_seat");
    reveal_strlit("xdg_wm_base");
    vstd::string::is_ascii_spec_bytes("wl_compositor");
    vstd::string::is_ascii_spec_bytes("wl_shm");
    vstd::string::is_ascii_spec_bytes("wl_seat");
    vstd::string::is_ascii_spec_bytes("xdg_wm_base");
    assert("wl_compositor".spec_bytes().len() == 13);
    assert("wl_shm".spec_bytes().len() == 6);
    assert("wl_seat".spec_bytes().len() == 7);
    assert("xdg_wm_base".spec_bytes().len() == 11);
}

/// A registry bind whose interface string (a 4-byte length at byte 4 of
/// the payload, then the bytes from byte 8) names a global binds the id in
/// bytes 8 to 12 to that global's object, each name to its own kind; a
/// name the server does not offer binds nothing.
pub proof fn lemma_bind_names_object(objs: Map<u32, WaylandObject>, id: u32, p: Seq<u8>)
    requires
        objs.contains_key(id),
        objs[id] == WaylandObject::Registry,
        p.len() >= 12,
        p.len() - 4 >= string_total(spec_u32_from_le_bytes(p.subrange(4, 8)) as int),
        valid_utf8(p.subrange(8, 8 + spec_u32_from_le_bytes(p.subrange(4, 8)) as int)),
    ensures
        ({
            let name = p.subrange(8, 8 + spec_u32_from_le_bytes(p.subrange(4, 8)) as int);
            let new_id = spec_u32_from_le_bytes(p.subrange(8, 12));
            let after = objects_after(objs, id, 0, p);
            &&& name == "wl_compositor".spec_bytes() ==> after == objs.insert(new_id, WaylandObject::Compositor)
            &&& name == "wl_shm".spec_bytes() ==> after == objs.insert(new_id, WaylandObject::Shm)
            &&& name == "wl_seat".spec_bytes() ==> after == objs.insert(new_id, WaylandObject::Seat)
            &&& name == "xdg_wm_base".spec_bytes() ==> after == objs.insert(new_id, WaylandObject::XdgWmBase)
            &&& interface_object(name) is None ==> after == objs
        }),
{
    let rest = bind_string(p);
    let len = spec_u32_from_le_bytes(p.subrange(4, 8)) as int;
    assert(rest.subrange(0, 4) =~= p.subrange(4, 8));
    assert(wire_u32(rest, 0) == spec_u32_from_le_bytes(p.subrange(4, 8)));
    assert(rest.subrange(4, 4 + len) =~= p.subrange(8, 8 + len));
    assert(bind_object(p) == interface_object(p.subrange(8, 8 + len)));
    lemma_interface_objects(p.subrange(8, 8 + len));
}

} // verus!
