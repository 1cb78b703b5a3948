use std::collections::BTreeMap;
use vstd::prelude::*;
use crate::util::spin_wait;

verus! {

broadcast use vstd::std_specs::btree::group_btree_axioms;

/// Lifecycle of a socket.
#[derive(PartialEq, Eq, Structural, Clone, Copy)]
pub enum SocketState {
    Created,
    Bound,
    Listening,
    Connected,
    Closed,
}

pub struct Socket {
    pub fd: i32,
    pub domain: i32,
    pub sock_type: i32,
    pub state: SocketState,
    pub local_addr: [u8; 128],
    pub remote_addr: [u8; 128],
    pub buffer: Vec<u8>,
}

/// All sockets, in creation order, and the next descriptor to hand out.
pub struct SocketTable {
    pub sockets: Vec<Socket>,
    pub next_fd: i32,
}

pub struct EpollEvent {
    pub fd: i32,
    pub events: u32,
}

pub struct EpollInstance {
    pub events: Vec<EpollEvent>,
}

/// Epoll instances by descriptor.
pub struct EpollTable {
    pub instances: BTreeMap<i32, EpollInstance>,
}

/// Error codes the socket calls answer with.
pub const EBADF: isize = -9;
pub const EAGAIN: isize = -11;
/// `MSG_DONTWAIT`.
pub const MSG_DONTWAIT: i32 = 0x40;

/// First descriptor a fresh table hands out.
pub const FIRST_SOCKET_FD: i32 = 1024;

impl SocketTable {
    pub fn new() -> (t: Self)
        ensures
            t.sockets@.len() == 0,
            t.next_fd == FIRST_SOCKET_FD,
            t.wf(),
    {
        SocketTable { sockets: Vec::new(), next_fd: FIRST_SOCKET_FD }
    }

    /// The descriptors are issued ones: distinct, from `FIRST_SOCKET_FD`
    /// up to below `next_fd`.
    pub open spec fn wf(&self) -> bool {
        fds_issued(self.sockets@, self.next_fd)
    }
}

/// The descriptors in `s` are distinct and in `[FIRST_SOCKET_FD, next)`.
pub open spec fn fds_issued(s: Seq<Socket>, next: i32) -> bool {
    &&& next >= FIRST_SOCKET_FD
    &&& forall|i: int| 0 <= i < s.len() ==> FIRST_SOCKET_FD <= #[trigger] s[i].fd < next
    &&& forall|i: int, j: int| 0 <= i < s.len() && 0 <= j < s.len() && i != j ==> #[trigger] s[i].fd != #[trigger] s[j].fd
}

/// Changing one socket but not its descriptor keeps the descriptors issued.
proof fn lemma_fds_update(s: Seq<Socket>, t: Seq<Socket>, next: i32, i: int)
    requires
        fds_issued(s, next),
        0 <= i < s.len(),
        t.len() == s.len(),
        forall|j: int| 0 <= j < s.len() && j != i ==> t[j] == s[j],
        t[i].fd == s[i].fd,
    ensures
        fds_issued(t, next),
{
    assert forall|a: int, b: int| 0 <= a < t.len() && 0 <= b < t.len() && a != b implies #[trigger] t[a].fd != #[trigger] t[b].fd by {
        assert(t[a].fd == s[a].fd && t[b].fd == s[b].fd);
        assert(s[a].fd != s[b].fd);
    }
    assert forall|a: int| 0 <= a < t.len() implies FIRST_SOCKET_FD <= #[trigger] t[a].fd < next by {
        assert(t[a].fd == s[a].fd);
        assert(FIRST_SOCKET_FD <= s[a].fd < next);
    }
}

/// Appending a socket with the next descriptor, and moving the counter past
/// it, keeps the descriptors issued; no socket had that descriptor.
proof fn lemma_fds_push(s: Seq<Socket>, next: i32, n: Socket)
    requires
        fds_issued(s, next),
        n.fd == next,
        next < i32::MAX,
    ensures
        fds_issued(s.push(n), (next + 1) as i32),
        !has_fd(s, next),
{
    let t = s.push(n);
    assert forall|a: int, b: int| 0 <= a < t.len() && 0 <= b < t.len() && a != b implies #[trigger] t[a].fd != #[trigger] t[b].fd by {
        if a < s.len() && b < s.len() {
            assert(s[a].fd != s[b].fd);
        } else if a < s.len() {
            assert(s[a].fd < next);
        } else {
            assert(s[b].fd < next);
        }
    }
    assert forall|a: int| 0 <= a < t.len() implies FIRST_SOCKET_FD <= #[trigger] t[a].fd < next + 1 by {
        if a < s.len() {
            assert(FIRST_SOCKET_FD <= s[a].fd < next);
        }
    }
    if has_fd(s, next) {
        let k = choose|k: int| 0 <= k < s.len() && s[k].fd == next;
        assert(s[k].fd < next);
    }
}

impl EpollTable {
    pub fn new() -> (t: Self)
        ensures
            t.instances@ == Map::<i32, EpollInstance>::empty(),
    {
        EpollTable { instances: BTreeMap::new() }
    }
}

/// `i` is the first socket in `s` with descriptor `fd`.
pub open spec fn first_with_fd(s: Seq<Socket>, fd: i32, i: int) -> bool {
    &&& 0 <= i < s.len()
    &&& s[i].fd == fd
    &&& forall|j: int| 0 <= j < i ==> s[j].fd != fd
}

pub open spec fn has_fd(s: Seq<Socket>, fd: i32) -> bool {
    exists|i: int| 0 <= i < s.len() && s[i].fd == fd
}

/// The slot of the first socket with descriptor `fd`.
pub open spec fn slot_of(s: Seq<Socket>, fd: i32) -> int {
    choose|i: int| first_with_fd(s, fd, i)
}

pub proof fn lemma_slot_of(s: Seq<Socket>, fd: i32, i: int)
    requires
        first_with_fd(s, fd, i),
    ensures
        slot_of(s, fd) == i,
{
    let k = slot_of(s, fd);
    assert(first_with_fd(s, fd, k));
    if k < i {
        assert(s[k].fd != fd);
    } else if k > i {
        assert(s[i].fd != fd);
    }
}

/// Some slot with the descriptor has a first one at or before it.
proof fn lemma_first_fd(s: Seq<Socket>, fd: i32, w: int)
    requires
        0 <= w < s.len(),
        s[w].fd == fd,
    ensures
        exists|k: int| first_with_fd(s, fd, k),
    decreases w,
{
    if exists|j: int| 0 <= j < w && s[j].fd == fd {
        let j = choose|j: int| 0 <= j < w && s[j].fd == fd;
        lemma_first_fd(s, fd, j);
    } else {
        assert(first_with_fd(s, fd, w));
    }
}

/// Whether some socket with descriptor `fd` is listening.
pub open spec fn has_listener(s: Seq<Socket>, fd: i32) -> bool {
    exists|i: int| 0 <= i < s.len() && s[i].fd == fd && s[i].state == SocketState::Listening
}

/// The socket that `create_socket` or `accept_socket` adds.
pub open spec fn fresh_socket(s: Socket, fd: i32, domain: i32, sock_type: i32, state: SocketState) -> bool {
    &&& s.fd == fd
    &&& s.domain == domain
    &&& s.sock_type == sock_type
    &&& s.state == state
    &&& s.local_addr@ == Seq::new(128, |i: int| 0u8)
    &&& s.remote_addr@ == Seq::new(128, |i: int| 0u8)
    &&& s.buffer@.len() == 0
}

/// Finds the first socket with descriptor `fd`.
pub fn find_socket(sockets: &Vec<Socket>, fd: i32) -> (r: Option<usize>)
    ensures
        r matches Some(i) ==> first_with_fd(sockets@, fd, i as int) && slot_of(sockets@, fd) == i,
        r is None <==> !has_fd(sockets@, fd),
{
    let mut i: usize = 0;
    while i < sockets.len()
        invariant
            i <= sockets@.len(),
            forall|j: int| 0 <= j < i ==> sockets@[j].fd != fd,
        decreases sockets@.len() - i,
    {
        if sockets[i].fd == fd {
            proof {
                lemma_slot_of(sockets@, fd, i as int);
            }
            return Some(i);
        }
        i += 1;
    }
    None
}

fn new_socket(fd: i32, domain: i32, sock_type: i32, state: SocketState) -> (s: Socket)
    ensures
        fresh_socket(s, fd, domain, sock_type, state),
{
    let s = Socket {
        fd,
        domain,
        sock_type,
        state,
        local_addr: [0u8; 128],
        remote_addr: [0u8; 128],
        buffer: Vec::new(),
    };
    proof {
        assert(s.local_addr@ =~= Seq::new(128, |i: int| 0u8));
        assert(s.remote_addr@ =~= Seq::new(128, |i: int| 0u8));
    }
    s
}

/// Opens a socket: it gets the next descriptor and starts out `Created`.
/// The protocol is not recorded.
pub fn create_socket(table: &mut SocketTable, domain: i32, sock_type: i32, protocol: i32) -> (r: isize)
    requires
        old(table).next_fd < i32::MAX,
        old(table).wf(),
    ensures
        final(table).wf(),
        !has_fd(old(table).sockets@, old(table).next_fd),
        r == old(table).next_fd,
        final(table).next_fd == old(table).next_fd + 1,
        final(table).sockets@.len() == old(table).sockets@.len() + 1,
        final(table).sockets@.drop_last() == old(table).sockets@,
        fresh_socket(final(table).sockets@.last(), old(table).next_fd, domain, sock_type, SocketState::Created),
{
    let fd = table.next_fd;
    table.next_fd = fd + 1;
    let s = new_socket(fd, domain, sock_type, SocketState::Created);
    table.sockets.push(s);
    proof {
        lemma_fds_push(old(table).sockets@, fd, s);
        assert(table.sockets@.drop_last() =~= old(table).sockets@);
    }
    fd as isize
}

/// The first `min(len, 128)` bytes of `addr` over the start of `old`.
pub open spec fn copy_addr(old: Seq<u8>, addr: Seq<u8>, len: int) -> Seq<u8> {
    let n = if len < 128 { len } else { 128 };
    addr.subrange(0, n) + old.subrange(n, 128)
}

fn copy_into_addr(dst: &mut [u8; 128], addr: &[u8], addrlen: usize)
    requires
        addr@.len() >= (if addrlen < 128 { addrlen as int } else { 128 }),
    ensures
        final(dst)@ == copy_addr(old(dst)@, addr@, addrlen as int),
{
    let n = if addrlen < 128 { addrlen } else { 128 };
    let mut i: usize = 0;
    while i < n
        invariant
            n <= 128,
            n <= addr@.len(),
            i <= n,
            dst@.len() == 128,
            forall|j: int| 0 <= j < i ==> dst@[j] == addr@[j],
            forall|j: int| i <= j < 128 ==> dst@[j] == old(dst)@[j],
        decreases n - i,
    {
        dst[i] = addr[i];
        i += 1;
    }
    proof {
        assert(dst@ =~= copy_addr(old(dst)@, addr@, addrlen as int));
    }
}

/// The table after the first socket with descriptor `fd` is given a new
/// state and, where `addr` says so, a new address.
pub open spec fn updated_at(old: Seq<Socket>, new: Seq<Socket>, i: int) -> bool {
    &&& new.len() == old.len()
    &&& forall|j: int| 0 <= j < old.len() && j != i ==> new[j] == old[j]
}

/// Binds a socket: copies at most 128 bytes of the address (`addr` holds
/// the bytes the caller passed) into its local address and marks it
/// `Bound`. Answers 0, or `EBADF` when no socket has that descriptor.
pub fn bind_socket(table: &mut SocketTable, sockfd: i32, addr: &[u8], addrlen: usize) -> (r: isize)
    requires
        old(table).wf(),
        old(table).sockets@.len() < usize::MAX,
        addr@.len() >= (if addrlen < 128 { addrlen as int } else { 128 }),
    ensures
        final(table).wf(),
        final(table).next_fd == old(table).next_fd,
        has_fd(old(table).sockets@, sockfd) ==> {
            let i = slot_of(old(table).sockets@, sockfd);
            let o = old(table).sockets@[i];
            let n = final(table).sockets@[i];
            &&& r == 0
            &&& updated_at(old(table).sockets@, final(table).sockets@, i)
            &&& n.fd == o.fd && n.domain == o.domain && n.sock_type == o.sock_type
            &&& n.remote_addr == o.remote_addr && n.buffer == o.buffer
            &&& n.state == SocketState::Bound
            &&& n.local_addr@ == copy_addr(o.local_addr@, addr@, addrlen as int)
        },
        !has_fd(old(table).sockets@, sockfd) ==> r == EBADF && final(table).sockets@ == old(table).sockets@,
{
    match find_socket(&table.sockets, sockfd) {
        Some(i) => {
            let mut s = table.sockets.remove(i);
            copy_into_addr(&mut s.local_addr, addr, addrlen);
            s.state = SocketState::Bound;
            table.sockets.insert(i, s);
            0
        },
        None => EBADF,
    }
}

/// Puts a socket in the `Listening` state. Answers 0, or `EBADF`.
pub fn listen_socket(table: &mut SocketTable, sockfd: i32, backlog: i32) -> (r: isize)
    requires
        old(table).wf(),
        old(table).sockets@.len() < usize::MAX,
    ensures
        final(table).wf(),
        final(table).next_fd == old(table).next_fd,
        has_fd(old(table).sockets@, sockfd) ==> {
            let i = slot_of(old(table).sockets@, sockfd);
            let o = old(table).sockets@[i];
            &&& r == 0
            &&& updated_at(old(table).sockets@, final(table).sockets@, i)
            &&& final(table).sockets@[i] == Socket { state: SocketState::Listening, ..o }
        },
        !has_fd(old(table).sockets@, sockfd) ==> r == EBADF && final(table).sockets@ == old(table).sockets@,
{
    match find_socket(&table.sockets, sockfd) {
        Some(i) => {
            let mut s = table.sockets.remove(i);
            s.state = SocketState::Listening;
            table.sockets.insert(i, s);
            0
        },
        None => EBADF,
    }
}

/// Connects a socket: copies at most 128 bytes of the address into its
/// remote address and marks it `Connected`. Answers 0, or `EBADF`.
pub fn connect_socket(table: &mut SocketTable, sockfd: i32, addr: &[u8], addrlen: usize) -> (r: isize)
    requires
        old(table).wf(),
        old(table).sockets@.len() < usize::MAX,
        addr@.len() >= (if addrlen < 128 { addrlen as int } else { 128 }),
    ensures
        final(table).wf(),
        final(table).next_fd == old(table).next_fd,
        has_fd(old(table).sockets@, sockfd) ==> {
            let i = slot_of(old(table).sockets@, sockfd);
            let o = old(table).sockets@[i];
            let n = final(table).sockets@[i];
            &&& r == 0
            &&& updated_at(old(table).sockets@, final(table).sockets@, i)
            &&& n.fd == o.fd && n.domain == o.domain && n.sock_type == o.sock_type
            &&& n.local_addr == o.local_addr && n.buffer == o.buffer
            &&& n.state == SocketState::Connected
            &&& n.remote_addr@ == copy_addr(o.remote_addr@, addr@, addrlen as int)
        },
        !has_fd(old(table).sockets@, sockfd) ==> r == EBADF && final(table).sockets@ == old(table).sockets@,
{
    match find_socket(&table.sockets, sockfd) {
        Some(i) => {
            let mut s = table.sockets.remove(i);
            copy_into_addr(&mut s.remote_addr, addr, addrlen);
            s.state = SocketState::Connected;
            table.sockets.insert(i, s);
            0
        },
        None => EBADF,
    }
}

fn find_listener(sockets: &Vec<Socket>, fd: i32) -> (r: bool)
    ensures
        r == has_listener(sockets@, fd),
{
    let mut i: usize = 0;
    while i < sockets.len()
        invariant
            i <= sockets@.len(),
            forall|j: int|
                0 <= j < i ==> !(sockets@[j].fd == fd && sockets@[j].state == SocketState::Listening),
        decreases sockets@.len() - i,
    {
        if sockets[i].fd == fd && sockets[i].state == SocketState::Listening {
            return true;
        }
        i += 1;
    }
    false
}

/// Accepts a connection on a listening socket: a new socket, already
/// `Connected` and with domain and type 0, gets the next descriptor, which is
/// the answer. Answers `EBADF` when no socket with that descriptor listens.
pub fn accept_socket(table: &mut SocketTable, sockfd: i32, addr: usize, addrlen: usize) -> (r: isize)
    requires
        has_listener(old(table).sockets@, sockfd) ==> old(table).next_fd < i32::MAX,
        old(table).wf(),
    ensures
        final(table).wf(),
        has_listener(old(table).sockets@, sockfd) ==> !has_fd(old(table).sockets@, old(table).next_fd),
        has_listener(old(table).sockets@, sockfd) ==> {
            &&& r == old(table).next_fd
            &&& final(table).next_fd == old(table).next_fd + 1
            &&& final(table).sockets@.len() == old(table).sockets@.len() + 1
            &&& final(table).sockets@.drop_last() == old(table).sockets@
            &&& fresh_socket(final(table).sockets@.last(), old(table).next_fd, 0, 0, SocketState::Connected)
        },
        !has_listener(old(table).sockets@, sockfd) ==> r == EBADF && final(table).sockets@ == old(table).sockets@
            && final(table).next_fd == old(table).next_fd,
{
    if find_listener(&table.sockets, sockfd) {
        let new_fd = table.next_fd;
        table.next_fd = new_fd + 1;
        let s = new_socket(new_fd, 0, 0, SocketState::Connected);
        table.sockets.push(s);
        proof {
            lemma_fds_push(old(table).sockets@, new_fd, s);
            assert(table.sockets@.drop_last() =~= old(table).sockets@);
        }
        return new_fd as isize;
    }
    EBADF
}

/// A socket put in the listening state accepts: once `listen_socket` has
/// marked the socket with that descriptor, `accept_socket` on it finds a
/// listener.
pub proof fn lemma_listen_then_accept(s: Seq<Socket>, s2: Seq<Socket>, fd: i32)
    requires
        has_fd(s, fd),
        updated_at(s, s2, slot_of(s, fd)),
        s2[slot_of(s, fd)] == (Socket { state: SocketState::Listening, ..s[slot_of(s, fd)] }),
    ensures
        has_listener(s2, fd),
{
    let w = choose|w: int| 0 <= w < s.len() && s[w].fd == fd;
    lemma_first_fd(s, fd, w);
    let i = slot_of(s, fd);
    assert(first_with_fd(s, fd, i));
    assert(s2[i].fd == fd && s2[i].state == SocketState::Listening);
}

/// Sends on a socket: nothing is queued; the answer is the length itself
/// (as a signed value), or `EBADF` when no socket has that descriptor.
pub fn send_to(table: &SocketTable, sockfd: i32, buf: usize, len: usize, flags: i32, dest_addr: usize, addrlen: usize) -> (r: isize)
    ensures
        has_fd(table.sockets@, sockfd) ==> r == len as isize,
        !has_fd(table.sockets@, sockfd) ==> r == EBADF,
{
    match find_socket(&table.sockets, sockfd) {
        Some(_) => len as isize,
        None => EBADF,
    }
}

/// Receives from a socket's queue. With bytes queued, takes the first
/// `min(len, queued)` of them off the queue and hands them back; the answer
/// is their number. With nothing queued the answer is `EAGAIN` when the
/// flags ask not to wait, else 0. `EBADF` when no socket has that
/// descriptor.
pub fn recv_from(table: &mut SocketTable, sockfd: i32, len: usize, flags: i32) -> (r: (isize, Vec<u8>))
    requires
        old(table).wf(),
        old(table).sockets@.len() < usize::MAX,
    ensures
        final(table).wf(),
        final(table).next_fd == old(table).next_fd,
        has_fd(old(table).sockets@, sockfd) ==> {
            let i = slot_of(old(table).sockets@, sockfd);
            let o = old(table).sockets@[i];
            let n = final(table).sockets@[i];
            let k: int = if len < o.buffer@.len() { len as int } else { o.buffer@.len() as int };
            &&& updated_at(old(table).sockets@, final(table).sockets@, i)
            &&& n.fd == o.fd && n.domain == o.domain && n.sock_type == o.sock_type
            &&& n.state == o.state && n.local_addr == o.local_addr && n.remote_addr == o.remote_addr
            &&& if o.buffer@.len() == 0 {
                &&& r.0 == (if flags & MSG_DONTWAIT != 0 { EAGAIN } else { 0 })
                &&& r.1@.len() == 0
                &&& n.buffer@ == o.buffer@
            } else {
                &&& r.0 == k as isize
                &&& r.1@ == o.buffer@.subrange(0, k)
                &&& n.buffer@ == o.buffer@.subrange(k, o.buffer@.len() as int)
            }
        },
        !has_fd(old(table).sockets@, sockfd) ==> r.0 == EBADF && r.1@.len() == 0
            && final(table).sockets@ == old(table).sockets@,
{
    match find_socket(&table.sockets, sockfd) {
        Some(i) => {
            let mut s = table.sockets.remove(i);
            if s.buffer.len() == 0 {
                table.sockets.insert(i, s);
                let code = if (flags & MSG_DONTWAIT) != 0 { EAGAIN } else { 0 };
                return (code, Vec::new());
            }
            let copy_len = if len < s.buffer.len() { len } else { s.buffer.len() };
            let mut taken = s.buffer.split_off(copy_len);
            std::mem::swap(&mut s.buffer, &mut taken);
            table.sockets.insert(i, s);
            (copy_len as isize, taken)
        },
        None => (EBADF, Vec::new()),
    }
}

/// Waits on an epoll instance: spins `timeout` rounds when it is positive,
/// then reports no event (0). `EBADF` when there is no such instance.
pub fn epoll_wait(table: &EpollTable, epfd: i32, events: usize, maxevents: i32, timeout: i32) -> (r: isize)
    ensures
        r == (if table.instances@.contains_key(epfd) { 0 } else { EBADF }),
{
    if table.instances.contains_key(&epfd) {
        if timeout > 0 {
            spin_wait(timeout as u64);
        }
        return 0;
    }
    EBADF
}

} // verus!
