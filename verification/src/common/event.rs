//! Observation events, as the kernel programs put them into the ring buffer.
//!
//! An event is a packed C record of a little-endian BPF target.

use crate::bytes::{
    le_bytes, le_value, lemma_byte_ranges, lemma_le_len, lemma_le_read_back, push_le, put_le,
    read_le,
};
use vstd::prelude::*;

verus! {

/// The hooks that are observed. The number of each is its position in this list.
#[derive(Clone, Copy, Debug, PartialEq, Eq, Structural)]
pub enum HookId {
    FileOpen,
    FilePermission,
    FileIoctl,
    FileLock,
    FileReceive,
    SocketBind,
    SocketConnect,
    SocketListen,
    SocketAccept,
    SocketSendmsg,
    SocketRecvmsg,
    UnixStreamConnect,
    UnixMaySend,
    TaskSetpgid,
    TaskGetpgid,
    TaskSetsched,
    TaskSetrlimit,
}

/// The number of a hook.
pub open spec fn hook_number(h: HookId) -> u32 {
    match h {
        HookId::FileOpen => 0,
        HookId::FilePermission => 1,
        HookId::FileIoctl => 2,
        HookId::FileLock => 3,
        HookId::FileReceive => 4,
        HookId::SocketBind => 5,
        HookId::SocketConnect => 6,
        HookId::SocketListen => 7,
        HookId::SocketAccept => 8,
        HookId::SocketSendmsg => 9,
        HookId::SocketRecvmsg => 10,
        HookId::UnixStreamConnect => 11,
        HookId::UnixMaySend => 12,
        HookId::TaskSetpgid => 13,
        HookId::TaskGetpgid => 14,
        HookId::TaskSetsched => 15,
        HookId::TaskSetrlimit => 16,
    }
}

/// The hook of a number, where there is one.
pub open spec fn hook_of(v: u32) -> Option<HookId> {
    if exists|h: HookId| #[trigger] hook_number(h) == v {
        Some(choose|h: HookId| #[trigger] hook_number(h) == v)
    } else {
        None
    }
}

/// Every hook is found again by its number, and a number beyond the last names none.
pub proof fn law_hook_numbers(h: HookId, v: u32)
    ensures
        hook_of(hook_number(h)) == Some(h),
        hook_of(v) is Some <==> v <= 16,
        hook_of(v) is Some ==> hook_number(hook_of(v)->0) == v,
{
    let g = choose|g: HookId| #[trigger] hook_number(g) == hook_number(h);
    assert(hook_number(g) == hook_number(h));
    assert(hook_number(HookId::FileOpen) == 0);
    assert(hook_number(HookId::FilePermission) == 1);
    assert(hook_number(HookId::FileIoctl) == 2);
    assert(hook_number(HookId::FileLock) == 3);
    assert(hook_number(HookId::FileReceive) == 4);
    assert(hook_number(HookId::SocketBind) == 5);
    assert(hook_number(HookId::SocketConnect) == 6);
    assert(hook_number(HookId::SocketListen) == 7);
    assert(hook_number(HookId::SocketAccept) == 8);
    assert(hook_number(HookId::SocketSendmsg) == 9);
    assert(hook_number(HookId::SocketRecvmsg) == 10);
    assert(hook_number(HookId::UnixStreamConnect) == 11);
    assert(hook_number(HookId::UnixMaySend) == 12);
    assert(hook_number(HookId::TaskSetpgid) == 13);
    assert(hook_number(HookId::TaskGetpgid) == 14);
    assert(hook_number(HookId::TaskSetsched) == 15);
    assert(hook_number(HookId::TaskSetrlimit) == 16);
}

impl HookId {
    /// The hook with number `v`.
    pub fn from_u32(v: u32) -> (r: Option<Self>)
        ensures
            r == hook_of(v),
            r is Some <==> v <= 16,
            r matches Some(h) ==> hook_number(h) == v,
    {
        let r = match v {
            0 => Some(HookId::FileOpen),
            1 => Some(HookId::FilePermission),
            2 => Some(HookId::FileIoctl),
            3 => Some(HookId::FileLock),
            4 => Some(HookId::FileReceive),
            5 => Some(HookId::SocketBind),
            6 => Some(HookId::SocketConnect),
            7 => Some(HookId::SocketListen),
            8 => Some(HookId::SocketAccept),
            9 => Some(HookId::SocketSendmsg),
            10 => Some(HookId::SocketRecvmsg),
            11 => Some(HookId::UnixStreamConnect),
            12 => Some(HookId::UnixMaySend),
            13 => Some(HookId::TaskSetpgid),
            14 => Some(HookId::TaskGetpgid),
            15 => Some(HookId::TaskSetsched),
            16 => Some(HookId::TaskSetrlimit),
            _ => None,
        };
        proof {
            if let Some(h) = r {
                law_hook_numbers(h, v);
            } else {
                law_hook_numbers(HookId::FileOpen, v);
            }
        }
        r
    }

    /// The number of this hook.
    pub fn to_u32(self) -> (v: u32)
        ensures
            v == hook_number(self),
    {
        match self {
            HookId::FileOpen => 0,
            HookId::FilePermission => 1,
            HookId::FileIoctl => 2,
            HookId::FileLock => 3,
            HookId::FileReceive => 4,
            HookId::SocketBind => 5,
            HookId::SocketConnect => 6,
            HookId::SocketListen => 7,
            HookId::SocketAccept => 8,
            HookId::SocketSendmsg => 9,
            HookId::SocketRecvmsg => 10,
            HookId::UnixStreamConnect => 11,
            HookId::UnixMaySend => 12,
            HookId::TaskSetpgid => 13,
            HookId::TaskGetpgid => 14,
            HookId::TaskSetsched => 15,
            HookId::TaskSetrlimit => 16,
        }
    }
}

/// What a file hook saw of its file.
#[derive(Clone, Copy, Debug)]
pub struct FileObject {
    /// Device number (major << 20 | minor).
    pub dev: u64,
    /// Inode number.
    pub inode: u64,
    /// Open flags, or the permission mask of a permission check.
    pub flags: u32,
    /// The first bytes of the path.
    pub path: [u8; 12],
}

/// What a socket hook saw of its address.
#[derive(Clone, Copy, Debug)]
pub struct SocketObject {
    /// Address family (see `af`).
    pub family: u16,
    /// Protocol (see `proto`).
    pub proto: u16,
    /// Port number, in network byte order.
    pub port: u16,
    /// IP address: IPv4 in the last four bytes, IPv6 in all of them.
    pub addr: [u8; 16],
}

/// The object part of an event: bytes that are read as the hook says.
#[derive(Clone, Copy, Debug)]
pub struct ObjectInfo {
    pub raw: [u8; 32],
}

/// One observation of a kernel program.
#[derive(Clone, Copy, Debug)]
pub struct ObservationEvent {
    /// Subject (upper half: process, lower half: thread).
    pub pid_tgid: u64,
    /// Control group of the subject.
    pub cgroup_id: u64,
    /// Time of the observation in nanoseconds.
    pub timestamp_ns: u64,
    /// The number of the hook that was passed.
    pub hook_id: u32,
    /// Padding.
    pub _pad1: u32,
    /// What the hook saw of the object.
    pub object: ObjectInfo,
    /// Reserved.
    pub _pad2: u32,
}

/// The bytes of a file object.
pub open spec fn file_bytes(f: FileObject) -> Seq<u8> {
    le_bytes(f.dev as nat, 8) + le_bytes(f.inode as nat, 8) + le_bytes(f.flags as nat, 4) + f.path@
}

/// The bytes of a socket object, filled up with zeros.
pub open spec fn sock_bytes(s: SocketObject) -> Seq<u8> {
    le_bytes(s.family as nat, 2) + le_bytes(s.proto as nat, 2) + le_bytes(s.port as nat, 2)
        + s.addr@ + Seq::new(10, |i: int| 0u8)
}

/// Whether `f` is what the bytes of an object hold when they are read as a file.
pub open spec fn reads_as_file(raw: Seq<u8>, f: FileObject) -> bool {
    &&& f.dev == le_value(raw.subrange(0, 8))
    &&& f.inode == le_value(raw.subrange(8, 16))
    &&& f.flags == le_value(raw.subrange(16, 20))
    &&& f.path@ == raw.subrange(20, 32)
}

/// Whether `s` is what the bytes of an object hold when they are read as a socket.
pub open spec fn reads_as_sock(raw: Seq<u8>, s: SocketObject) -> bool {
    &&& s.family == le_value(raw.subrange(0, 2))
    &&& s.proto == le_value(raw.subrange(2, 4))
    &&& s.port == le_value(raw.subrange(4, 6))
    &&& s.addr@ == raw.subrange(6, 22)
}

/// The port number of a value in network byte order.
pub open spec fn port_number(port: u16) -> u16 {
    ((port % 256) * 256 + port / 256) as u16
}

/// The length of an event in the ring buffer.
pub const EVENT_LEN: usize = 72;

/// The bytes of an event in the ring buffer.
pub open spec fn event_bytes(e: ObservationEvent) -> Seq<u8> {
    le_bytes(e.pid_tgid as nat, 8) + le_bytes(e.cgroup_id as nat, 8) + le_bytes(
        e.timestamp_ns as nat,
        8,
    ) + le_bytes(e.hook_id as nat, 4) + le_bytes(e._pad1 as nat, 4) + e.object.raw@ + le_bytes(
        e._pad2 as nat,
        4,
    ) + Seq::new(4, |i: int| 0u8)
}

/// Whether `e` is the event that `data` holds.
pub open spec fn reads_as_event(data: Seq<u8>, e: ObservationEvent) -> bool {
    &&& e.pid_tgid == le_value(data.subrange(0, 8))
    &&& e.cgroup_id == le_value(data.subrange(8, 16))
    &&& e.timestamp_ns == le_value(data.subrange(16, 24))
    &&& e.hook_id == le_value(data.subrange(24, 28))
    &&& e._pad1 == le_value(data.subrange(28, 32))
    &&& e.object.raw@ == data.subrange(32, 64)
    &&& e._pad2 == le_value(data.subrange(64, 68))
}

/// A file object that was written is what is read.
pub proof fn law_file_read_back(f: FileObject)
    ensures
        file_bytes(f).len() == 32,
        reads_as_file(file_bytes(f), f),
{
    lemma_byte_ranges();
    lemma_le_read_back(f.dev as nat, 8);
    lemma_le_read_back(f.inode as nat, 8);
    lemma_le_read_back(f.flags as nat, 4);
    let b = file_bytes(f);
    assert(b.subrange(0, 8) =~= le_bytes(f.dev as nat, 8));
    assert(b.subrange(8, 16) =~= le_bytes(f.inode as nat, 8));
    assert(b.subrange(16, 20) =~= le_bytes(f.flags as nat, 4));
    assert(b.subrange(20, 32) =~= f.path@);
}

/// A socket object that was written is what is read.
pub proof fn law_sock_read_back(s: SocketObject)
    ensures
        sock_bytes(s).len() == 32,
        reads_as_sock(sock_bytes(s), s),
{
    lemma_byte_ranges();
    lemma_le_read_back(s.family as nat, 2);
    lemma_le_read_back(s.proto as nat, 2);
    lemma_le_read_back(s.port as nat, 2);
    let b = sock_bytes(s);
    assert(b.subrange(0, 2) =~= le_bytes(s.family as nat, 2));
    assert(b.subrange(2, 4) =~= le_bytes(s.proto as nat, 2));
    assert(b.subrange(4, 6) =~= le_bytes(s.port as nat, 2));
    assert(b.subrange(6, 22) =~= s.addr@);
}

/// An event that a kernel program put into the ring buffer is what the collector takes out.
pub proof fn law_event_read_back(e: ObservationEvent)
    ensures
        event_bytes(e).len() == EVENT_LEN,
        reads_as_event(event_bytes(e), e),
        forall|g: ObservationEvent| #[trigger]
            reads_as_event(event_bytes(e), g) ==> {
                &&& g.pid_tgid == e.pid_tgid
                &&& g.cgroup_id == e.cgroup_id
                &&& g.timestamp_ns == e.timestamp_ns
                &&& g.hook_id == e.hook_id
                &&& g._pad1 == e._pad1
                &&& g.object.raw@ == e.object.raw@
                &&& g._pad2 == e._pad2
            },
{
    lemma_byte_ranges();
    lemma_le_read_back(e.pid_tgid as nat, 8);
    lemma_le_read_back(e.cgroup_id as nat, 8);
    lemma_le_read_back(e.timestamp_ns as nat, 8);
    lemma_le_read_back(e.hook_id as nat, 4);
    lemma_le_read_back(e._pad1 as nat, 4);
    lemma_le_read_back(e._pad2 as nat, 4);
    let b = event_bytes(e);
    assert(b.subrange(0, 8) =~= le_bytes(e.pid_tgid as nat, 8));
    assert(b.subrange(8, 16) =~= le_bytes(e.cgroup_id as nat, 8));
    assert(b.subrange(16, 24) =~= le_bytes(e.timestamp_ns as nat, 8));
    assert(b.subrange(24, 28) =~= le_bytes(e.hook_id as nat, 4));
    assert(b.subrange(28, 32) =~= le_bytes(e._pad1 as nat, 4));
    assert(b.subrange(32, 64) =~= e.object.raw@);
    assert(b.subrange(64, 68) =~= le_bytes(e._pad2 as nat, 4));
}

/// Copies 32 bytes of `data` from `at` on.
fn object_from(data: &[u8], at: usize) -> (r: ObjectInfo)
    requires
        at + 32 <= data@.len(),
    ensures
        r.raw@ == data@.subrange(at as int, at + 32),
{
    let total: usize = data.len();
    let mut raw: [u8; 32] = [0u8;32];
    let mut i: usize = 0;
    while i < 32
        invariant
            i <= 32,
            at + 32 <= total,
            total == data@.len(),
            forall|j: int| 0 <= j < i ==> raw@[j] == data@[at + j],
        decreases 32 - i,
    {
        raw[i] = data[at + i];
        i = i + 1;
    }
    assert(raw@ =~= data@.subrange(at as int, at + 32));
    ObjectInfo { raw }
}

impl ObjectInfo {
    /// An object of which nothing is known.
    pub fn zeroed() -> (r: Self)
        ensures
            r.raw@ == Seq::new(32, |i: int| 0u8),
    {
        let raw: [u8; 32] = [0u8;32];
        assert(raw@ =~= Seq::new(32, |i: int| 0u8));
        ObjectInfo { raw }
    }

    /// The object part of a file event.
    pub fn from_file(f: FileObject) -> (r: Self)
        ensures
            r.raw@ == file_bytes(f),
    {
        let mut raw: [u8; 32] = [0u8;32];
        put_le(&mut raw, 0, f.dev, 8);
        put_le(&mut raw, 8, f.inode, 8);
        put_le(&mut raw, 16, f.flags as u64, 4);
        let ghost head = raw@;
        let mut i: usize = 0;
        while i < 12
            invariant
                i <= 12,
                head.len() == 32,
                forall|j: int|
                    0 <= j < 32 ==> #[trigger] raw@[j] == (if 20 <= j < 20 + i {
                        f.path@[j - 20]
                    } else {
                        head[j]
                    }),
            decreases 12 - i,
        {
            raw[20 + i] = f.path[i];
            i = i + 1;
        }
        proof {
            lemma_le_len(f.dev as nat, 8);
            lemma_le_len(f.inode as nat, 8);
            lemma_le_len(f.flags as nat, 4);
        }
        assert(raw@ =~= file_bytes(f));
        ObjectInfo { raw }
    }

    /// The object part of a socket event.
    pub fn from_sock(s: SocketObject) -> (r: Self)
        ensures
            r.raw@ == sock_bytes(s),
    {
        let mut raw: [u8; 32] = [0u8;32];
        put_le(&mut raw, 0, s.family as u64, 2);
        put_le(&mut raw, 2, s.proto as u64, 2);
        put_le(&mut raw, 4, s.port as u64, 2);
        let ghost head = raw@;
        let mut i: usize = 0;
        while i < 16
            invariant
                i <= 16,
                head.len() == 32,
                forall|j: int|
                    0 <= j < 32 ==> #[trigger] raw@[j] == (if 6 <= j < 6 + i {
                        s.addr@[j - 6]
                    } else {
                        head[j]
                    }),
            decreases 16 - i,
        {
            raw[6 + i] = s.addr[i];
            i = i + 1;
        }
        proof {
            lemma_le_len(s.family as nat, 2);
            lemma_le_len(s.proto as nat, 2);
            lemma_le_len(s.port as nat, 2);
        }
        assert(raw@ =~= sock_bytes(s));
        ObjectInfo { raw }
    }

    /// The object, read as a file.
    pub fn file(&self) -> (f: FileObject)
        ensures
            reads_as_file(self.raw@, f),
    {
        let b = self.raw.as_slice();
        proof {
            lemma_byte_ranges();
        }
        let mut path: [u8; 12] = [0u8;12];
        let mut i: usize = 0;
        while i < 12
            invariant
                i <= 12,
                forall|j: int| 0 <= j < i ==> path@[j] == self.raw@[20 + j],
            decreases 12 - i,
        {
            path[i] = self.raw[20 + i];
            i = i + 1;
        }
        assert(path@ =~= self.raw@.subrange(20, 32));
        FileObject {
            dev: read_le(b, 0, 8),
            inode: read_le(b, 8, 8),
            flags: read_le(b, 16, 4) as u32,
            path,
        }
    }

    /// The object, read as a socket.
    pub fn sock(&self) -> (s: SocketObject)
        ensures
            reads_as_sock(self.raw@, s),
    {
        let b = self.raw.as_slice();
        proof {
            lemma_byte_ranges();
        }
        let mut addr: [u8; 16] = [0u8;16];
        let mut i: usize = 0;
        while i < 16
            invariant
                i <= 16,
                forall|j: int| 0 <= j < i ==> addr@[j] == self.raw@[6 + j],
            decreases 16 - i,
        {
            addr[i] = self.raw[6 + i];
            i = i + 1;
        }
        assert(addr@ =~= self.raw@.subrange(6, 22));
        SocketObject {
            family: read_le(b, 0, 2) as u16,
            proto: read_le(b, 2, 2) as u16,
            port: read_le(b, 4, 2) as u16,
            addr,
        }
    }
}

impl SocketObject {
    /// The port number.
    pub fn port_number(&self) -> (p: u16)
        ensures
            p == port_number(self.port),
    {
        (self.port % 256) * 256 + self.port / 256
    }
}

impl ObservationEvent {
    /// The bytes that stand for this event in the ring buffer.
    pub fn to_bytes(&self) -> (b: Vec<u8>)
        ensures
            b@ == event_bytes(*self),
    {
        let mut b: Vec<u8> = Vec::new();
        push_le(&mut b, self.pid_tgid, 8);
        push_le(&mut b, self.cgroup_id, 8);
        push_le(&mut b, self.timestamp_ns, 8);
        push_le(&mut b, self.hook_id as u64, 4);
        push_le(&mut b, self._pad1 as u64, 4);
        let mut i: usize = 0;
        let ghost head = b@;
        assert(self.object.raw@.take(0) =~= Seq::<u8>::empty());
        while i < 32
            invariant
                i <= 32,
                b@ == head + self.object.raw@.take(i as int),
            decreases 32 - i,
        {
            b.push(self.object.raw[i]);
            assert(self.object.raw@.take(i + 1) =~= self.object.raw@.take(i as int).push(
                self.object.raw@[i as int],
            ));
            i = i + 1;
        }
        push_le(&mut b, self._pad2 as u64, 4);
        b.push(0);
        b.push(0);
        b.push(0);
        b.push(0);
        assert(b@ =~= event_bytes(*self));
        b
    }

    /// The event in a record of the ring buffer; a record that is too short holds none.
    pub fn from_bytes(data: &[u8]) -> (r: Option<Self>)
        requires
            data@.len() <= EVENT_LEN,
        ensures
            r is Some <==> data@.len() == EVENT_LEN,
            r matches Some(e) ==> reads_as_event(data@, e),
    {
        if data.len() < EVENT_LEN {
            return None;
        }
        proof {
            lemma_byte_ranges();
        }
        Some(
            ObservationEvent {
                pid_tgid: read_le(data, 0, 8),
                cgroup_id: read_le(data, 8, 8),
                timestamp_ns: read_le(data, 16, 8),
                hook_id: read_le(data, 24, 4) as u32,
                _pad1: read_le(data, 28, 4) as u32,
                object: object_from(data, 32),
                _pad2: read_le(data, 64, 4) as u32,
            },
        )
    }
}

} // verus!
