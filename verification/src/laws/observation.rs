//! What an observation is about: its hook, class, permissions and object.

use crate::bytes::{le_bytes, le_value, lemma_le_len};
use crate::common::event::{
    event_bytes, file_bytes, hook_number, hook_of, law_hook_numbers, port_number, reads_as_event,
    reads_as_file, reads_as_sock, sock_bytes, FileObject, HookId, ObservationEvent, SocketObject,
    EVENT_LEN,
};
use crate::laws::text::{is_blank, law_end_cut, law_pieces, law_trimmed};
use crate::normalizer::{
    class_of, effective_hook, family_of, flags_of, is_file_hook, is_sentinel, label_in, mask_perms,
    object_path, perm_of, perms_of, port_of, protocol_of, query_of, socket_class, target_in,
};
use crate::number::decimal;
use crate::observer::{file_with_flags, only_watches, unknown_object, Observation, Task};
use crate::outside::utf8_lossy;
use crate::resolver::{context_of, type_of};
use crate::text::{has_text, whitespace};
use vstd::prelude::*;

verus! {

// ---- Hooks ----

/// Which number names which hook; a number that names none counts as an opened file.
pub proof fn law_numbers_of_hooks(v: u32)
    ensures
        v == 0 || v > 16 ==> effective_hook(v) == HookId::FileOpen,
        v == 1 ==> effective_hook(v) == HookId::FilePermission,
        v == 2 ==> effective_hook(v) == HookId::FileIoctl,
        v == 3 ==> effective_hook(v) == HookId::FileLock,
        v == 4 ==> effective_hook(v) == HookId::FileReceive,
        v == 5 ==> effective_hook(v) == HookId::SocketBind,
        v == 6 ==> effective_hook(v) == HookId::SocketConnect,
        v == 7 ==> effective_hook(v) == HookId::SocketListen,
        v == 8 ==> effective_hook(v) == HookId::SocketAccept,
        v == 9 ==> effective_hook(v) == HookId::SocketSendmsg,
        v == 10 ==> effective_hook(v) == HookId::SocketRecvmsg,
        v == 11 ==> effective_hook(v) == HookId::UnixStreamConnect,
        v == 12 ==> effective_hook(v) == HookId::UnixMaySend,
        v == 13 ==> effective_hook(v) == HookId::TaskSetpgid,
        v == 14 ==> effective_hook(v) == HookId::TaskGetpgid,
        v == 15 ==> effective_hook(v) == HookId::TaskSetsched,
        v == 16 ==> effective_hook(v) == HookId::TaskSetrlimit,
        hook_of(v) is None <==> v > 16,
        forall|h: HookId| #[trigger] hook_number(h) == v && v > 0 ==> effective_hook(v) == h,
{
    law_hook_numbers(HookId::FileOpen, v);
    law_hook_numbers(HookId::FilePermission, v);
    law_hook_numbers(HookId::FileIoctl, v);
    law_hook_numbers(HookId::FileLock, v);
    law_hook_numbers(HookId::FileReceive, v);
    law_hook_numbers(HookId::SocketBind, v);
    law_hook_numbers(HookId::SocketConnect, v);
    law_hook_numbers(HookId::SocketListen, v);
    law_hook_numbers(HookId::SocketAccept, v);
    law_hook_numbers(HookId::SocketSendmsg, v);
    law_hook_numbers(HookId::SocketRecvmsg, v);
    law_hook_numbers(HookId::UnixStreamConnect, v);
    law_hook_numbers(HookId::UnixMaySend, v);
    law_hook_numbers(HookId::TaskSetpgid, v);
    law_hook_numbers(HookId::TaskGetpgid, v);
    law_hook_numbers(HookId::TaskSetsched, v);
    law_hook_numbers(HookId::TaskSetrlimit, v);
}

/// Which hooks lead to which permission.
pub proof fn law_permission_of_a_hook(h: HookId)
    ensures
        perm_of(h) == "open"@ <==> h == HookId::FileOpen || h == HookId::FileReceive,
        perm_of(h) == "ioctl"@ <==> h == HookId::FileIoctl,
        perm_of(h) == "lock"@ <==> h == HookId::FileLock,
        perm_of(h) == "name_bind"@ <==> h == HookId::SocketBind,
        perm_of(h) == "name_connect"@ <==> h == HookId::SocketConnect,
        perm_of(h) == "listen"@ <==> h == HookId::SocketListen,
        perm_of(h) == "accept"@ <==> h == HookId::SocketAccept,
        perm_of(h) == "write"@ <==> h == HookId::SocketSendmsg,
        perm_of(h) == "read"@ <==> h == HookId::SocketRecvmsg || h == HookId::FilePermission,
        perm_of(h) == "connectto"@ <==> h == HookId::UnixStreamConnect,
        perm_of(h) == "sendto"@ <==> h == HookId::UnixMaySend,
        perm_of(h) == "setpgid"@ <==> h == HookId::TaskSetpgid,
        perm_of(h) == "getpgid"@ <==> h == HookId::TaskGetpgid,
        perm_of(h) == "setsched"@ <==> h == HookId::TaskSetsched,
        perm_of(h) == "setrlimit"@ <==> h == HookId::TaskSetrlimit,
{
    reveal_strlit("open");
    reveal_strlit("ioctl");
    reveal_strlit("lock");
    reveal_strlit("name_bind");
    reveal_strlit("name_connect");
    reveal_strlit("listen");
    reveal_strlit("accept");
    reveal_strlit("write");
    reveal_strlit("read");
    reveal_strlit("connectto");
    reveal_strlit("sendto");
    reveal_strlit("setpgid");
    reveal_strlit("getpgid");
    reveal_strlit("setsched");
    reveal_strlit("setrlimit");
    assert("open"@.len() == 4);
    assert("ioctl"@.len() == 5);
    assert("lock"@.len() == 4);
    assert("name_bind"@.len() == 9);
    assert("name_connect"@.len() == 12);
    assert("listen"@.len() == 6);
    assert("accept"@.len() == 6);
    assert("write"@.len() == 5);
    assert("read"@.len() == 4);
    assert("connectto"@.len() == 9);
    assert("sendto"@.len() == 6);
    assert("setpgid"@.len() == 7);
    assert("getpgid"@.len() == 7);
    assert("setsched"@.len() == 8);
    assert("setrlimit"@.len() == 9);
    assert("open"@[0] == 'o');
    assert("lock"@[0] == 'l');
    assert("read"@[0] == 'r');
    assert("ioctl"@[0] == 'i');
    assert("write"@[0] == 'w');
    assert("name_bind"@[0] == 'n');
    assert("connectto"@[0] == 'c');
    assert("setrlimit"@[0] == 's');
    assert("listen"@[0] == 'l');
    assert("accept"@[0] == 'a');
    assert("sendto"@[0] == 's');
    assert("setpgid"@[0] == 's');
    assert("getpgid"@[0] == 'g');
}

/// Every hook but the permission check stands for its one permission; the permission check stands
/// for those in the mask.
pub proof fn law_permissions_of_a_hook(h: HookId, raw: Seq<u8>)
    ensures
        h != HookId::FilePermission ==> perms_of(h, raw) == seq![perm_of(h)],
        h == HookId::FilePermission ==> perms_of(h, raw) == mask_perms(flags_of(raw)),
{
}

/// A permission check holds each permission just when its bit is set in the mask, and looks at the
/// file just when none of the four is; it holds none of them twice, and no other one.
pub proof fn law_permissions_in_a_mask(mask: u32, p: Seq<char>)
    ensures
        mask_perms(mask).contains("read"@) <==> mask & 1 == 1,
        mask_perms(mask).contains("write"@) <==> mask & 2 == 2,
        mask_perms(mask).contains("append"@) <==> mask & 4 == 4,
        mask_perms(mask).contains("execute"@) <==> mask & 8 == 8,
        mask_perms(mask).contains("getattr"@) <==> mask & 15 == 0,
        mask_perms(mask).contains(p) ==> p == "read"@ || p == "write"@ || p == "append"@ || p
            == "execute"@ || p == "getattr"@,
        mask_perms(mask).no_duplicates(),
        mask & 1 == 1 ==> mask_perms(mask)[0] == "read"@,
        mask & 3 == 2 ==> mask_perms(mask)[0] == "write"@,
        mask & 3 == 3 ==> mask_perms(mask)[1] == "write"@,
        mask & 8 == 8 ==> mask_perms(mask).last() == "execute"@,
{
    reveal_strlit("read");
    reveal_strlit("write");
    reveal_strlit("append");
    reveal_strlit("execute");
    reveal_strlit("getattr");
    assert("read"@.len() == 4);
    assert("write"@.len() == 5);
    assert("append"@.len() == 6);
    assert("execute"@.len() == 7);
    assert("getattr"@.len() == 7);
    assert("execute"@[0] == 'e');
    assert("getattr"@[0] == 'g');
    assert((mask & 1 == 1) == ((mask / 1) % 2 == 1)) by (bit_vector);
    assert((mask & 2 == 2) == ((mask / 2) % 2 == 1)) by (bit_vector);
    assert((mask & 4 == 4) == ((mask / 4) % 2 == 1)) by (bit_vector);
    assert((mask & 8 == 8) == ((mask / 8) % 2 == 1)) by (bit_vector);
    assert((mask & 3 == 2) == ((mask / 1) % 2 != 1 && (mask / 2) % 2 == 1)) by (bit_vector);
    assert((mask & 3 == 3) == ((mask / 1) % 2 == 1 && (mask / 2) % 2 == 1)) by (bit_vector);
    assert((mask & 15 == 0) == ((mask / 1) % 2 != 1 && (mask / 2) % 2 != 1 && (mask / 4) % 2 != 1
        && (mask / 8) % 2 != 1)) by (bit_vector);
    let r = (mask / 1) % 2 == 1;
    let w = (mask / 2) % 2 == 1;
    let a = (mask / 4) % 2 == 1;
    let x = (mask / 8) % 2 == 1;
    let one = if r {
        seq!["read"@]
    } else {
        Seq::empty()
    };
    let two = if w {
        one.push("write"@)
    } else {
        one
    };
    let three = if a {
        two.push("append"@)
    } else {
        two
    };
    let four = if x {
        three.push("execute"@)
    } else {
        three
    };
    let all = if four.len() == 0 {
        seq!["getattr"@]
    } else {
        four
    };
    assert(mask_perms(mask) =~= all);
    if r {
        assert(all[0] == "read"@);
    }
    if w {
        assert(all[one.len() as int] == "write"@);
    }
    if a {
        assert(all[two.len() as int] == "append"@);
    }
    if x {
        assert(all[three.len() as int] == "execute"@);
    }
    if four.len() == 0 {
        assert(all[0] == "getattr"@);
    }
}

// ---- Classes ----

/// Which hooks are about files, about processes and about sockets, and the class of each.
pub proof fn law_class_of_a_hook(h: HookId, raw: Seq<u8>)
    ensures
        is_file_hook(h) <==> h == HookId::FileOpen || h == HookId::FilePermission || h
            == HookId::FileIoctl || h == HookId::FileLock || h == HookId::FileReceive,
        class_of(h, raw) == "file"@ <==> is_file_hook(h),
        class_of(h, raw) == "process"@ <==> h == HookId::TaskSetpgid || h == HookId::TaskGetpgid || h
            == HookId::TaskSetsched || h == HookId::TaskSetrlimit,
        h == HookId::SocketListen || h == HookId::SocketAccept ==> class_of(h, raw) == "tcp_socket"@,
        h == HookId::SocketSendmsg || h == HookId::SocketRecvmsg ==> class_of(h, raw) == "socket"@,
        h == HookId::UnixStreamConnect ==> class_of(h, raw) == "unix_stream_socket"@,
        class_of(h, raw) == "unix_dgram_socket"@ <==> h == HookId::UnixMaySend,
        h == HookId::SocketBind || h == HookId::SocketConnect ==> class_of(h, raw) == socket_class(
            family_of(raw),
            protocol_of(raw),
        ),
{
    reveal_strlit("file");
    reveal_strlit("process");
    reveal_strlit("socket");
    reveal_strlit("tcp_socket");
    reveal_strlit("udp_socket");
    reveal_strlit("netlink_socket");
    reveal_strlit("unix_stream_socket");
    reveal_strlit("unix_dgram_socket");
    assert("file"@.len() == 4);
    assert("process"@.len() == 7);
    assert("socket"@.len() == 6);
    assert("tcp_socket"@.len() == 10);
    assert("udp_socket"@.len() == 10);
    assert("netlink_socket"@.len() == 14);
    assert("unix_stream_socket"@.len() == 18);
    assert("unix_dgram_socket"@.len() == 17);
    assert("tcp_socket"@[0] == 't');
    assert("udp_socket"@[0] == 'u');
}

/// The class of a socket, by the numbers that Linux gives families and protocols.
pub proof fn law_class_of_a_socket(family: u16, protocol: u16)
    ensures
        socket_class(family, protocol) == "tcp_socket"@ <==> (family == 2 || family == 10)
            && protocol == 6,
        socket_class(family, protocol) == "udp_socket"@ <==> (family == 2 || family == 10)
            && protocol == 17,
        socket_class(family, protocol) == "unix_stream_socket"@ <==> family == 1,
        socket_class(family, protocol) == "netlink_socket"@ <==> family == 16,
        socket_class(family, protocol) == "socket"@ <==> family != 1 && family != 16 && !((family == 2
            || family == 10) && (protocol == 6 || protocol == 17)),
{
    reveal_strlit("socket");
    reveal_strlit("tcp_socket");
    reveal_strlit("udp_socket");
    reveal_strlit("netlink_socket");
    reveal_strlit("unix_stream_socket");
    assert("socket"@.len() == 6);
    assert("tcp_socket"@.len() == 10);
    assert("udp_socket"@.len() == 10);
    assert("netlink_socket"@.len() == 14);
    assert("unix_stream_socket"@.len() == 18);
    assert("tcp_socket"@[0] == 't');
    assert("udp_socket"@[0] == 'u');
}

// ---- Bytes ----

/// A number of two bytes, of four, and of eight: each byte weighs as much as all before it can
/// hold.
pub proof fn law_little_endian(b: Seq<u8>)
    ensures
        b.len() == 2 ==> le_value(b) == b[0] + 0x100 * b[1],
        b.len() == 4 ==> le_value(b) == b[0] + 0x100 * b[1] + 0x1_0000 * b[2] + 0x100_0000 * b[3],
        b.len() > 0 ==> le_value(b) == b[0] + 0x100 * le_value(b.skip(1)),
        b.len() == 0 ==> le_value(b) == 0,
{
    reveal_with_fuel(le_value, 5);
    if b.len() == 2 {
        assert(b.skip(1)[0] == b[1]);
    }
    if b.len() == 4 {
        assert(b.skip(1)[0] == b[1]);
        assert(b.skip(1).skip(1)[0] == b[2]);
        assert(b.skip(1).skip(1).skip(1)[0] == b[3]);
    }
}

/// The bytes of a number: the first is the remainder by 256, the others are those of the rest.
pub proof fn law_bytes_of_a_number(v: nat, n: nat)
    ensures
        le_bytes(v, n).len() == n,
        n > 0 ==> le_bytes(v, n)[0] == v % 0x100,
        n > 0 ==> le_bytes(v, n).skip(1) == le_bytes(v / 0x100, (n - 1) as nat),
{
    lemma_le_len(v, n);
    if n > 0 {
        assert(le_bytes(v, n).skip(1) =~= le_bytes(v / 256, (n - 1) as nat));
    }
}

/// Where the parts of an object stand: the family, protocol and port of a socket in its first six
/// bytes, the mask or flags of a file in the four from the seventeenth on.
pub proof fn law_parts_of_an_object(raw: Seq<u8>)
    requires
        raw.len() == 32,
    ensures
        family_of(raw) == raw[0] + 0x100 * raw[1],
        protocol_of(raw) == raw[2] + 0x100 * raw[3],
        port_of(raw) == raw[4] + 0x100 * raw[5],
        port_number(port_of(raw)) == 0x100 * raw[4] + raw[5],
        flags_of(raw) == raw[16] + 0x100 * raw[17] + 0x1_0000 * raw[18] + 0x100_0000 * raw[19],
{
    law_little_endian(raw.subrange(0, 2));
    law_little_endian(raw.subrange(2, 4));
    law_little_endian(raw.subrange(4, 6));
    law_little_endian(raw.subrange(16, 20));
    let p = port_of(raw);
    assert(p % 256 == raw[4] && p / 256 == raw[5]);
}

/// Where the parts of a file object, a socket object and an event stand in their bytes.
pub proof fn law_layout(f: FileObject, s: SocketObject, e: ObservationEvent)
    ensures
        file_bytes(f).len() == 32,
        file_bytes(f).subrange(0, 8) == le_bytes(f.dev as nat, 8),
        file_bytes(f).subrange(8, 16) == le_bytes(f.inode as nat, 8),
        file_bytes(f).subrange(16, 20) == le_bytes(f.flags as nat, 4),
        file_bytes(f).subrange(20, 32) == f.path@,
        sock_bytes(s).len() == 32,
        sock_bytes(s).subrange(0, 2) == le_bytes(s.family as nat, 2),
        sock_bytes(s).subrange(2, 4) == le_bytes(s.proto as nat, 2),
        sock_bytes(s).subrange(4, 6) == le_bytes(s.port as nat, 2),
        sock_bytes(s).subrange(6, 22) == s.addr@,
        forall|i: int| 22 <= i < 32 ==> #[trigger] sock_bytes(s)[i] == 0,
        event_bytes(e).len() == 72,
        EVENT_LEN == 72,
        event_bytes(e).subrange(0, 8) == le_bytes(e.pid_tgid as nat, 8),
        event_bytes(e).subrange(8, 16) == le_bytes(e.cgroup_id as nat, 8),
        event_bytes(e).subrange(16, 24) == le_bytes(e.timestamp_ns as nat, 8),
        event_bytes(e).subrange(24, 28) == le_bytes(e.hook_id as nat, 4),
        event_bytes(e).subrange(28, 32) == le_bytes(e._pad1 as nat, 4),
        event_bytes(e).subrange(32, 64) == e.object.raw@,
        event_bytes(e).subrange(64, 68) == le_bytes(e._pad2 as nat, 4),
        forall|i: int| 68 <= i < 72 ==> #[trigger] event_bytes(e)[i] == 0,
{
    lemma_le_len(f.dev as nat, 8);
    lemma_le_len(f.inode as nat, 8);
    lemma_le_len(f.flags as nat, 4);
    lemma_le_len(s.family as nat, 2);
    lemma_le_len(s.proto as nat, 2);
    lemma_le_len(s.port as nat, 2);
    lemma_le_len(e.pid_tgid as nat, 8);
    lemma_le_len(e.cgroup_id as nat, 8);
    lemma_le_len(e.timestamp_ns as nat, 8);
    lemma_le_len(e.hook_id as nat, 4);
    lemma_le_len(e._pad1 as nat, 4);
    lemma_le_len(e._pad2 as nat, 4);
    assert(file_bytes(f).subrange(0, 8) =~= le_bytes(f.dev as nat, 8));
    assert(file_bytes(f).subrange(8, 16) =~= le_bytes(f.inode as nat, 8));
    assert(file_bytes(f).subrange(16, 20) =~= le_bytes(f.flags as nat, 4));
    assert(file_bytes(f).subrange(20, 32) =~= f.path@);
    assert(sock_bytes(s).subrange(0, 2) =~= le_bytes(s.family as nat, 2));
    assert(sock_bytes(s).subrange(2, 4) =~= le_bytes(s.proto as nat, 2));
    assert(sock_bytes(s).subrange(4, 6) =~= le_bytes(s.port as nat, 2));
    assert(sock_bytes(s).subrange(6, 22) =~= s.addr@);
    assert(event_bytes(e).subrange(0, 8) =~= le_bytes(e.pid_tgid as nat, 8));
    assert(event_bytes(e).subrange(8, 16) =~= le_bytes(e.cgroup_id as nat, 8));
    assert(event_bytes(e).subrange(16, 24) =~= le_bytes(e.timestamp_ns as nat, 8));
    assert(event_bytes(e).subrange(24, 28) =~= le_bytes(e.hook_id as nat, 4));
    assert(event_bytes(e).subrange(28, 32) =~= le_bytes(e._pad1 as nat, 4));
    assert(event_bytes(e).subrange(32, 64) =~= e.object.raw@);
    assert(event_bytes(e).subrange(64, 68) =~= le_bytes(e._pad2 as nat, 4));
}

/// What is read as a file, a socket or an event is at the same places.
pub proof fn law_reading(raw: Seq<u8>, f: FileObject, s: SocketObject, e: ObservationEvent)
    ensures
        reads_as_file(raw, f) ==> f.dev == le_value(raw.subrange(0, 8)) && f.inode == le_value(
            raw.subrange(8, 16),
        ) && f.flags == le_value(raw.subrange(16, 20)) && f.path@ == raw.subrange(20, 32),
        reads_as_sock(raw, s) ==> s.family == le_value(raw.subrange(0, 2)) && s.proto == le_value(
            raw.subrange(2, 4),
        ) && s.port == le_value(raw.subrange(4, 6)) && s.addr@ == raw.subrange(6, 22),
        reads_as_event(raw, e) ==> e.pid_tgid == le_value(raw.subrange(0, 8)) && e.cgroup_id
            == le_value(raw.subrange(8, 16)) && e.timestamp_ns == le_value(raw.subrange(16, 24))
            && e.hook_id == le_value(raw.subrange(24, 28)) && e._pad1 == le_value(
            raw.subrange(28, 32),
        ) && e.object.raw@ == raw.subrange(32, 64) && e._pad2 == le_value(raw.subrange(64, 68)),
{
}

/// What a kernel program does: it hands on the decision that it was given, and reports, just for a
/// watched task whose access was allowed, that task, the time, the hook and the object.
pub proof fn law_watching(
    o: Observation,
    is_target: bool,
    ret: i32,
    hook: HookId,
    task: Task,
    object: Seq<u8>,
)
    requires
        only_watches(o, is_target, ret, hook, task, object),
    ensures
        o.ret == ret,
        is_target && ret == 0 ==> o.event is Some,
        !is_target || ret != 0 ==> o.event is None,
        o.event matches Some(e) ==> e.pid_tgid == task.pid_tgid && e.cgroup_id == task.cgroup_id
            && e.timestamp_ns == task.timestamp_ns && e.hook_id == hook_number(hook) && e._pad1 == 0
            && e._pad2 == 0 && e.object.raw@ == object,
{
}

/// The objects that kernel programs report: nothing at all, or the flags of a file in their place.
pub proof fn law_reported_objects(flags: u32, i: int)
    ensures
        unknown_object().len() == 32,
        file_with_flags(flags).len() == 32,
        0 <= i < 32 ==> unknown_object()[i] == 0,
        0 <= i < 16 || 20 <= i < 32 ==> file_with_flags(flags)[i] == 0,
        flags_of(file_with_flags(flags)) == flags,
{
    lemma_le_len(0, 8);
    lemma_le_len(flags as nat, 4);
    lemma_zeros(8);
    let b = file_with_flags(flags);
    assert(b.subrange(16, 20) =~= le_bytes(flags as nat, 4));
    crate::bytes::lemma_byte_ranges();
    crate::bytes::lemma_le_read_back(flags as nat, 4);
}

proof fn lemma_zeros(n: nat)
    ensures
        le_bytes(0, n).len() == n,
        forall|i: int| 0 <= i < n ==> #[trigger] le_bytes(0, n)[i] == 0,
    decreases n,
{
    if n > 0 {
        lemma_zeros((n - 1) as nat);
        let b = le_bytes(0, n);
        let c = le_bytes(0, (n - 1) as nat);
        assert(b =~= seq![0u8] + c);
    }
}

// ---- Contexts and labels ----

/// The type in a context is what stands between its second and its third colon, or after its
/// second where there is no third; a context without two colons has none.
pub proof fn law_type_in_a_context(
    user: Seq<char>,
    role: Seq<char>,
    short: Seq<char>,
    rest: Seq<char>,
)
    requires
        !user.contains(':'),
        !role.contains(':'),
        !short.contains(':'),
    ensures
        type_of(user + seq![':'] + (role + seq![':'] + short)) == short,
        type_of(user + seq![':'] + (role + seq![':'] + (short + seq![':'] + rest))) == short,
        type_of(user) == "unknown_t"@,
        type_of(user + seq![':'] + role) == "unknown_t"@,
{
    law_pieces(user, ':', role);
    law_pieces(role, ':', short);
    law_pieces(short, ':', rest);
    law_pieces(user, ':', role + seq![':'] + short);
    law_pieces(user, ':', role + seq![':'] + (short + seq![':'] + rest));
    law_pieces(role, ':', short + seq![':'] + rest);
}

/// The context of a process is what its attribute file holds, without white space around it; its
/// type is the type in that. A file that holds nothing, or cannot be read, gives neither.
pub proof fn law_context_of_a_process(a: Seq<char>, context: Seq<char>, b: Seq<char>)
    requires
        is_blank(a),
        is_blank(b),
        context.len() > 0 ==> !whitespace(context[0]) && !whitespace(context.last()),
    ensures
        context.len() > 0 ==> context_of(Some(a + context + b)) == (context, type_of(context)),
        context.len() == 0 ==> context_of(Some(a + context + b)) == ("unknown_t"@, "unknown_t"@),
        context_of(None) == ("unknown_t"@, "unknown_t"@),
{
    law_trimmed(a, context, b);
}

/// The label in an answer is what stands between its first tabulator and the next one or the end,
/// without white space around it. An answer without a tabulator, or none, leaves it unresolved.
pub proof fn law_label_in_an_answer(
    path: Seq<char>,
    a: Seq<char>,
    label: Seq<char>,
    b: Seq<char>,
    rest: Seq<char>,
)
    requires
        !path.contains('\t'),
        !(a + label + b).contains('\t'),
        is_blank(a),
        is_blank(b),
        label.len() > 0 ==> !whitespace(label[0]) && !whitespace(label.last()),
    ensures
        label_in(Some(path + seq!['\t'] + (a + label + b))) == (label, type_of(label)),
        label_in(Some(path + seq!['\t'] + (a + label + b + seq!['\t'] + rest))) == (
            label,
            type_of(label),
        ),
        label_in(Some(path)) == ("unresolved_t"@, "unresolved_t"@),
        label_in(None) == ("unresolved_t"@, "unresolved_t"@),
{
    law_trimmed(a, label, b);
    law_pieces(path, '\t', a + label + b);
    law_pieces(a + label + b, '\t', rest);
    law_pieces(path, '\t', a + label + b + seq!['\t'] + rest);
}

/// The label of an object. A file with a path has the one in the answer; a file without a path,
/// and whatever is neither file nor socket, has the unconfined one; a socket is named by its
/// family and port.
pub proof fn law_label_of_an_object(
    h: HookId,
    raw: Seq<u8>,
    class: Seq<char>,
    path: Seq<char>,
    answer: Option<Seq<char>>,
)
    requires
        raw.len() == 32,
    ensures
        ({
            let file = h == HookId::FileOpen || h == HookId::FilePermission || h
                == HookId::FileIoctl || h == HookId::FileLock || h == HookId::FileReceive;
            let label = target_in(h, raw, class, path, answer);
            &&& file && path.len() > 0 ==> label == label_in(answer)
            &&& file && path.len() == 0 || !file && !has_text(class, "socket"@) ==> label == (
                "unconfined_u:unconfined_r:unconfined_t:s0"@,
                "unconfined_t"@,
            )
            &&& !file && has_text(class, "socket"@) ==> label == (
                "socket_"@ + decimal((raw[0] + 0x100 * raw[1]) as nat) + ":"@ + decimal(
                    (0x100 * raw[4] + raw[5]) as nat,
                ),
                "socket_"@ + decimal((raw[0] + 0x100 * raw[1]) as nat) + "_t"@,
            )
        }),
{
    law_parts_of_an_object(raw);
}

/// The path of a file object is the text of its last twelve bytes without the zeros at its end;
/// it is asked for just where the event is about a file and the path is not empty.
pub proof fn law_path_of_a_file(raw: Seq<u8>, path: Seq<char>, zeros: Seq<char>, hook_id: u32)
    requires
        utf8_lossy(raw.subrange(20, 32)) == path + zeros,
        forall|i: int| 0 <= i < zeros.len() ==> #[trigger] zeros[i] == '\0',
        path.len() > 0 ==> path.last() != '\0',
    ensures
        object_path(raw) == path,
        query_of(hook_id, raw) == (if path.len() > 0 && (hook_id <= 4 || hook_id > 16) {
            Some(path)
        } else {
            None
        }),
{
    law_end_cut(path, '\0', zeros);
    law_numbers_of_hooks(hook_id);
    law_hook_numbers(HookId::FileOpen, hook_id);
}

/// Just three types say that a label was not found.
pub proof fn law_labels_not_found(t: Seq<char>)
    ensures
        is_sentinel(t) <==> t == "unresolved_t"@ || t == "unknown_t"@ || t == "generic_t"@,
{
}

} // verus!
