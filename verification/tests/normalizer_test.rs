//! From observations and denials to batches.

use autolsm::common::{
    af, proto, AvcDenial, FileObject, HookId, NormalizedBatch, ObjectInfo, ObservationEvent,
    SocketObject,
};
use autolsm::normalizer::{
    hook_to_class, hook_to_perm, is_sentinel_type, path_to_query, perms_at_hook, perms_in_mask,
    resolve_tcontext, target_from_texts, tgid_of, Normalizer, Observed, BATCH_MAX, SEEN_MAX,
};

fn event(hook_id: u32, object: ObjectInfo) -> ObservationEvent {
    ObservationEvent {
        pid_tgid: (1000_u64 << 32) | 1,
        cgroup_id: 1234,
        timestamp_ns: 1_000_000_000,
        hook_id,
        _pad1: 0,
        object,
        _pad2: 0,
    }
}

fn make_file_open(tgid: u32) -> ObservationEvent {
    let object =
        ObjectInfo::from_file(FileObject { dev: 1, inode: 42, flags: 0, path: *b"/var/log/ap\0" });
    let mut e = event(HookId::FileOpen.to_u32(), object);
    e.pid_tgid = ((tgid as u64) << 32) | 1;
    e
}

fn make_socket_bind(family: u16, proto: u16, port: u16) -> ObservationEvent {
    let object = ObjectInfo::from_sock(SocketObject { family, proto, port: port.to_be(), addr: [0u8; 16] });
    event(HookId::SocketBind.to_u32(), object)
}

fn make_task_setrlimit() -> ObservationEvent {
    event(HookId::TaskSetrlimit.to_u32(), ObjectInfo { raw: [0u8; 32] })
}

fn file_event(hook: HookId, flags: u32, path: &[u8; 12]) -> ObservationEvent {
    event(hook.to_u32(), ObjectInfo::from_file(FileObject { dev: 1, inode: 42, flags, path: *path }))
}

const ANSWER: &[u8] = b"/var/log/ap\tsystem_u:object_r:var_log_t:s0\n";

fn feed(n: &mut Normalizer, e: &ObservationEvent) -> Option<NormalizedBatch> {
    n.on_observation(e, "system_u:system_r:httpd_t:s0", "httpd_t", Some(ANSWER))
}

#[test]
fn sockets_are_classed_by_family_and_protocol() {
    let class = |family, proto| hook_to_class(HookId::SocketBind, &make_socket_bind(family, proto, 80));
    assert_eq!(class(af::AF_INET, proto::IPPROTO_TCP), "tcp_socket");
    assert_eq!(class(af::AF_INET6, proto::IPPROTO_TCP), "tcp_socket");
    assert_eq!(class(af::AF_INET, proto::IPPROTO_UDP), "udp_socket");
    assert_eq!(class(af::AF_INET6, proto::IPPROTO_UDP), "udp_socket");
    assert_eq!(class(af::AF_UNIX, 0), "unix_stream_socket");
    assert_eq!(class(af::AF_NETLINK, 0), "netlink_socket");
    assert_eq!(class(af::AF_INET, 1), "socket");
    assert_eq!(class(99, proto::IPPROTO_TCP), "socket");
}

#[test]
fn hooks_have_their_class_and_permission() {
    let table = [
        (HookId::FileOpen, "file", "open"),
        (HookId::FilePermission, "file", "read"),
        (HookId::FileIoctl, "file", "ioctl"),
        (HookId::FileLock, "file", "lock"),
        (HookId::FileReceive, "file", "open"),
        (HookId::SocketBind, "tcp_socket", "name_bind"),
        (HookId::SocketConnect, "tcp_socket", "name_connect"),
        (HookId::SocketListen, "tcp_socket", "listen"),
        (HookId::SocketAccept, "tcp_socket", "accept"),
        (HookId::SocketSendmsg, "socket", "write"),
        (HookId::SocketRecvmsg, "socket", "read"),
        (HookId::UnixStreamConnect, "unix_stream_socket", "connectto"),
        (HookId::UnixMaySend, "unix_dgram_socket", "sendto"),
        (HookId::TaskSetpgid, "process", "setpgid"),
        (HookId::TaskGetpgid, "process", "getpgid"),
        (HookId::TaskSetsched, "process", "setsched"),
        (HookId::TaskSetrlimit, "process", "setrlimit"),
    ];
    let e = make_socket_bind(af::AF_INET, proto::IPPROTO_TCP, 80);
    for (hook, class, perm) in table {
        assert_eq!(hook_to_class(hook, &e), class);
        assert_eq!(hook_to_perm(hook), perm);
    }
}

#[test]
fn a_mask_has_several_permissions() {
    assert_eq!(perms_in_mask(0), vec!["getattr"]);
    assert_eq!(perms_in_mask(0x01), vec!["read"]);
    assert_eq!(perms_in_mask(0x03), vec!["read", "write"]);
    assert_eq!(perms_in_mask(0x0f), vec!["read", "write", "append", "execute"]);
    assert_eq!(perms_in_mask(0x10), vec!["getattr"]);
    assert_eq!(perms_in_mask(u32::MAX - 2), vec!["read", "append", "execute"]);
    let e = file_event(HookId::FilePermission, 0x0c, b"/var/log/ap\0");
    assert_eq!(perms_at_hook(HookId::FilePermission, &e), vec!["append", "execute"]);
    assert_eq!(perms_at_hook(HookId::FileOpen, &e), vec!["open"]);
}

#[test]
fn the_process_is_the_upper_half() {
    assert_eq!(tgid_of(&make_file_open(1000)), 1000);
    assert_eq!(tgid_of(&make_file_open(u32::MAX)), u32::MAX);
}

#[test]
fn only_files_with_a_path_need_an_answer() {
    assert_eq!(path_to_query(&make_file_open(1)).as_deref(), Some("/var/log/ap"));
    assert_eq!(path_to_query(&file_event(HookId::FileOpen, 0, &[0; 12])), None);
    assert_eq!(path_to_query(&make_socket_bind(2, 6, 80)), None);
    assert_eq!(path_to_query(&make_task_setrlimit()), None);
    // A hook that is not known counts as an opened file.
    let mut e = make_file_open(1);
    e.hook_id = 99;
    assert_eq!(path_to_query(&e).as_deref(), Some("/var/log/ap"));
    // Bytes that are no text are replaced; zeros inside stay.
    let e = file_event(HookId::FileLock, 0, b"/a\xff/\0b\0\0\0\0\0\0");
    assert_eq!(path_to_query(&e).as_deref(), Some("/a\u{fffd}/\0b"));
}

#[test]
fn the_label_is_what_follows_the_tabulator() {
    let e = make_file_open(1);
    let of = |answer: Option<&[u8]>| resolve_tcontext(&e, HookId::FileOpen, "file", answer);
    assert_eq!(
        of(Some(ANSWER)),
        ("system_u:object_r:var_log_t:s0".to_string(), "var_log_t".to_string())
    );
    assert_eq!(of(Some(b"/x\t <<none>> \n")), ("<<none>>".to_string(), "unknown_t".to_string()));
    assert_eq!(of(Some(b"no label")).1, "unresolved_t");
    assert_eq!(of(Some(b"")).1, "unresolved_t");
    assert_eq!(of(None).1, "unresolved_t");
    // Without a path nothing was asked.
    let bare = file_event(HookId::FileOpen, 0, &[0; 12]);
    assert_eq!(
        resolve_tcontext(&bare, HookId::FileOpen, "file", None),
        ("unconfined_u:unconfined_r:unconfined_t:s0".to_string(), "unconfined_t".to_string())
    );
}

#[test]
fn sockets_are_named_by_family_and_port() {
    let e = make_socket_bind(af::AF_INET, proto::IPPROTO_TCP, 8080);
    assert_eq!(
        resolve_tcontext(&e, HookId::SocketBind, "tcp_socket", None),
        ("socket_2:8080".to_string(), "socket_2_t".to_string())
    );
    let e = make_task_setrlimit();
    assert_eq!(resolve_tcontext(&e, HookId::TaskSetrlimit, "process", None).1, "unconfined_t");
    let o = ObjectInfo::zeroed();
    assert_eq!(
        target_from_texts(HookId::UnixMaySend, &o, "unix_dgram_socket", "", None).0,
        "socket_0:0"
    );
    assert_eq!(target_from_texts(HookId::FileOpen, &o, "file", "/x", Some("/x\ta:b:c_t:s0")).1, "c_t");
}

#[test]
fn sentinels_are_three() {
    assert!(is_sentinel_type("unresolved_t"));
    assert!(is_sentinel_type("unknown_t"));
    assert!(is_sentinel_type("generic_t"));
    assert!(!is_sentinel_type("unconfined_t"));
}

#[test]
fn like_observations_are_counted_in_one_place() {
    let mut n = Normalizer::new();
    let mut e = make_file_open(1000);
    for i in 0..5 {
        e.timestamp_ns = 100 + i;
        assert!(feed(&mut n, &e).is_none());
    }
    let b = n.on_tick().unwrap();
    assert!(!b.has_denials);
    assert_eq!(b.events.len(), 1);
    let a = &b.events[0];
    assert_eq!(a.scontext, "system_u:system_r:httpd_t:s0");
    assert_eq!(a.scontext_type, "httpd_t");
    assert_eq!(a.tcontext, "system_u:object_r:var_log_t:s0");
    assert_eq!(a.tcontext_type, "var_log_t");
    assert_eq!((a.tclass.as_str(), a.perm.as_str()), ("file", "open"));
    assert_eq!((a.count, a.first_seen_ns, a.last_seen_ns), (5, 100, 104));
    assert_eq!(a.hook_id, 0);
    assert!(a.is_new);
}

#[test]
fn a_permission_check_makes_a_pattern_of_each_permission() {
    let mut n = Normalizer::new();
    for _ in 0..3 {
        feed(&mut n, &file_event(HookId::FilePermission, 0x03, b"/var/log/ap\0"));
    }
    let b = n.on_tick().unwrap();
    let got: Vec<(&str, u64)> = b.events.iter().map(|e| (e.perm.as_str(), e.count)).collect();
    assert_eq!(got, vec![("read", 3), ("write", 3)]);
}

#[test]
fn what_was_observed_is_not_new_in_the_next_window() {
    let mut n = Normalizer::new();
    feed(&mut n, &make_file_open(1));
    assert!(n.on_tick().unwrap().events[0].is_new);
    feed(&mut n, &make_file_open(2));
    feed(&mut n, &make_socket_bind(2, 6, 80));
    let b = n.on_tick().unwrap();
    assert_eq!(b.events.len(), 2);
    assert!(!b.events[0].is_new);
    assert!(b.events[1].is_new);
    assert!(n.on_tick().is_none());
}

#[test]
fn unresolved_objects_are_dropped() {
    let mut n = Normalizer::new();
    let e = make_file_open(1);
    assert!(n.on_observation(&e, "s", "s_t", None).is_none());
    assert!(n.on_observation(&e, "s", "s_t", Some(b"nothing")).is_none());
    assert!(n.on_observation(&e, "s", "s_t", Some(b"x\t<<none>>")).is_none());
    assert!(n.on_observation(&e, "s", "s_t", Some(b"x\ta:b:generic_t:s0")).is_none());
    assert!(n.on_tick().is_none());
    // A subject that is not known is kept.
    n.on_observation(&e, "unknown_t", "unknown_t", Some(ANSWER));
    assert_eq!(n.on_tick().unwrap().events[0].scontext_type, "unknown_t");
}

fn denial(perms: &[&str]) -> AvcDenial {
    AvcDenial {
        timestamp_sec: "1.0".into(),
        serial: 1,
        scontext: "u:r:httpd_t:s0".into(),
        scontext_type: "httpd_t".into(),
        tcontext: "u:r:var_log_t:s0".into(),
        tcontext_type: "var_log_t".into(),
        tclass: "file".into(),
        perms: perms.iter().map(|s| s.to_string()).collect(),
        pid: 1,
        comm: "c".into(),
        raw: "r".into(),
    }
}

#[test]
fn denials_mark_the_window() {
    let mut n = Normalizer::new();
    assert!(n.on_denial(&denial(&["open", "write", "open"])).is_none());
    feed(&mut n, &make_file_open(1));
    let b = n.on_tick().unwrap();
    assert!(b.has_denials);
    let got: Vec<(&str, u64, u64, u64, bool)> = b
        .events
        .iter()
        .map(|e| (e.perm.as_str(), e.count, e.first_seen_ns, e.last_seen_ns, e.is_new))
        .collect();
    assert_eq!(got, vec![("open", 3, 0, 1_000_000_000, true), ("write", 1, 0, 0, true)]);
    // The mark goes with the batch.
    feed(&mut n, &make_file_open(1));
    assert!(!n.on_tick().unwrap().has_denials);
}

#[test]
fn a_denied_pattern_is_new_once() {
    let mut n = Normalizer::new();
    n.on_denial(&denial(&["write"]));
    assert!(n.on_tick().unwrap().events[0].is_new);
    n.on_denial(&denial(&["write", "append"]));
    let b = n.on_tick().unwrap();
    let new: Vec<bool> = b.events.iter().map(|e| e.is_new).collect();
    assert_eq!(new, vec![false, true]);
}

#[test]
fn a_permission_that_is_denied_twice_at_once_is_new() {
    let mut n = Normalizer::new();
    n.on_denial(&denial(&["write", "read", "write"]));
    let b = n.on_tick().unwrap();
    let got: Vec<(u64, bool)> = b.events.iter().map(|e| (e.count, e.is_new)).collect();
    assert_eq!(got, vec![(2, true), (1, true)]);
}

#[test]
fn observations_and_denials_know_of_each_other() {
    let mut n = Normalizer::new();
    feed(&mut n, &make_file_open(1));
    assert!(n.on_tick().unwrap().events[0].is_new);
    n.on_denial(&denial(&["open"]));
    assert!(!n.on_tick().unwrap().events[0].is_new);
    n.on_denial(&denial(&["read"]));
    n.on_tick();
    feed(&mut n, &file_event(HookId::FilePermission, 0x01, b"/var/log/ap\0"));
    assert!(!n.on_tick().unwrap().events[0].is_new);
}

#[test]
fn a_batch_holds_its_denials() {
    let mut n = Normalizer::new();
    for serial in [4, 5] {
        let mut d = denial(&["open"]);
        d.serial = serial;
        n.on_denial(&d);
    }
    let b = n.on_tick().unwrap();
    let serials: Vec<u64> = b.denials.iter().map(|d| d.serial).collect();
    assert_eq!(serials, vec![4, 5]);
    assert_eq!(b.events.len(), 1);
    feed(&mut n, &make_file_open(1));
    assert_eq!(n.on_tick().unwrap().denials.len(), 0);
}

#[test]
fn a_known_hash_is_not_new_for_a_denial() {
    let mut n = Normalizer::new();
    n.deny_with_hash(&denial(&[]), "read", 5);
    n.deny_with_hash(&denial(&[]), "write", 5);
    let b = n.emit_batch();
    assert!(b.events[0].is_new && !b.events[1].is_new);
}

#[test]
fn a_denial_without_permissions_marks_and_adds_nothing() {
    let mut n = Normalizer::new();
    assert!(n.on_denial(&denial(&[])).is_none());
    assert!(n.on_tick().is_none());
    feed(&mut n, &make_file_open(1));
    assert!(n.on_tick().unwrap().has_denials);
}

#[test]
fn a_full_batch_is_handed_on_at_once() {
    let mut n = Normalizer::new();
    for i in 0..63 {
        let d = denial(&[&format!("p{}", i)]);
        assert!(n.on_denial(&d).is_none());
    }
    assert!(n.on_denial(&denial(&["p0"])).is_none());
    let b = n.on_denial(&denial(&["last", "beyond"])).unwrap();
    assert_eq!(b.events.len(), BATCH_MAX + 1);
    assert_eq!(b.events[0].count, 2);
    assert_eq!(b.events[64].perm, "beyond");
    assert!(n.on_tick().is_none());
}

#[test]
fn a_known_hash_is_not_new() {
    let mut n = Normalizer::new();
    let o = Observed {
        scontext: "s".into(),
        scontext_type: "s_t".into(),
        tcontext: "t".into(),
        tcontext_type: "t_t".into(),
        tclass: "file".into(),
        hook_id: 0,
        at: 7,
    };
    n.note_with_hash(&o, "read", 5);
    n.note_with_hash(&o, "write", 5);
    n.note_with_hash(&o, "open", 6);
    let b = n.emit_batch();
    let new: Vec<bool> = b.events.iter().map(|e| e.is_new).collect();
    assert_eq!(new, vec![true, false, true]);
}

#[test]
fn only_so_many_patterns_are_remembered() {
    let mut n = Normalizer::new();
    let o = Observed {
        scontext: "s".into(),
        scontext_type: "s_t".into(),
        tcontext: "t".into(),
        tcontext_type: "t_t".into(),
        tclass: "file".into(),
        hook_id: 0,
        at: 7,
    };
    let mut is_new = |h: usize| {
        n.note_with_hash(&o, "read", h as u64);
        n.emit_batch().events[0].is_new
    };
    for h in 0..SEEN_MAX {
        assert!(is_new(h));
    }
    assert!(!is_new(0));
    // Meeting a pattern again does not keep it longer.
    assert!(is_new(SEEN_MAX));
    assert!(is_new(0));
    assert!(!is_new(2));
}

#[test]
fn different_patterns_have_different_hashes() {
    // The parts are hashed one after the other, each with its end.
    let mut n = Normalizer::new();
    let mut d = denial(&["x"]);
    n.on_denial(&d);
    d.scontext_type = "http".into();
    d.tcontext_type = "d_tvar_log_t".into();
    n.on_denial(&d);
    assert_eq!(n.on_tick().unwrap().events.len(), 2);
    let mut a = make_file_open(1);
    a.timestamp_ns = 5;
    n.on_observation(&a, "c", "ab", Some(b"\tu:r:c:s0"));
    n.on_observation(&a, "c", "a", Some(b"\tu:r:bc:s0"));
    let b = n.on_tick().unwrap();
    assert!(b.events[0].is_new && b.events[1].is_new);
}
