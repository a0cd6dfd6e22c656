//! States, contexts, events and the tools that they are made with.

use autolsm::common::{FileObject, HookId, ObjectInfo, ObservationEvent, SocketObject};
use autolsm::number::{parse_unsigned, to_decimal};
use autolsm::observer::{
    base_event, file_open_obs, file_permission_obs, socket_bind_obs, socket_connect_obs,
    task_setrlimit_obs, Observation, Task,
};
use autolsm::order::{comes_before, insert_sorted};
use autolsm::resolver::{attr_path, context_from_attr, Resolver, CACHE_MAX};
use autolsm::state_machine::{State, StateMachine};
use autolsm::text::{contains_text, find, join_all, split, trim, trim_end_char, words};

#[test]
fn enforcing_is_final() {
    let mut m = StateMachine::new();
    assert!(m.state().is_learning() && !m.state().is_enforcing());
    assert!(!m.dontaudit_disabled && !m.should_restore_dontaudit());
    m.enter_learning(false).unwrap();
    assert!(!m.dontaudit_disabled);
    m.enter_learning(true).unwrap();
    assert!(m.dontaudit_disabled && !m.should_restore_dontaudit());
    m.enter_learning(false).unwrap();
    assert!(m.dontaudit_disabled);
    m.transition_to_enforcing("autolsm_1").unwrap();
    assert!(m.state().is_enforcing());
    assert!(!m.dontaudit_disabled && !m.should_restore_dontaudit());
    assert!(m.enter_learning(true).is_err());
    assert!(m.state().is_enforcing() && !m.dontaudit_disabled);
    m.transition_to_enforcing("autolsm_2").unwrap();
    assert!(matches!(m.state().clone(), State::Enforcing { version, .. } if version == "autolsm_2"));
}

#[test]
fn a_refused_transition_has_its_words() {
    let mut m = StateMachine::new();
    m.transition_to_enforcing("v").unwrap();
    assert_eq!(
        m.enter_learning(false).unwrap_err().message(),
        "cannot transition to enforcing: already enforcing"
    );
    m.dontaudit_disabled = true;
    assert!(m.should_restore_dontaudit());
}

#[test]
fn contexts_are_remembered() {
    let mut r = Resolver::new();
    assert!(r.lookup(7).is_none());
    let first = r.resolve(7, Some(" system_u:system_r:httpd_t:s0\n"));
    assert_eq!(first, ("system_u:system_r:httpd_t:s0".to_string(), "httpd_t".to_string()));
    // What the file holds later does not matter.
    assert_eq!(r.resolve(7, None), first);
    assert_eq!(r.lookup(7), Some(first));
    assert_eq!(r.resolve(8, None), ("unknown_t".to_string(), "unknown_t".to_string()));
    assert_eq!(r.resolve(8, Some("a:b:c")).1, "unknown_t");
}

#[test]
fn the_least_recently_used_context_is_forgotten() {
    let mut r = Resolver::new();
    for i in 0..CACHE_MAX {
        r.resolve(i as u32, Some("a:b:c"));
    }
    assert!(r.lookup(0).is_some());
    r.resolve(CACHE_MAX as u32, Some("a:b:c"));
    assert!(r.lookup(0).is_some());
    assert!(r.lookup(1).is_none());
    assert!(r.lookup(2).is_some());
}

#[test]
fn a_context_outlives_fewer_than_a_cache_full_of_others() {
    let mut r = Resolver::new();
    let first = r.resolve(0, Some("a:b:first_t"));
    for _ in 0..3 {
        for i in 1..CACHE_MAX {
            r.resolve(i as u32, Some("a:b:c"));
        }
    }
    assert_eq!(r.resolve(0, Some("a:b:second_t")), first);
}

#[test]
fn contexts_come_from_the_attribute_file() {
    assert_eq!(attr_path(1), "/proc/1/attr/current");
    assert_eq!(context_from_attr(Some(" \n")).0, "unknown_t");
    assert_eq!(context_from_attr(Some("kernel")), ("kernel".to_string(), "unknown_t".to_string()));
    assert_eq!(context_from_attr(None).1, "unknown_t");
}

#[test]
fn hooks_are_found_by_their_number() {
    for v in 0..17 {
        assert_eq!(HookId::from_u32(v).unwrap().to_u32(), v);
    }
    assert_eq!(HookId::from_u32(17), None);
    assert_eq!(HookId::from_u32(u32::MAX), None);
}

#[test]
fn objects_are_read_back() {
    let f = ObjectInfo::from_file(FileObject {
        dev: 0x0102_0304_0506_0708,
        inode: 42,
        flags: 0xdead_beef,
        path: *b"/var/log/ap\0",
    });
    let g = f.file();
    assert_eq!((g.dev, g.inode, g.flags, &g.path), (0x0102_0304_0506_0708, 42, 0xdead_beef, b"/var/log/ap\0"));
    assert_eq!(&f.raw[..8], &[8, 7, 6, 5, 4, 3, 2, 1]);
    let s = ObjectInfo::from_sock(SocketObject { family: 2, proto: 6, port: 0x5000, addr: [9; 16] }).sock();
    assert_eq!((s.family, s.proto, s.port, s.port_number(), s.addr), (2, 6, 0x5000, 80, [9; 16]));
    assert_eq!(ObjectInfo::zeroed().raw, [0; 32]);
}

#[test]
fn objects_are_laid_out_in_bytes() {
    let f = FileObject { dev: 0x0102, inode: u64::MAX, flags: 0x0a0b_0c0d, path: *b"/var/log/ap\0" };
    let mut expected = vec![2, 1, 0, 0, 0, 0, 0, 0];
    expected.extend([255u8; 8]);
    expected.extend([0x0d, 0x0c, 0x0b, 0x0a]);
    expected.extend(*b"/var/log/ap\0");
    assert_eq!(ObjectInfo::from_file(f).raw.to_vec(), expected);
    let s = SocketObject { family: 2, proto: 6, port: 0x1f90, addr: [7; 16] };
    let mut expected = vec![2, 0, 6, 0, 0x90, 0x1f];
    expected.extend([7u8; 16]);
    expected.extend([0u8; 10]);
    assert_eq!(ObjectInfo::from_sock(s).raw.to_vec(), expected);
}

#[test]
fn events_are_read_back() {
    let mut raw = [0u8; 32];
    for (i, b) in raw.iter_mut().enumerate() {
        *b = i as u8;
    }
    let e = ObservationEvent {
        pid_tgid: 1 << 40,
        cgroup_id: u64::MAX,
        timestamp_ns: 3,
        hook_id: 16,
        _pad1: 4,
        object: ObjectInfo { raw },
        _pad2: 5,
    };
    let bytes = e.to_bytes();
    assert_eq!(bytes.len(), 72);
    let f = ObservationEvent::from_bytes(&bytes).unwrap();
    assert_eq!(
        (f.pid_tgid, f.cgroup_id, f.timestamp_ns, f.hook_id, f._pad1, f.object.raw, f._pad2),
        (1 << 40, u64::MAX, 3, 16, 4, raw, 5)
    );
    assert!(ObservationEvent::from_bytes(&bytes[..71]).is_none());
    assert!(ObservationEvent::from_bytes(&[]).is_none());
}

const TASK: Task = Task { pid_tgid: 5, cgroup_id: 6, timestamp_ns: 7 };

fn at_every_hook(is_target: bool, ret: i32) -> Vec<Observation> {
    vec![
        file_open_obs(is_target, ret, 3, &TASK),
        file_permission_obs(is_target, ret, 3, &TASK),
        socket_bind_obs(is_target, ret, &TASK),
        socket_connect_obs(is_target, ret, &TASK),
        task_setrlimit_obs(is_target, ret, &TASK),
    ]
}

#[test]
fn observers_hand_the_decision_on() {
    for ret in [0, -13, 1, i32::MIN] {
        for is_target in [true, false] {
            for o in at_every_hook(is_target, ret) {
                assert_eq!(o.ret, ret);
                assert_eq!(o.event.is_some(), is_target && ret == 0);
            }
        }
    }
}

#[test]
fn observers_report_what_they_see() {
    let hooks: Vec<u32> = at_every_hook(true, 0).iter().map(|o| o.event.unwrap().hook_id).collect();
    assert_eq!(hooks, vec![0, 1, 5, 6, 16]);
    let e = file_permission_obs(true, 0, 0x0b, &TASK).event.unwrap();
    assert_eq!((e.pid_tgid, e.cgroup_id, e.timestamp_ns), (5, 6, 7));
    let f = e.object.file();
    assert_eq!((f.dev, f.inode, f.flags, f.path), (0, 0, 0x0b, [0; 12]));
    assert_eq!(socket_bind_obs(true, 0, &TASK).event.unwrap().object.raw, [0; 32]);
    assert_eq!(base_event(HookId::FileLock, &TASK).hook_id, 3);
}

#[test]
fn numbers_are_written_and_read() {
    for n in [0, 9, 10, 65535, u64::MAX] {
        assert_eq!(to_decimal(n), n.to_string());
        assert_eq!(parse_unsigned(&n.to_string(), u64::MAX), Some(n));
    }
    assert_eq!(parse_unsigned("+7", 10), Some(7));
    assert_eq!(parse_unsigned("007", 10), Some(7));
    assert_eq!(parse_unsigned("11", 10), None);
    for s in ["", "+", "-1", " 1", "1x", "18446744073709551616"] {
        assert_eq!(parse_unsigned(s, u64::MAX), None);
    }
}

#[test]
fn texts_are_taken_apart() {
    assert_eq!(split("a::b", ':'), vec!["a", "", "b"]);
    assert_eq!(split("", ':'), vec![""]);
    assert_eq!(words(" a \t b\u{3000}c "), vec!["a", "b", "c"]);
    assert_eq!(words(" "), Vec::<String>::new());
    assert_eq!(trim("\u{a0} a b \n"), "a b");
    assert_eq!(trim_end_char("a//", '/'), "a");
    assert_eq!(find("abcabc", "ca"), Some(2));
    assert_eq!(find("\u{e9}b", "b"), Some(1));
    assert_eq!(find("abc", ""), Some(0));
    assert_eq!(find("abc", "abcd"), None);
    assert!(contains_text("abc", "bc") && !contains_text("abc", "cb"));
    assert_eq!(join_all(&vec!["a".to_string(), "b".to_string()], ", "), "a, b");
    assert_eq!(join_all(&vec![], ", "), "");
}

#[test]
fn texts_are_ordered_like_strings() {
    let samples = ["", "a", "ab", "b", "B", "\u{e9}", "\u{10000}", "\u{ffff}", "ba"];
    for a in samples {
        for b in samples {
            assert_eq!(comes_before(a, b), a < b);
        }
    }
    let mut v: Vec<String> = Vec::new();
    for s in ["write", "append", "read", "append"] {
        insert_sorted(&mut v, s);
    }
    assert_eq!(v, vec!["append", "read", "write"]);
}
