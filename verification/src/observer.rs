//! What the kernel programs do at their hooks: they watch, and never decide.

use crate::bytes::le_bytes;
use crate::common::event::{hook_number, FileObject, HookId, ObjectInfo, ObservationEvent};
use vstd::prelude::*;

verus! {

/// The task that passes a hook.
#[derive(Clone, Copy, Debug)]
pub struct Task {
    /// Its process (upper half) and thread (lower half).
    pub pid_tgid: u64,
    /// Its control group.
    pub cgroup_id: u64,
    /// The time in nanoseconds.
    pub timestamp_ns: u64,
}

/// What a program does at a hook.
#[derive(Clone, Copy, Debug)]
pub struct Observation {
    /// The decision that it hands on.
    pub ret: i32,
    /// The event that it reports.
    pub event: Option<ObservationEvent>,
}

/// Whether an event says that a task passed a hook, and holds these bytes of the object.
pub open spec fn tells(e: ObservationEvent, hook: HookId, task: Task, object: Seq<u8>) -> bool {
    &&& e.pid_tgid == task.pid_tgid
    &&& e.cgroup_id == task.cgroup_id
    &&& e.timestamp_ns == task.timestamp_ns
    &&& e.hook_id == hook_number(hook)
    &&& e._pad1 == 0
    &&& e.object.raw@ == object
    &&& e._pad2 == 0
}

/// Whether a program watches without deciding: the decision so far is handed on as it is, and
/// an event is reported just when the task is under observation and the access was allowed.
pub open spec fn only_watches(
    o: Observation,
    is_target: bool,
    ret: i32,
    hook: HookId,
    task: Task,
    object: Seq<u8>,
) -> bool {
    &&& o.ret == ret
    &&& o.event is Some <==> is_target && ret == 0
    &&& o.event matches Some(e) ==> tells(e, hook, task, object)
}

/// The bytes of an object of which nothing is known.
pub open spec fn unknown_object() -> Seq<u8> {
    Seq::new(32, |i: int| 0u8)
}

/// The bytes of a file of which only the flags are known.
pub open spec fn file_with_flags(flags: u32) -> Seq<u8> {
    le_bytes(0, 8) + le_bytes(0, 8) + le_bytes(flags as nat, 4) + Seq::new(12, |i: int| 0u8)
}

/// An event of a task at a hook, without its object.
pub fn base_event(hook: HookId, task: &Task) -> (e: ObservationEvent)
    ensures
        tells(e, hook, *task, unknown_object()),
{
    ObservationEvent {
        pid_tgid: task.pid_tgid,
        cgroup_id: task.cgroup_id,
        timestamp_ns: task.timestamp_ns,
        hook_id: hook.to_u32(),
        _pad1: 0,
        object: ObjectInfo::zeroed(),
        _pad2: 0,
    }
}

fn file_object(flags: u32) -> (r: ObjectInfo)
    ensures
        r.raw@ == file_with_flags(flags),
{
    let file = FileObject { dev: 0, inode: 0, flags, path: [0u8; 12] };
    assert(file.path@ =~= Seq::new(12, |i: int| 0u8));
    ObjectInfo::from_file(file)
}

fn observe(is_target: bool, ret: i32, hook: HookId, task: &Task, object: ObjectInfo) -> (r:
    Observation)
    ensures
        only_watches(r, is_target, ret, hook, *task, object.raw@),
{
    if !is_target || ret != 0 {
        return Observation { ret, event: None };
    }
    let mut event = base_event(hook, task);
    event.object = object;
    Observation { ret, event: Some(event) }
}

/// A file is opened.
pub fn file_open_obs(is_target: bool, ret: i32, flags: u32, task: &Task) -> (r: Observation)
    ensures
        only_watches(
            r,
            is_target,
            ret,
            HookId::FileOpen,
            *task,
            file_with_flags(flags),
        ),
{
    let object = file_object(flags);
    observe(is_target, ret, HookId::FileOpen, task, object)
}

/// The permissions on an open file are looked at.
pub fn file_permission_obs(is_target: bool, ret: i32, mask: u32, task: &Task) -> (r: Observation)
    ensures
        only_watches(
            r,
            is_target,
            ret,
            HookId::FilePermission,
            *task,
            file_with_flags(mask),
        ),
{
    let object = file_object(mask);
    observe(is_target, ret, HookId::FilePermission, task, object)
}

/// A socket is bound to an address.
pub fn socket_bind_obs(is_target: bool, ret: i32, task: &Task) -> (r: Observation)
    ensures
        only_watches(
            r,
            is_target,
            ret,
            HookId::SocketBind,
            *task,
            unknown_object(),
        ),
{
    observe(is_target, ret, HookId::SocketBind, task, ObjectInfo::zeroed())
}

/// A socket is connected to an address.
pub fn socket_connect_obs(is_target: bool, ret: i32, task: &Task) -> (r: Observation)
    ensures
        only_watches(
            r,
            is_target,
            ret,
            HookId::SocketConnect,
            *task,
            unknown_object(),
        ),
{
    observe(is_target, ret, HookId::SocketConnect, task, ObjectInfo::zeroed())
}

/// A resource limit of a process is set.
pub fn task_setrlimit_obs(is_target: bool, ret: i32, task: &Task) -> (r: Observation)
    ensures
        only_watches(
            r,
            is_target,
            ret,
            HookId::TaskSetrlimit,
            *task,
            unknown_object(),
        ),
{
    observe(is_target, ret, HookId::TaskSetrlimit, task, ObjectInfo::zeroed())
}

} // verus!
