//! Observations and denials, brought to access patterns that are counted once per window.

use crate::bytes::le_value;
use crate::common::event::{
    hook_of, port_number, HookId, ObjectInfo, ObservationEvent,
};
use crate::common::userspace::{
    access_views, denial_views, AccessView, AvcDenial, BatchView, DenialView, NormalizedAccess,
    NormalizedBatch,
};
use crate::common::{af, proto};
use crate::number::{decimal, to_decimal};
use crate::outside::{
    hash_key, seen_cap, seen_contains, seen_entries, seen_new, seen_put, text_of_bytes,
    utf8_lossy,
};
use crate::resolver::{extract_type, type_of};
use crate::text::{
    contains_text, has_text, is_only, join, opt_text, same, split, split_on, trim, trim_end,
    trim_end_char, trimmed, views,
};
use crate::window::{
    after_input, after_time, all_resolved, batch_of, denied, denied_all, distinct, empty_window,
    enter, is_old, knows, law_meeting_keeps_order, law_meetings_are_remembered,
    law_meetings_are_resolved, law_meetings_keep_order, law_old_stays_old, law_unknown_is_new,
    lemma_slot_is, meet, meet_all, next_window, none_new, note_all, pattern_hash, pattern_key,
    sighted, sighted_all, slot, stands_new, window_wf, with_denial, Sighting, Window,
};
use lru::LruCache;
use vstd::prelude::*;

verus! {

/// How many access patterns make a batch full.
pub const BATCH_MAX: usize = 64;

/// How many access patterns are remembered from window to window.
pub const SEEN_MAX: usize = 10000;

// ---- Hooks ----

/// The hook that an event names; one that is not known counts as an opened file.
pub open spec fn effective_hook(hook_id: u32) -> HookId {
    match hook_of(hook_id) {
        Some(h) => h,
        None => HookId::FileOpen,
    }
}

/// The address family of a socket object.
pub open spec fn family_of(raw: Seq<u8>) -> u16 {
    le_value(raw.subrange(0, 2)) as u16
}

/// The protocol of a socket object.
pub open spec fn protocol_of(raw: Seq<u8>) -> u16 {
    le_value(raw.subrange(2, 4)) as u16
}

/// The port of a socket object, in network byte order.
pub open spec fn port_of(raw: Seq<u8>) -> u16 {
    le_value(raw.subrange(4, 6)) as u16
}

/// The flags of a file object.
pub open spec fn flags_of(raw: Seq<u8>) -> u32 {
    le_value(raw.subrange(16, 20)) as u32
}

/// Whether a hook is about a file.
pub open spec fn is_file_hook(h: HookId) -> bool {
    match h {
        HookId::FileOpen
        | HookId::FilePermission
        | HookId::FileIoctl
        | HookId::FileLock
        | HookId::FileReceive => true,
        _ => false,
    }
}

/// The object class of a socket, by its family and protocol.
pub open spec fn socket_class(family: u16, protocol: u16) -> Seq<char> {
    let inet = family == af::AF_INET || family == af::AF_INET6;
    if inet && protocol == proto::IPPROTO_TCP {
        "tcp_socket"@
    } else if inet && protocol == proto::IPPROTO_UDP {
        "udp_socket"@
    } else if family == af::AF_UNIX {
        "unix_stream_socket"@
    } else if family == af::AF_NETLINK {
        "netlink_socket"@
    } else {
        "socket"@
    }
}

/// The object class of an access at a hook.
pub open spec fn class_of(h: HookId, raw: Seq<u8>) -> Seq<char> {
    match h {
        HookId::FileOpen
        | HookId::FilePermission
        | HookId::FileIoctl
        | HookId::FileLock
        | HookId::FileReceive => "file"@,
        HookId::SocketBind | HookId::SocketConnect => socket_class(
            family_of(raw),
            protocol_of(raw),
        ),
        HookId::SocketListen | HookId::SocketAccept => "tcp_socket"@,
        HookId::SocketSendmsg | HookId::SocketRecvmsg => "socket"@,
        HookId::UnixStreamConnect => "unix_stream_socket"@,
        HookId::UnixMaySend => "unix_dgram_socket"@,
        HookId::TaskSetpgid
        | HookId::TaskGetpgid
        | HookId::TaskSetsched
        | HookId::TaskSetrlimit => "process"@,
    }
}

/// The permission of an access at a hook that stands for a single one.
pub open spec fn perm_of(h: HookId) -> Seq<char> {
    match h {
        HookId::FileOpen => "open"@,
        HookId::FilePermission => "read"@,
        HookId::FileIoctl => "ioctl"@,
        HookId::FileLock => "lock"@,
        HookId::FileReceive => "open"@,
        HookId::SocketBind => "name_bind"@,
        HookId::SocketConnect => "name_connect"@,
        HookId::SocketListen => "listen"@,
        HookId::SocketAccept => "accept"@,
        HookId::SocketSendmsg => "write"@,
        HookId::SocketRecvmsg => "read"@,
        HookId::UnixStreamConnect => "connectto"@,
        HookId::UnixMaySend => "sendto"@,
        HookId::TaskSetpgid => "setpgid"@,
        HookId::TaskGetpgid => "getpgid"@,
        HookId::TaskSetsched => "setsched"@,
        HookId::TaskSetrlimit => "setrlimit"@,
    }
}

/// One permission where a bit of the mask is set.
pub open spec fn perm_bit(mask: u32, weight: u32, perm: Seq<char>) -> Seq<Seq<char>> {
    if (mask / weight) % 2 == 1 {
        seq![perm]
    } else {
        Seq::empty()
    }
}

/// The permissions in the mask of a permission check; one without any of them still looks at
/// the file.
pub open spec fn mask_perms(mask: u32) -> Seq<Seq<char>> {
    let perms = perm_bit(mask, 1, "read"@) + perm_bit(mask, 2, "write"@) + perm_bit(
        mask,
        4,
        "append"@,
    ) + perm_bit(mask, 8, "execute"@);
    if perms.len() == 0 {
        seq!["getattr"@]
    } else {
        perms
    }
}

/// The permissions of an access at a hook.
pub open spec fn perms_of(h: HookId, raw: Seq<u8>) -> Seq<Seq<char>> {
    if h == HookId::FilePermission {
        mask_perms(flags_of(raw))
    } else {
        seq![perm_of(h)]
    }
}

/// The object class of an access at a hook.
pub fn hook_to_class(hook: HookId, event: &ObservationEvent) -> (r: &'static str)
    ensures
        r@ == class_of(hook, event.object.raw@),
{
    match hook {
        HookId::FileOpen
        | HookId::FilePermission
        | HookId::FileIoctl
        | HookId::FileLock
        | HookId::FileReceive => "file",
        HookId::SocketBind | HookId::SocketConnect => {
            let sock = event.object.sock();
            let inet = sock.family == af::AF_INET || sock.family == af::AF_INET6;
            if inet && sock.proto == proto::IPPROTO_TCP {
                "tcp_socket"
            } else if inet && sock.proto == proto::IPPROTO_UDP {
                "udp_socket"
            } else if sock.family == af::AF_UNIX {
                "unix_stream_socket"
            } else if sock.family == af::AF_NETLINK {
                "netlink_socket"
            } else {
                "socket"
            }
        },
        HookId::SocketListen | HookId::SocketAccept => "tcp_socket",
        HookId::SocketSendmsg | HookId::SocketRecvmsg => "socket",
        HookId::UnixStreamConnect => "unix_stream_socket",
        HookId::UnixMaySend => "unix_dgram_socket",
        HookId::TaskSetpgid
        | HookId::TaskGetpgid
        | HookId::TaskSetsched
        | HookId::TaskSetrlimit => "process",
    }
}

/// The permission of an access at a hook that stands for a single one.
pub fn hook_to_perm(hook: HookId) -> (r: &'static str)
    ensures
        r@ == perm_of(hook),
{
    match hook {
        HookId::FileOpen => "open",
        HookId::FilePermission => "read",
        HookId::FileIoctl => "ioctl",
        HookId::FileLock => "lock",
        HookId::FileReceive => "open",
        HookId::SocketBind => "name_bind",
        HookId::SocketConnect => "name_connect",
        HookId::SocketListen => "listen",
        HookId::SocketAccept => "accept",
        HookId::SocketSendmsg => "write",
        HookId::SocketRecvmsg => "read",
        HookId::UnixStreamConnect => "connectto",
        HookId::UnixMaySend => "sendto",
        HookId::TaskSetpgid => "setpgid",
        HookId::TaskGetpgid => "getpgid",
        HookId::TaskSetsched => "setsched",
        HookId::TaskSetrlimit => "setrlimit",
    }
}

/// The permissions in the mask of a permission check.
pub fn perms_in_mask(mask: u32) -> (r: Vec<String>)
    ensures
        views(r@) == mask_perms(mask),
{
    let mut r: Vec<String> = Vec::new();
    assert((mask & 0x01 != 0) == ((mask / 1) % 2 == 1)) by (bit_vector);
    assert((mask & 0x02 != 0) == ((mask / 2) % 2 == 1)) by (bit_vector);
    assert((mask & 0x04 != 0) == ((mask / 4) % 2 == 1)) by (bit_vector);
    assert((mask & 0x08 != 0) == ((mask / 8) % 2 == 1)) by (bit_vector);
    if mask & 0x01 != 0 {
        r.push("read".to_owned());
    }
    assert(views(r@) =~= perm_bit(mask, 1, "read"@));
    let ghost one = views(r@);
    if mask & 0x02 != 0 {
        r.push("write".to_owned());
    }
    assert(views(r@) =~= one + perm_bit(mask, 2, "write"@));
    let ghost two = views(r@);
    if mask & 0x04 != 0 {
        r.push("append".to_owned());
    }
    assert(views(r@) =~= two + perm_bit(mask, 4, "append"@));
    let ghost three = views(r@);
    if mask & 0x08 != 0 {
        r.push("execute".to_owned());
    }
    assert(views(r@) =~= three + perm_bit(mask, 8, "execute"@));
    if r.len() == 0 {
        r.push("getattr".to_owned());
        assert(views(r@) =~= seq!["getattr"@]);
    }
    r
}

/// The permissions of an access at a hook.
pub fn perms_at_hook(hook: HookId, event: &ObservationEvent) -> (r: Vec<String>)
    ensures
        views(r@) == perms_of(hook, event.object.raw@),
{
    match hook {
        HookId::FilePermission => perms_in_mask(event.object.file().flags),
        _ => {
            let mut r: Vec<String> = Vec::new();
            r.push(hook_to_perm(hook).to_owned());
            assert(views(r@) =~= seq![perm_of(hook)]);
            r
        },
    }
}

/// The process of an event: the upper half of its subject.
pub fn tgid_of(event: &ObservationEvent) -> (r: u32)
    ensures
        r == event.pid_tgid / 0x1_0000_0000,
{
    let subject: u64 = event.pid_tgid;
    assert(subject >> 32 == subject / 0x1_0000_0000) by (bit_vector);
    assert(subject >> 32 <= 0xffff_ffff) by (bit_vector);
    (subject >> 32) as u32
}

// ---- Objects ----

/// The path in a file object, as far as it fits there.
pub open spec fn object_path(raw: Seq<u8>) -> Seq<char> {
    trim_end(utf8_lossy(raw.subrange(20, 32)), is_only('\0'))
}

/// The context and type of an object that has no label of its own.
pub open spec fn unlabelled() -> (Seq<char>, Seq<char>) {
    ("unconfined_u:unconfined_r:unconfined_t:s0"@, "unconfined_t"@)
}

/// The context and type of a file whose label could not be found.
pub open spec fn unresolved() -> (Seq<char>, Seq<char>) {
    ("unresolved_t"@, "unresolved_t"@)
}

/// The context and type in the answer to a question for the label of a path: what follows its
/// first tabulator.
pub open spec fn label_in(answer: Option<Seq<char>>) -> (Seq<char>, Seq<char>) {
    match answer {
        Some(text) => {
            let parts = split_on(text, '\t');
            if parts.len() >= 2 {
                (trimmed(parts[1]), type_of(trimmed(parts[1])))
            } else {
                unresolved()
            }
        },
        None => unresolved(),
    }
}

/// The context and type of the object of an access, given its path and the answer to the
/// question for its label.
pub open spec fn target_in(
    h: HookId,
    raw: Seq<u8>,
    tclass: Seq<char>,
    path: Seq<char>,
    answer: Option<Seq<char>>,
) -> (Seq<char>, Seq<char>) {
    if is_file_hook(h) {
        if path.len() > 0 {
            label_in(answer)
        } else {
            unlabelled()
        }
    } else if has_text(tclass, "socket"@) {
        let family = decimal(family_of(raw) as nat);
        let port = decimal(port_number(port_of(raw)) as nat);
        ("socket_"@ + family + ":"@ + port, "socket_"@ + family + "_t"@)
    } else {
        unlabelled()
    }
}

/// What an optional answer says.
pub open spec fn answer_text(answer: Option<&[u8]>) -> Option<Seq<char>> {
    match answer {
        Some(bytes) => Some(utf8_lossy(bytes@)),
        None => None,
    }
}

/// The path whose label is asked for before an event can be taken in.
pub open spec fn query_of(hook_id: u32, raw: Seq<u8>) -> Option<Seq<char>> {
    if is_file_hook(effective_hook(hook_id)) && object_path(raw).len() > 0 {
        Some(object_path(raw))
    } else {
        None
    }
}

fn is_about_file(hook: HookId) -> (r: bool)
    ensures
        r == is_file_hook(hook),
{
    matches!(
        hook,
        HookId::FileOpen
            | HookId::FilePermission
            | HookId::FileIoctl
            | HookId::FileLock
            | HookId::FileReceive
    )
}

fn hook_of_event(event: &ObservationEvent) -> (r: HookId)
    ensures
        r == effective_hook(event.hook_id),
{
    match HookId::from_u32(event.hook_id) {
        Some(h) => h,
        None => HookId::FileOpen,
    }
}

fn path_of(object: &ObjectInfo) -> (r: String)
    ensures
        r@ == object_path(object.raw@),
{
    let file = object.file();
    let text = text_of_bytes(file.path.as_slice());
    trim_end_char(text.as_str(), '\0')
}

/// The path whose label has to be asked for before an event can be taken in; `None` where the
/// event needs no answer.
pub fn path_to_query(event: &ObservationEvent) -> (r: Option<String>)
    ensures
        crate::text::opt_view(r) == query_of(event.hook_id, event.object.raw@),
{
    let hook = hook_of_event(event);
    if !is_about_file(hook) {
        return None;
    }
    let path = path_of(&event.object);
    if path.as_str().is_empty() {
        None
    } else {
        Some(path)
    }
}

fn label_from_answer(answer: Option<&str>) -> (r: (String, String))
    ensures
        (r.0@, r.1@) == label_in(opt_text(answer)),
{
    match answer {
        Some(text) => {
            let parts = split(text, '\t');
            assert(views(parts@).len() == parts@.len());
            if parts.len() >= 2 {
                assert(split_on(text@, '\t')[1] == parts@[1]@);
                let context = trim(parts[1].as_str());
                let short = extract_type(context.as_str());
                (context, short)
            } else {
                ("unresolved_t".to_owned(), "unresolved_t".to_owned())
            }
        },
        None => ("unresolved_t".to_owned(), "unresolved_t".to_owned()),
    }
}

/// The context and type of the object of an access, given its path and the answer to the
/// question for its label.
pub fn target_from_texts(
    hook: HookId,
    object: &ObjectInfo,
    tclass: &str,
    path: &str,
    answer: Option<&str>,
) -> (r: (String, String))
    ensures
        (r.0@, r.1@) == target_in(hook, object.raw@, tclass@, path@, opt_text(answer)),
{
    if is_about_file(hook) {
        if !path.is_empty() {
            return label_from_answer(answer);
        }
    } else if contains_text(tclass, "socket") {
        let sock = object.sock();
        let family = to_decimal(sock.family as u64);
        let port = to_decimal(sock.port_number() as u64);
        let mut context = join("socket_", family.as_str());
        context.append(":");
        context.append(port.as_str());
        let mut short = join("socket_", family.as_str());
        short.append("_t");
        return (context, short);
    }
    ("unconfined_u:unconfined_r:unconfined_t:s0".to_owned(), "unconfined_t".to_owned())
}

/// The context and type of the object of an access, given what was answered to the question
/// for the label of its path; `None` stands for a question that could not be asked.
pub fn resolve_tcontext(
    event: &ObservationEvent,
    hook: HookId,
    tclass: &str,
    answer: Option<&[u8]>,
) -> (r: (String, String))
    ensures
        (r.0@, r.1@) == target_in(
            hook,
            event.object.raw@,
            tclass@,
            object_path(event.object.raw@),
            answer_text(answer),
        ),
{
    let path = path_of(&event.object);
    match answer {
        Some(bytes) => {
            let text = text_of_bytes(bytes);
            target_from_texts(hook, &event.object, tclass, path.as_str(), Some(text.as_str()))
        },
        None => target_from_texts(hook, &event.object, tclass, path.as_str(), None),
    }
}

/// Whether a type says that a label could not be found.
pub open spec fn is_sentinel(t: Seq<char>) -> bool {
    t == "unresolved_t"@ || t == "unknown_t"@ || t == "generic_t"@
}

/// Whether a type says that a label could not be found.
pub fn is_sentinel_type(t: &str) -> (r: bool)
    ensures
        r == is_sentinel(t@),
{
    same(t, "unresolved_t") || same(t, "unknown_t") || same(t, "generic_t")
}

// ---- The normalizer ----

/// What is known of an observation: both ends of the access, its class, hook and time.
pub struct Observed {
    pub scontext: String,
    pub scontext_type: String,
    pub tcontext: String,
    pub tcontext_type: String,
    pub tclass: String,
    pub hook_id: u32,
    pub at: u64,
}

impl View for Observed {
    type V = Sighting;

    open spec fn view(&self) -> Sighting {
        Sighting {
            scontext: self.scontext@,
            scontext_type: self.scontext_type@,
            tcontext: self.tcontext@,
            tcontext_type: self.tcontext_type@,
            tclass: self.tclass@,
            hook_id: self.hook_id,
            at: self.at,
        }
    }
}

/// What is known of an event, once the context of its subject and the label of its object are.
pub open spec fn sighting_of(
    e: ObservationEvent,
    scontext: Seq<char>,
    scontext_type: Seq<char>,
    answer: Option<Seq<char>>,
) -> Sighting {
    let h = effective_hook(e.hook_id);
    let raw = e.object.raw@;
    let tclass = class_of(h, raw);
    let target = target_in(h, raw, tclass, object_path(raw), answer);
    Sighting {
        scontext,
        scontext_type,
        tcontext: target.0,
        tcontext_type: target.1,
        tclass,
        hook_id: e.hook_id,
        at: e.timestamp_ns,
    }
}

/// A window after an event: each of its permissions is met, unless the label of its object
/// could not be found.
pub open spec fn with_observation(
    w: Window,
    e: ObservationEvent,
    scontext: Seq<char>,
    scontext_type: Seq<char>,
    answer: Option<Seq<char>>,
) -> Window {
    let o = sighting_of(e, scontext, scontext_type, answer);
    if is_sentinel(o.tcontext_type) {
        w
    } else {
        note_all(w, o, perms_of(effective_hook(e.hook_id), e.object.raw@))
    }
}

/// The patterns of an event, as they are met.
pub open spec fn patterns_of(
    e: ObservationEvent,
    scontext: Seq<char>,
    scontext_type: Seq<char>,
    answer: Option<Seq<char>>,
) -> Seq<AccessView> {
    sighted_all(
        sighting_of(e, scontext, scontext_type, answer),
        perms_of(effective_hook(e.hook_id), e.object.raw@),
    )
}

/// Whether the label of the object of an event was found.
pub open spec fn is_resolved(e: ObservationEvent, answer: Option<Seq<char>>) -> bool {
    !is_sentinel(sighting_of(e, Seq::empty(), Seq::empty(), answer).tcontext_type)
}

/// Observations bring in no object whose label could not be found, whatever came before.
pub proof fn law_unresolved_is_dropped(
    w: Window,
    e: ObservationEvent,
    scontext: Seq<char>,
    scontext_type: Seq<char>,
    answer: Option<Seq<char>>,
)
    requires
        all_resolved(w.batch),
    ensures
        all_resolved(with_observation(w, e, scontext, scontext_type, answer).batch),
        !is_resolved(e, answer) ==> with_observation(w, e, scontext, scontext_type, answer) == w,
        is_file_hook(effective_hook(e.hook_id)) && object_path(e.object.raw@).len() > 0 && answer
            is None ==> with_observation(w, e, scontext, scontext_type, answer) == w,
{
    let o = sighting_of(e, scontext, scontext_type, answer);
    if !is_sentinel(o.tcontext_type) {
        law_meetings_are_resolved(
            w,
            patterns_of(e, scontext, scontext_type, answer),
            Some(o.at),
        );
    }
}

/// What a normalizer takes in.
pub enum Intake {
    /// An event, with the context and type of its subject and the answer to the question for the
    /// label of its object.
    Observed(ObservationEvent, Seq<char>, Seq<char>, Option<Seq<char>>),
    /// A denial.
    Denied(DenialView),
    /// The time of a window is over.
    TimeOver,
}

/// What is handed on after an intake, and the window that follows.
pub open spec fn take_in(w: Window, i: Intake) -> (Option<BatchView>, Window) {
    match i {
        Intake::Observed(e, scontext, scontext_type, answer) => after_input(
            with_observation(w, e, scontext, scontext_type, answer),
        ),
        Intake::Denied(d) => after_input(with_denial(w, d)),
        Intake::TimeOver => after_time(w),
    }
}

/// The window that one intake after another leads to.
pub open spec fn take_in_all(w: Window, intakes: Seq<Intake>) -> Window
    decreases intakes.len(),
{
    if intakes.len() == 0 {
        w
    } else {
        take_in_all(take_in(w, intakes[0]).1, intakes.skip(1))
    }
}

/// The batches that are handed on in the course of several intakes, in order.
pub open spec fn handed_on(w: Window, intakes: Seq<Intake>) -> Seq<BatchView>
    decreases intakes.len(),
{
    if intakes.len() == 0 {
        Seq::empty()
    } else {
        let (b, after) = take_in(w, intakes[0]);
        let rest = handed_on(after, intakes.skip(1));
        match b {
            Some(x) => seq![x] + rest,
            None => rest,
        }
    }
}

/// No intake breaks the order of a window, and none makes the remembered patterns fewer.
pub proof fn law_intake_keeps_order(w: Window, i: Intake)
    requires
        window_wf(w),
    ensures
        window_wf(take_in(w, i).1),
        take_in(w, i).1.seen.len() >= w.seen.len(),
        take_in(w, i).0 matches Some(b) ==> distinct(b.events),
{
    match i {
        Intake::Observed(e, scontext, scontext_type, answer) => {
            let o = sighting_of(e, scontext, scontext_type, answer);
            law_meetings_keep_order(
                w,
                patterns_of(e, scontext, scontext_type, answer),
                Some(o.at),
            );
        },
        Intake::Denied(d) => {
            law_meetings_keep_order(w, denied_all(d), None);
        },
        Intake::TimeOver => {},
    }
}

/// Intakes break no order, and never make the remembered patterns fewer.
pub proof fn law_intakes_keep_order(w: Window, intakes: Seq<Intake>)
    requires
        window_wf(w),
    ensures
        window_wf(take_in_all(w, intakes)),
        take_in_all(w, intakes).seen.len() >= w.seen.len(),
    decreases intakes.len(),
{
    if intakes.len() > 0 {
        law_intake_keeps_order(w, intakes[0]);
        law_intakes_keep_order(take_in(w, intakes[0]).1, intakes.skip(1));
    }
}

/// What is old news before an intake is so after it, and in what is handed on.
proof fn lemma_old_after_intake(
    w: Window,
    i: Intake,
    k: (Seq<char>, Seq<char>, Seq<char>, Seq<char>),
)
    requires
        window_wf(w),
        is_old(w, k),
        take_in(w, i).1.seen.len() < SEEN_MAX,
    ensures
        is_old(take_in(w, i).1, k),
        take_in(w, i).0 matches Some(b) ==> none_new(b.events, k),
{
    match i {
        Intake::Observed(e, scontext, scontext_type, answer) => {
            let o = sighting_of(e, scontext, scontext_type, answer);
            if !is_sentinel(o.tcontext_type) {
                law_old_stays_old(
                    w,
                    patterns_of(e, scontext, scontext_type, answer),
                    Some(o.at),
                    k,
                );
            }
        },
        Intake::Denied(d) => {
            law_old_stays_old(w, denied_all(d), None, k);
        },
        Intake::TimeOver => {},
    }
}

/// A pattern that is old news is never marked as new again, in no batch that is handed on and
/// not in the window at the end, whatever is taken in, while fewer patterns than there is room
/// for have been met in all.
pub proof fn law_old_is_never_new_again(
    w: Window,
    intakes: Seq<Intake>,
    k: (Seq<char>, Seq<char>, Seq<char>, Seq<char>),
)
    requires
        window_wf(w),
        is_old(w, k),
        take_in_all(w, intakes).seen.len() < SEEN_MAX,
    ensures
        is_old(take_in_all(w, intakes), k),
        forall|j: int|
            0 <= j < handed_on(w, intakes).len() ==> none_new(
                (#[trigger] handed_on(w, intakes)[j]).events,
                k,
            ),
    decreases intakes.len(),
{
    if intakes.len() > 0 {
        let (b, after) = take_in(w, intakes[0]);
        let rest = intakes.skip(1);
        law_intake_keeps_order(w, intakes[0]);
        law_intakes_keep_order(after, rest);
        lemma_old_after_intake(w, intakes[0], k);
        law_old_is_never_new_again(after, rest, k);
        assert forall|j: int| 0 <= j < handed_on(w, intakes).len() implies none_new(
            (#[trigger] handed_on(w, intakes)[j]).events,
            k,
        ) by {
            if b is Some {
                if j > 0 {
                    assert(handed_on(w, intakes)[j] == handed_on(after, rest)[j - 1]);
                }
            } else {
                assert(handed_on(w, intakes)[j] == handed_on(after, rest)[j]);
            }
        }
    }
}

/// Once the batch with an event or a denial was handed on, each of their patterns is old news,
/// while fewer patterns than there is room for have been met in all.
pub proof fn law_handed_on_is_old(
    w: Window,
    e: ObservationEvent,
    scontext: Seq<char>,
    scontext_type: Seq<char>,
    answer: Option<Seq<char>>,
    d: DenialView,
)
    requires
        window_wf(w),
    ensures
        is_resolved(e, answer) && with_observation(
            w,
            e,
            scontext,
            scontext_type,
            answer,
        ).seen.len() < SEEN_MAX ==> forall|i: int|
            0 <= i < patterns_of(e, scontext, scontext_type, answer).len() ==> is_old(
                next_window(with_observation(w, e, scontext, scontext_type, answer)),
                pattern_key(#[trigger] patterns_of(e, scontext, scontext_type, answer)[i]),
            ),
        with_denial(w, d).seen.len() < SEEN_MAX ==> forall|i: int|
            0 <= i < denied_all(d).len() ==> is_old(
                next_window(with_denial(w, d)),
                pattern_key(#[trigger] denied_all(d)[i]),
            ),
{
    let fresh = patterns_of(e, scontext, scontext_type, answer);
    if is_resolved(e, answer) && with_observation(
        w,
        e,
        scontext,
        scontext_type,
        answer,
    ).seen.len() < SEEN_MAX {
        let last = Some(e.timestamp_ns);
        law_meetings_are_remembered(w, fresh, last);
        assert forall|i: int| 0 <= i < fresh.len() implies is_old(
            next_window(with_observation(w, e, scontext, scontext_type, answer)),
            pattern_key(#[trigger] fresh[i]),
        ) by {
            assert(knows(meet_all(w, fresh, last), pattern_key(fresh[i])));
        }
    }
    if with_denial(w, d).seen.len() < SEEN_MAX {
        law_meetings_are_remembered(w, denied_all(d), None);
        assert forall|i: int| 0 <= i < denied_all(d).len() implies is_old(
            next_window(with_denial(w, d)),
            pattern_key(#[trigger] denied_all(d)[i]),
        ) by {
            assert(knows(meet_all(w, denied_all(d), None), pattern_key(denied_all(d)[i])));
        }
    }
}

/// A pattern is new once. An event marks a pattern of it as new that was neither remembered nor
/// in the batch, where no other one that stands before it has the same hash. After the batch was
/// handed on, nothing that is taken in marks it as new again, not even the same event, while
/// fewer patterns than there is room for have been met in all.
pub proof fn law_observed_pattern_is_new_once(
    w: Window,
    e: ObservationEvent,
    scontext: Seq<char>,
    scontext_type: Seq<char>,
    answer: Option<Seq<char>>,
    i: int,
    later: Seq<Intake>,
)
    requires
        window_wf(w),
        is_resolved(e, answer),
        0 <= i < patterns_of(e, scontext, scontext_type, answer).len(),
    ensures
        ({
            let fresh = patterns_of(e, scontext, scontext_type, answer);
            let k = pattern_key(fresh[i]);
            !knows(w, k) && (forall|j: int|
                0 <= j < w.batch.len() ==> pattern_key(#[trigger] w.batch[j]) != k) && (forall|
                j: int,
            |
                0 <= j < i ==> pattern_key(#[trigger] fresh[j]) == k || pattern_hash(
                    pattern_key(fresh[j]),
                ) != pattern_hash(k)) ==> stands_new(
                with_observation(w, e, scontext, scontext_type, answer).batch,
                k,
            )
        }),
        ({
            let k = pattern_key(patterns_of(e, scontext, scontext_type, answer)[i]);
            let next = next_window(with_observation(w, e, scontext, scontext_type, answer));
            take_in_all(next, later).seen.len() < SEEN_MAX ==> is_old(take_in_all(next, later), k)
                && forall|j: int|
                0 <= j < handed_on(next, later).len() ==> none_new(
                    (#[trigger] handed_on(next, later)[j]).events,
                    k,
                )
        }),
{
    let fresh = patterns_of(e, scontext, scontext_type, answer);
    let k = pattern_key(fresh[i]);
    let last = Some(e.timestamp_ns);
    let after = with_observation(w, e, scontext, scontext_type, answer);
    let next = next_window(after);
    law_meetings_keep_order(w, fresh, last);
    if take_in_all(next, later).seen.len() < SEEN_MAX {
        law_intakes_keep_order(next, later);
        law_meetings_are_remembered(w, fresh, last);
        assert(knows(meet_all(w, fresh, last), pattern_key(fresh[i])));
        assert(is_old(next, k));
        law_old_is_never_new_again(next, later, k);
    }
    if !knows(w, k) && (forall|j: int|
        0 <= j < w.batch.len() ==> pattern_key(#[trigger] w.batch[j]) != k) && (forall|j: int|
        0 <= j < i ==> pattern_key(#[trigger] fresh[j]) == k || pattern_hash(
            pattern_key(fresh[j]),
        ) != pattern_hash(k)) {
        law_unknown_is_new(w, fresh, last, i);
    }
}

/// The same of a denial: its patterns are new once.
pub proof fn law_denied_pattern_is_new_once(w: Window, d: DenialView, i: int, later: Seq<Intake>)
    requires
        window_wf(w),
        0 <= i < denied_all(d).len(),
    ensures
        ({
            let fresh = denied_all(d);
            let k = pattern_key(fresh[i]);
            !knows(w, k) && (forall|j: int|
                0 <= j < w.batch.len() ==> pattern_key(#[trigger] w.batch[j]) != k) && (forall|
                j: int,
            |
                0 <= j < i ==> pattern_key(#[trigger] fresh[j]) == k || pattern_hash(
                    pattern_key(fresh[j]),
                ) != pattern_hash(k)) ==> stands_new(with_denial(w, d).batch, k)
        }),
        ({
            let k = pattern_key(denied_all(d)[i]);
            let next = next_window(with_denial(w, d));
            take_in_all(next, later).seen.len() < SEEN_MAX ==> is_old(take_in_all(next, later), k)
                && forall|j: int|
                0 <= j < handed_on(next, later).len() ==> none_new(
                    (#[trigger] handed_on(next, later)[j]).events,
                    k,
                )
        }),
{
    let fresh = denied_all(d);
    let k = pattern_key(fresh[i]);
    let next = next_window(with_denial(w, d));
    law_meetings_keep_order(w, fresh, None);
    if take_in_all(next, later).seen.len() < SEEN_MAX {
        law_intakes_keep_order(next, later);
        law_meetings_are_remembered(w, fresh, None);
        assert(knows(meet_all(w, fresh, None), pattern_key(fresh[i])));
        assert(is_old(next, k));
        law_old_is_never_new_again(next, later, k);
    }
    if !knows(w, k) && (forall|j: int|
        0 <= j < w.batch.len() ==> pattern_key(#[trigger] w.batch[j]) != k) && (forall|j: int|
        0 <= j < i ==> pattern_key(#[trigger] fresh[j]) == k || pattern_hash(
            pattern_key(fresh[j]),
        ) != pattern_hash(k)) {
        law_unknown_is_new(w, fresh, None, i);
    }
}

/// A window is marked as soon as a denial comes in it, whatever else is observed; the mark and
/// the denials go with the patterns when they are handed on.
pub proof fn law_drift_mark(
    w: Window,
    d: DenialView,
    e: ObservationEvent,
    scontext: Seq<char>,
    scontext_type: Seq<char>,
    answer: Option<Seq<char>>,
)
    requires
        window_wf(w),
    ensures
        with_denial(w, d).denials == w.denials.push(d),
        with_observation(w, e, scontext, scontext_type, answer).denials == w.denials,
        batch_of(w).has_denials <==> w.denials.len() > 0,
        batch_of(w).denials == w.denials,
        next_window(w).denials.len() == 0,
{
    law_meetings_keep_order(
        w,
        patterns_of(e, scontext, scontext_type, answer),
        Some(e.timestamp_ns),
    );
}

/// What an optional batch says.
pub open spec fn opt_batch(b: Option<NormalizedBatch>) -> Option<BatchView> {
    match b {
        Some(x) => Some(x@),
        None => None,
    }
}

/// What counts access patterns, once per window, and hands them on.
pub struct Normalizer {
    batch: Vec<NormalizedAccess>,
    seen: LruCache<u64, u8>,
    denials: Vec<AvcDenial>,
}

impl View for Normalizer {
    type V = Window;

    closed spec fn view(&self) -> Window {
        Window {
            batch: access_views(self.batch@),
            seen: seen_entries(self.seen),
            denials: denial_views(self.denials@),
        }
    }
}

impl Normalizer {
    /// No pattern is counted in two places, and no more patterns are remembered than there is
    /// room for.
    pub closed spec fn wf(&self) -> bool {
        window_wf(self@) && seen_cap(self.seen) == SEEN_MAX
    }

    /// What the validity of a normalizer says of its window.
    pub proof fn lemma_wf(&self)
        requires
            self.wf(),
        ensures
            window_wf(self@),
    {
    }

    /// A normalizer that has met nothing.
    pub fn new() -> (r: Self)
        ensures
            r.wf(),
            r@ == empty_window(),
    {
        let r = Normalizer { batch: Vec::new(), seen: seen_new(SEEN_MAX), denials: Vec::new() };
        assert(access_views(r.batch@) =~= Seq::<AccessView>::empty());
        assert(denial_views(r.denials@) =~= Seq::<DenialView>::empty());
        r
    }

    /// Where a pattern stands in the batch; its length where there is none.
    fn find_slot(&self, source: &str, target: &str, class: &str, perm: &str) -> (r: usize)
        ensures
            r == slot(self@.batch, (source@, target@, class@, perm@)),
            r <= self.batch@.len(),
    {
        let ghost batch = access_views(self.batch@);
        let ghost k = (source@, target@, class@, perm@);
        let mut i: usize = 0;
        while i < self.batch.len()
            invariant
                i <= self.batch@.len(),
                batch == access_views(self.batch@),
                k == (source@, target@, class@, perm@),
                forall|j: int| 0 <= j < i ==> pattern_key(#[trigger] batch[j]) != k,
            decreases self.batch@.len() - i,
        {
            let a = &self.batch[i];
            assert(batch[i as int] == a@);
            if same(a.scontext_type.as_str(), source) && same(a.tcontext_type.as_str(), target)
                && same(a.tclass.as_str(), class) && same(a.perm.as_str(), perm) {
                proof {
                    lemma_slot_is(batch, k, i as int);
                }
                return i;
            }
            i = i + 1;
        }
        proof {
            lemma_slot_is(batch, k, i as int);
        }
        i
    }

    /// Counts a pattern that was met at the time `last`, where that is known.
    fn enter_pattern(&mut self, fresh: NormalizedAccess, last: Option<u64>)
        ensures
            final(self)@.batch == enter(old(self)@.batch, fresh@, last),
            final(self).seen == old(self).seen,
            final(self).denials == old(self).denials,
    {
        let i: usize = self.find_slot(
            fresh.scontext_type.as_str(),
            fresh.tcontext_type.as_str(),
            fresh.tclass.as_str(),
            fresh.perm.as_str(),
        );
        let present = i < self.batch.len();
        let mut a = if present {
            self.batch[i].clone()
        } else {
            fresh
        };
        if a.count < u64::MAX {
            a.count = a.count + 1;
        }
        match last {
            Some(t) => {
                a.last_seen_ns = t;
            },
            None => {},
        }
        let ghost before = self.batch@;
        if present {
            self.batch.set(i, a);
            assert(access_views(self.batch@) =~= access_views(before).update(i as int, a@));
        } else {
            self.batch.push(a);
            assert(access_views(self.batch@) =~= access_views(before).push(a@));
        }
    }

    /// Takes in a pattern that was met at the time `last`, where that is known, and has the hash
    /// `hash`.
    fn meet_pattern(&mut self, fresh: NormalizedAccess, last: Option<u64>, hash: u64)
        requires
            old(self).wf(),
        ensures
            final(self).wf(),
            final(self)@ == meet(old(self)@, fresh@, last, hash),
    {
        let is_new = !seen_contains(&self.seen, hash);
        proof {
            law_meeting_keeps_order(self@, fresh@, last, hash);
        }
        if is_new {
            seen_put(&mut self.seen, hash, 1);
        }
        let mut fresh = fresh;
        fresh.is_new = is_new;
        self.enter_pattern(fresh, last);
    }

    /// Takes in a sighting with one permission, whose pattern has the hash `hash`.
    pub fn note_with_hash(&mut self, o: &Observed, perm: &str, hash: u64)
        requires
            old(self).wf(),
        ensures
            final(self).wf(),
            final(self)@ == meet(old(self)@, sighted(o@, perm@), Some(o.at), hash),
    {
        let fresh = NormalizedAccess {
            scontext: o.scontext.clone(),
            scontext_type: o.scontext_type.clone(),
            tcontext: o.tcontext.clone(),
            tcontext_type: o.tcontext_type.clone(),
            tclass: o.tclass.clone(),
            perm: perm.to_owned(),
            hook_id: o.hook_id,
            count: 0,
            first_seen_ns: o.at,
            last_seen_ns: o.at,
            is_new: false,
        };
        assert(fresh@ == sighted(o@, perm@));
        self.meet_pattern(fresh, Some(o.at), hash);
    }

    /// Takes in one permission of a denial, whose pattern has the hash `hash`.
    pub fn deny_with_hash(&mut self, denial: &AvcDenial, perm: &str, hash: u64)
        requires
            old(self).wf(),
        ensures
            final(self).wf(),
            final(self)@ == meet(old(self)@, denied(denial@, perm@), None, hash),
    {
        let fresh = NormalizedAccess {
            scontext: denial.scontext.clone(),
            scontext_type: denial.scontext_type.clone(),
            tcontext: denial.tcontext.clone(),
            tcontext_type: denial.tcontext_type.clone(),
            tclass: denial.tclass.clone(),
            perm: perm.to_owned(),
            hook_id: 0,
            count: 0,
            first_seen_ns: 0,
            last_seen_ns: 0,
            is_new: false,
        };
        assert(fresh@ == denied(denial@, perm@));
        self.meet_pattern(fresh, None, hash);
    }

    /// Takes in a sighting with all its permissions.
    pub fn note_sighting(&mut self, o: &Observed, perms: &Vec<String>)
        requires
            old(self).wf(),
        ensures
            final(self).wf(),
            final(self)@ == note_all(old(self)@, o@, views(perms@)),
    {
        let ghost all = sighted_all(o@, views(perms@));
        let ghost start = self@;
        let mut i: usize = 0;
        while i < perms.len()
            invariant
                i <= perms@.len(),
                all == sighted_all(o@, views(perms@)),
                self.wf(),
                self@ == meet_all(start, all.take(i as int), Some(o.at)),
            decreases perms@.len() - i,
        {
            proof {
                assert(all.take(i + 1).drop_last() =~= all.take(i as int));
                assert(all.take(i + 1).last() == sighted(o@, perms@[i as int]@));
            }
            let perm = perms[i].as_str();
            let hash: u64 = hash_key(
                o.scontext_type.as_str(),
                o.tcontext_type.as_str(),
                o.tclass.as_str(),
                perm,
            );
            self.note_with_hash(o, perm, hash);
            i = i + 1;
        }
        assert(all.take(i as int) =~= all);
    }

    /// Takes in an event, given the context and type of its subject and what was answered to
    /// the question for the label of its object.
    pub fn process_observation(
        &mut self,
        event: &ObservationEvent,
        scontext: &str,
        scontext_type: &str,
        answer: Option<&[u8]>,
    )
        requires
            old(self).wf(),
        ensures
            final(self).wf(),
            final(self)@ == with_observation(
                old(self)@,
                *event,
                scontext@,
                scontext_type@,
                answer_text(answer),
            ),
    {
        let hook = hook_of_event(event);
        let tclass = hook_to_class(hook, event);
        let perms = perms_at_hook(hook, event);
        let (tcontext, tcontext_type) = resolve_tcontext(event, hook, tclass, answer);
        if is_sentinel_type(tcontext_type.as_str()) {
            return;
        }
        let o = Observed {
            scontext: scontext.to_owned(),
            scontext_type: scontext_type.to_owned(),
            tcontext,
            tcontext_type,
            tclass: tclass.to_owned(),
            hook_id: event.hook_id,
            at: event.timestamp_ns,
        };
        self.note_sighting(&o, &perms);
    }

    /// Takes in a denial.
    pub fn process_denial(&mut self, denial: &AvcDenial)
        requires
            old(self).wf(),
        ensures
            final(self).wf(),
            final(self)@ == with_denial(old(self)@, denial@),
    {
        let ghost all = denied_all(denial@);
        let ghost start = self@;
        let mut i: usize = 0;
        while i < denial.perms.len()
            invariant
                i <= denial.perms@.len(),
                all == denied_all(denial@),
                self.wf(),
                self@ == meet_all(start, all.take(i as int), None),
            decreases denial.perms@.len() - i,
        {
            proof {
                assert(all.take(i + 1).drop_last() =~= all.take(i as int));
                assert(all.take(i + 1).last() == denied(denial@, denial.perms@[i as int]@));
            }
            let perm = denial.perms[i].as_str();
            let hash: u64 = hash_key(
                denial.scontext_type.as_str(),
                denial.tcontext_type.as_str(),
                denial.tclass.as_str(),
                perm,
            );
            self.deny_with_hash(denial, perm, hash);
            i = i + 1;
        }
        assert(all.take(i as int) =~= all);
        let ghost before = self.denials@;
        proof {
            law_meetings_keep_order(start, all, None);
        }
        self.denials.push(denial.clone());
        assert(denial_views(self.denials@) =~= denial_views(before).push(denial@));
    }

    /// Hands the patterns of this window on and begins the next one.
    pub fn emit_batch(&mut self) -> (r: NormalizedBatch)
        requires
            old(self).wf(),
        ensures
            final(self).wf(),
            r@ == batch_of(old(self)@),
            distinct(r@.events),
            final(self)@ == next_window(old(self)@),
    {
        let mut events: Vec<NormalizedAccess> = Vec::new();
        std::mem::swap(&mut events, &mut self.batch);
        let mut denials: Vec<AvcDenial> = Vec::new();
        std::mem::swap(&mut denials, &mut self.denials);
        assert(access_views(self.batch@) =~= Seq::<AccessView>::empty());
        assert(denial_views(self.denials@) =~= Seq::<DenialView>::empty());
        let has_denials = denials.len() > 0;
        NormalizedBatch { events, has_denials, denials }
    }

    /// Hands the patterns on where the batch is full.
    fn emit_if_full(&mut self) -> (r: Option<NormalizedBatch>)
        requires
            old(self).wf(),
        ensures
            final(self).wf(),
            (opt_batch(r), final(self)@) == after_input(old(self)@),
            r matches Some(b) ==> distinct(b@.events),
    {
        if self.batch.len() >= BATCH_MAX {
            Some(self.emit_batch())
        } else {
            None
        }
    }

    /// Takes in an event and returns the batch that it fills, if it does.
    pub fn on_observation(
        &mut self,
        event: &ObservationEvent,
        scontext: &str,
        scontext_type: &str,
        answer: Option<&[u8]>,
    ) -> (r: Option<NormalizedBatch>)
        requires
            old(self).wf(),
        ensures
            final(self).wf(),
            (opt_batch(r), final(self)@) == after_input(
                with_observation(
                    old(self)@,
                    *event,
                    scontext@,
                    scontext_type@,
                    answer_text(answer),
                ),
            ),
            r matches Some(b) ==> distinct(b@.events),
    {
        self.process_observation(event, scontext, scontext_type, answer);
        self.emit_if_full()
    }

    /// Takes in a denial and returns the batch that it fills, if it does.
    pub fn on_denial(&mut self, denial: &AvcDenial) -> (r: Option<NormalizedBatch>)
        requires
            old(self).wf(),
        ensures
            final(self).wf(),
            (opt_batch(r), final(self)@) == after_input(with_denial(old(self)@, denial@)),
            r matches Some(b) ==> distinct(b@.events),
    {
        self.process_denial(denial);
        self.emit_if_full()
    }

    /// Returns the batch of a window whose time is over; `None` where nothing was met.
    pub fn on_tick(&mut self) -> (r: Option<NormalizedBatch>)
        requires
            old(self).wf(),
        ensures
            final(self).wf(),
            (opt_batch(r), final(self)@) == after_time(old(self)@),
            r matches Some(b) ==> distinct(b@.events),
    {
        if self.batch.len() > 0 {
            Some(self.emit_batch())
        } else {
            None
        }
    }
}

} // verus!
