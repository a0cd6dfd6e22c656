//! What decides whether proposed rules may be installed.

use crate::common::userspace::{rule_views, AllowRule, RuleView};
use crate::text::{contains_char, join, same, views};
use crate::type_set::TypeSet;
use vstd::prelude::*;

verus! {

/// The object classes that a rule may name.
pub const VALID_CLASSES: [&'static str; 24] = [
    "file", "dir", "lnk_file", "chr_file", "blk_file", "fifo_file", "sock_file", "tcp_socket",
    "udp_socket", "rawip_socket", "netlink_socket", "packet_socket", "unix_stream_socket",
    "unix_dgram_socket", "process", "capability", "capability2", "filesystem", "fd", "key", "sem",
    "msgq", "shm", "anon_inode",
];

/// The characters of each string of a list.
pub open spec fn strs(v: Seq<&str>) -> Seq<Seq<char>> {
    Seq::new(v.len(), |i: int| v[i]@)
}

/// The names of the object classes that a rule may name.
pub open spec fn class_names() -> Seq<Seq<char>> {
    seq![
        "file"@, "dir"@, "lnk_file"@, "chr_file"@, "blk_file"@, "fifo_file"@, "sock_file"@,
        "tcp_socket"@, "udp_socket"@, "rawip_socket"@, "netlink_socket"@, "packet_socket"@,
        "unix_stream_socket"@, "unix_dgram_socket"@, "process"@, "capability"@, "capability2"@,
        "filesystem"@, "fd"@, "key"@, "sem"@, "msgq"@, "shm"@, "anon_inode"@,
    ]
}

/// The permissions of an object class.
pub open spec fn class_perms(class: Seq<char>) -> Seq<Seq<char>> {
    if class == "file"@ {
        seq![
            "read"@, "write"@, "open"@, "create"@, "getattr"@, "setattr"@, "lock"@, "relabelfrom"@,
            "relabelto"@, "append"@, "link"@, "unlink"@, "rename"@, "execute"@,
            "execute_no_trans"@, "entrypoint"@, "ioctl"@, "map"@, "quotaon"@, "mounton"@,
            "audit_access"@,
        ]
    } else if class == "dir"@ {
        seq![
            "read"@, "write"@, "open"@, "create"@, "getattr"@, "setattr"@, "lock"@, "relabelfrom"@,
            "relabelto"@, "append"@, "link"@, "unlink"@, "rename"@, "search"@, "rmdir"@,
            "add_name"@, "remove_name"@, "reparent"@, "audit_access"@,
        ]
    } else if class == "tcp_socket"@ {
        seq![
            "create"@, "connect"@, "listen"@, "accept"@, "read"@, "write"@, "send_msg"@,
            "recv_msg"@, "name_bind"@, "name_connect"@, "getattr"@, "setattr"@, "node_bind"@,
            "relabelto"@, "relabelfrom"@,
        ]
    } else if class == "udp_socket"@ {
        seq![
            "create"@, "connect"@, "read"@, "write"@, "send_msg"@, "recv_msg"@, "name_bind"@,
            "name_connect"@, "getattr"@, "setattr"@, "node_bind"@, "relabelto"@, "relabelfrom"@,
        ]
    } else if class == "unix_stream_socket"@ {
        seq![
            "create"@, "connectto"@, "listen"@, "accept"@, "read"@, "write"@, "sendto"@,
            "getattr"@, "setattr"@, "relabelto"@,
        ]
    } else if class == "unix_dgram_socket"@ {
        seq![
            "create"@, "sendto"@, "read"@, "write"@, "getattr"@, "setattr"@, "relabelto"@,
        ]
    } else if class == "netlink_socket"@ {
        seq![
            "create"@, "read"@, "write"@, "getattr"@, "setattr"@, "relabelto"@,
        ]
    } else if class == "process"@ {
        seq![
            "fork"@, "transition"@, "sigkill"@, "sigstop"@, "signull"@, "signal"@, "ptrace"@,
            "getsched"@, "setsched"@, "getsession"@, "getpgid"@, "setpgid"@, "getcap"@, "setcap"@,
            "share"@, "getattr"@, "setexec"@, "setfscreate"@, "noatsecure"@, "siginh"@,
            "setrlimit"@, "rlimitinh"@, "dyntransition"@, "setcurrent"@, "execmem"@, "execstack"@,
            "execheap"@, "setkeycreate"@, "setsockcreate"@,
        ]
    } else if class == "capability"@ {
        seq![
            "chown"@, "dac_override"@, "dac_read_search"@, "fowner"@, "fsetid"@, "kill"@,
            "setgid"@, "setuid"@, "setpcap"@, "linux_immutable"@, "net_bind_service"@,
            "net_broadcast"@, "net_admin"@, "net_raw"@, "ipc_lock"@, "ipc_owner"@, "sys_module"@,
            "sys_rawio"@, "sys_chroot"@, "sys_ptrace"@, "sys_pacct"@, "sys_admin"@, "sys_boot"@,
            "sys_nice"@, "sys_resource"@, "sys_time"@, "sys_tty_config"@, "mknod"@, "lease"@,
            "audit_write"@, "audit_control"@, "setfcap"@, "mac_override"@, "mac_admin"@, "syslog"@,
            "wake_alarm"@, "block_suspend"@, "audit_read"@, "perfmon"@, "bpf"@,
            "checkpoint_restore"@,
        ]
    } else if class == "filesystem"@ {
        seq![
            "mount"@, "remount"@, "unmount"@, "getattr"@, "relabelfrom"@, "relabelto"@,
            "associate"@, "quotamod"@, "quotaget"@,
        ]
    } else {
        seq!["read"@, "write"@, "create"@, "getattr"@, "setattr"@]
    }
}

/// The permissions of an object class; a class without a list of its own has the common ones.
pub fn valid_perms_for_class(class: &str) -> (r: &'static [&'static str])
    ensures
        strs(r@) == class_perms(class@),
{
    if same(class, "file") {
        &[
            "read", "write", "open", "create", "getattr", "setattr", "lock", "relabelfrom",
            "relabelto", "append", "link", "unlink", "rename", "execute", "execute_no_trans",
            "entrypoint", "ioctl", "map", "quotaon", "mounton", "audit_access",
        ]
    } else if same(class, "dir") {
        &[
            "read", "write", "open", "create", "getattr", "setattr", "lock", "relabelfrom",
            "relabelto", "append", "link", "unlink", "rename", "search", "rmdir", "add_name",
            "remove_name", "reparent", "audit_access",
        ]
    } else if same(class, "tcp_socket") {
        &[
            "create", "connect", "listen", "accept", "read", "write", "send_msg", "recv_msg",
            "name_bind", "name_connect", "getattr", "setattr", "node_bind", "relabelto",
            "relabelfrom",
        ]
    } else if same(class, "udp_socket") {
        &[
            "create", "connect", "read", "write", "send_msg", "recv_msg", "name_bind",
            "name_connect", "getattr", "setattr", "node_bind", "relabelto", "relabelfrom",
        ]
    } else if same(class, "unix_stream_socket") {
        &[
            "create", "connectto", "listen", "accept", "read", "write", "sendto", "getattr",
            "setattr", "relabelto",
        ]
    } else if same(class, "unix_dgram_socket") {
        &[
            "create", "sendto", "read", "write", "getattr", "setattr", "relabelto",
        ]
    } else if same(class, "netlink_socket") {
        &[
            "create", "read", "write", "getattr", "setattr", "relabelto",
        ]
    } else if same(class, "process") {
        &[
            "fork", "transition", "sigkill", "sigstop", "signull", "signal", "ptrace", "getsched",
            "setsched", "getsession", "getpgid", "setpgid", "getcap", "setcap", "share", "getattr",
            "setexec", "setfscreate", "noatsecure", "siginh", "setrlimit", "rlimitinh",
            "dyntransition", "setcurrent", "execmem", "execstack", "execheap", "setkeycreate",
            "setsockcreate",
        ]
    } else if same(class, "capability") {
        &[
            "chown", "dac_override", "dac_read_search", "fowner", "fsetid", "kill", "setgid",
            "setuid", "setpcap", "linux_immutable", "net_bind_service", "net_broadcast",
            "net_admin", "net_raw", "ipc_lock", "ipc_owner", "sys_module", "sys_rawio",
            "sys_chroot", "sys_ptrace", "sys_pacct", "sys_admin", "sys_boot", "sys_nice",
            "sys_resource", "sys_time", "sys_tty_config", "mknod", "lease", "audit_write",
            "audit_control", "setfcap", "mac_override", "mac_admin", "syslog", "wake_alarm",
            "block_suspend", "audit_read", "perfmon", "bpf", "checkpoint_restore",
        ]
    } else if same(class, "filesystem") {
        &[
            "mount", "remount", "unmount", "getattr", "relabelfrom", "relabelto", "associate",
            "quotamod", "quotaget",
        ]
    } else {
        &["read", "write", "create", "getattr", "setattr"]
    }
}

/// Why a rule is refused.
#[derive(Debug)]
pub enum ValidationError {
    WildcardSource(String),
    WildcardTarget(String),
    WildcardClass,
    WildcardPerm(String),
    UnconfinedTarget,
    UnknownType(String),
    DeniedSource(String),
    DeniedTarget(String),
    EmptyPerms,
    UnknownClass(String),
    UnknownPerm { class: String, perm: String },
}

/// What a `ValidationError` says.
pub enum Refusal {
    WildcardSource(Seq<char>),
    WildcardTarget(Seq<char>),
    WildcardClass,
    WildcardPerm(Seq<char>),
    UnconfinedTarget,
    UnknownType(Seq<char>),
    DeniedSource(Seq<char>),
    DeniedTarget(Seq<char>),
    EmptyPerms,
    UnknownClass(Seq<char>),
    UnknownPerm { class: Seq<char>, perm: Seq<char> },
}

impl View for ValidationError {
    type V = Refusal;

    open spec fn view(&self) -> Refusal {
        match self {
            ValidationError::WildcardSource(s) => Refusal::WildcardSource(s@),
            ValidationError::WildcardTarget(s) => Refusal::WildcardTarget(s@),
            ValidationError::WildcardClass => Refusal::WildcardClass,
            ValidationError::WildcardPerm(s) => Refusal::WildcardPerm(s@),
            ValidationError::UnconfinedTarget => Refusal::UnconfinedTarget,
            ValidationError::UnknownType(s) => Refusal::UnknownType(s@),
            ValidationError::DeniedSource(s) => Refusal::DeniedSource(s@),
            ValidationError::DeniedTarget(s) => Refusal::DeniedTarget(s@),
            ValidationError::EmptyPerms => Refusal::EmptyPerms,
            ValidationError::UnknownClass(s) => Refusal::UnknownClass(s@),
            ValidationError::UnknownPerm { class, perm } => Refusal::UnknownPerm {
                class: class@,
                perm: perm@,
            },
        }
    }
}

/// The text of a refusal.
pub open spec fn refusal_text(e: Refusal) -> Seq<char> {
    match e {
        Refusal::WildcardSource(s) => "wildcard in source_type: "@ + s,
        Refusal::WildcardTarget(s) => "wildcard in target_type: "@ + s,
        Refusal::WildcardClass => "wildcard in tclass"@,
        Refusal::WildcardPerm(s) => "wildcard in perm: "@ + s,
        Refusal::UnconfinedTarget => "target_type must not be unconfined_t"@,
        Refusal::UnknownType(s) => "unknown SELinux type: "@ + s,
        Refusal::DeniedSource(s) => "source_type "@ + s + " is in deny list"@,
        Refusal::DeniedTarget(s) => "target_type "@ + s + " is in deny list"@,
        Refusal::EmptyPerms => "perms list is empty"@,
        Refusal::UnknownClass(s) => "unknown SELinux class: "@ + s,
        Refusal::UnknownPerm { class, perm } => "unknown perm '"@ + perm + "' for class '"@ + class
            + "'"@,
    }
}

impl ValidationError {
    /// The error in words.
    pub fn message(&self) -> (r: String)
        ensures
            r@ == refusal_text(self@),
    {
        match self {
            ValidationError::WildcardSource(s) => join("wildcard in source_type: ", s.as_str()),
            ValidationError::WildcardTarget(s) => join("wildcard in target_type: ", s.as_str()),
            ValidationError::WildcardClass => "wildcard in tclass".to_owned(),
            ValidationError::WildcardPerm(s) => join("wildcard in perm: ", s.as_str()),
            ValidationError::UnconfinedTarget => "target_type must not be unconfined_t".to_owned(),
            ValidationError::UnknownType(s) => join("unknown SELinux type: ", s.as_str()),
            ValidationError::DeniedSource(s) => {
                let mut r = join("source_type ", s.as_str());
                r.append(" is in deny list");
                r
            },
            ValidationError::DeniedTarget(s) => {
                let mut r = join("target_type ", s.as_str());
                r.append(" is in deny list");
                r
            },
            ValidationError::EmptyPerms => "perms list is empty".to_owned(),
            ValidationError::UnknownClass(s) => join("unknown SELinux class: ", s.as_str()),
            ValidationError::UnknownPerm { class, perm } => {
                let mut r = join("unknown perm '", perm.as_str());
                r.append("' for class '");
                r.append(class.as_str());
                r.append("'");
                r
            },
        }
    }
}

/// Whether a text holds a wildcard.
pub open spec fn is_wild(s: Seq<char>) -> bool {
    s.contains('*')
}

/// Whether a rule may be installed: it names observed types that are not denied, a class of
/// the list, and at least one permission, all of them of that class; nothing is a wildcard.
pub open spec fn acceptable(r: RuleView, known: Set<Seq<char>>, deny: Set<Seq<char>>) -> bool {
    &&& !is_wild(r.source_type)
    &&& !is_wild(r.target_type)
    &&& !is_wild(r.tclass)
    &&& known.contains(r.source_type)
    &&& known.contains(r.target_type)
    &&& !deny.contains(r.source_type)
    &&& !deny.contains(r.target_type)
    &&& r.perms.len() > 0
    &&& class_names().contains(r.tclass)
    &&& forall|i: int| 0 <= i < r.perms.len() ==> !is_wild(#[trigger] r.perms[i])
    &&& forall|i: int|
        0 <= i < r.perms.len() ==> class_perms(r.tclass).contains(#[trigger] r.perms[i])
}

/// The first permission of the list that is a wildcard.
pub open spec fn first_wild(perms: Seq<Seq<char>>) -> Option<Seq<char>>
    decreases perms.len(),
{
    if perms.len() == 0 {
        None
    } else if is_wild(perms[0]) {
        Some(perms[0])
    } else {
        first_wild(perms.skip(1))
    }
}

/// The first permission of the list that is not one of `allowed`.
pub open spec fn first_foreign(perms: Seq<Seq<char>>, allowed: Seq<Seq<char>>) -> Option<Seq<char>>
    decreases perms.len(),
{
    if perms.len() == 0 {
        None
    } else if !allowed.contains(perms[0]) {
        Some(perms[0])
    } else {
        first_foreign(perms.skip(1), allowed)
    }
}

/// The first of the checks that a rule fails, in the order in which they are made.
pub open spec fn refusal(r: RuleView, known: Set<Seq<char>>, deny: Set<Seq<char>>) -> Option<
    Refusal,
> {
    if is_wild(r.source_type) {
        Some(Refusal::WildcardSource(r.source_type))
    } else if is_wild(r.target_type) {
        Some(Refusal::WildcardTarget(r.target_type))
    } else if is_wild(r.tclass) {
        Some(Refusal::WildcardClass)
    } else if first_wild(r.perms) is Some {
        Some(Refusal::WildcardPerm(first_wild(r.perms)->0))
    } else if r.target_type == "unconfined_t"@ && deny.contains(r.target_type) {
        Some(Refusal::UnconfinedTarget)
    } else if !known.contains(r.source_type) {
        Some(Refusal::UnknownType(r.source_type))
    } else if !known.contains(r.target_type) {
        Some(Refusal::UnknownType(r.target_type))
    } else if deny.contains(r.source_type) {
        Some(Refusal::DeniedSource(r.source_type))
    } else if deny.contains(r.target_type) {
        Some(Refusal::DeniedTarget(r.target_type))
    } else if r.perms.len() == 0 {
        Some(Refusal::EmptyPerms)
    } else if !class_names().contains(r.tclass) {
        Some(Refusal::UnknownClass(r.tclass))
    } else if first_foreign(r.perms, class_perms(r.tclass)) is Some {
        Some(
            Refusal::UnknownPerm {
                class: r.tclass,
                perm: first_foreign(r.perms, class_perms(r.tclass))->0,
            },
        )
    } else {
        None
    }
}

/// The refusal of the first rule that has one.
pub open spec fn first_refusal(
    rules: Seq<RuleView>,
    known: Set<Seq<char>>,
    deny: Set<Seq<char>>,
) -> Option<Refusal>
    decreases rules.len(),
{
    if rules.len() == 0 {
        None
    } else if refusal(rules[0], known, deny) is Some {
        refusal(rules[0], known, deny)
    } else {
        first_refusal(rules.skip(1), known, deny)
    }
}

/// No permission is a wildcard just when there is no first one.
proof fn lemma_first_wild(perms: Seq<Seq<char>>)
    ensures
        first_wild(perms) is None <==> forall|i: int|
            0 <= i < perms.len() ==> !is_wild(#[trigger] perms[i]),
    decreases perms.len(),
{
    if perms.len() > 0 {
        let t = perms.skip(1);
        lemma_first_wild(t);
        if first_wild(t) is None {
            assert forall|i: int| 1 <= i < perms.len() implies !is_wild(#[trigger] perms[i]) by {
                assert(t[i - 1] == perms[i]);
            }
        } else {
            let i = choose|i: int| 0 <= i < t.len() && is_wild(#[trigger] t[i]);
            assert(perms[i + 1] == t[i]);
        }
    }
}

/// Every permission is allowed just when there is no first one that is not.
proof fn lemma_first_foreign(perms: Seq<Seq<char>>, allowed: Seq<Seq<char>>)
    ensures
        first_foreign(perms, allowed) is None <==> forall|i: int|
            0 <= i < perms.len() ==> allowed.contains(#[trigger] perms[i]),
    decreases perms.len(),
{
    if perms.len() > 0 {
        let t = perms.skip(1);
        lemma_first_foreign(t, allowed);
        if first_foreign(t, allowed) is None {
            assert forall|i: int| 1 <= i < perms.len() implies allowed.contains(
                #[trigger] perms[i],
            ) by {
                assert(t[i - 1] == perms[i]);
            }
        } else {
            let i = choose|i: int| 0 <= i < t.len() && !allowed.contains(#[trigger] t[i]);
            assert(perms[i + 1] == t[i]);
        }
    }
}

/// A rule is refused just when it is not acceptable.
pub proof fn law_refused_unless_acceptable(
    r: RuleView,
    known: Set<Seq<char>>,
    deny: Set<Seq<char>>,
)
    ensures
        refusal(r, known, deny) is None <==> acceptable(r, known, deny),
{
    lemma_first_wild(r.perms);
    lemma_first_foreign(r.perms, class_perms(r.tclass));
}

/// A list of rules is approved just when every rule of it is acceptable.
pub proof fn law_approved_means_all_acceptable(
    rules: Seq<RuleView>,
    known: Set<Seq<char>>,
    deny: Set<Seq<char>>,
)
    ensures
        first_refusal(rules, known, deny) is None <==> forall|i: int|
            0 <= i < rules.len() ==> acceptable(#[trigger] rules[i], known, deny),
    decreases rules.len(),
{
    if rules.len() > 0 {
        let t = rules.skip(1);
        law_refused_unless_acceptable(rules[0], known, deny);
        law_approved_means_all_acceptable(t, known, deny);
        if first_refusal(t, known, deny) is None {
            assert forall|i: int| 1 <= i < rules.len() implies acceptable(
                #[trigger] rules[i],
                known,
                deny,
            ) by {
                assert(t[i - 1] == rules[i]);
            }
        } else {
            let i = choose|i: int| 0 <= i < t.len() && !acceptable(#[trigger] t[i], known, deny);
            assert(rules[i + 1] == t[i]);
        }
    }
}

/// Two lists are approved together just when each of them is, and otherwise the refusal is
/// that of the first list, if it has one.
pub proof fn law_approval_is_piecewise(
    a: Seq<RuleView>,
    b: Seq<RuleView>,
    known: Set<Seq<char>>,
    deny: Set<Seq<char>>,
)
    ensures
        first_refusal(a + b, known, deny) == (if first_refusal(a, known, deny) is Some {
            first_refusal(a, known, deny)
        } else {
            first_refusal(b, known, deny)
        }),
    decreases a.len(),
{
    if a.len() == 0 {
        assert(a + b =~= b);
    } else {
        assert((a + b).skip(1) =~= a.skip(1) + b);
        law_approval_is_piecewise(a.skip(1), b, known, deny);
    }
}

/// Denying more types and knowing fewer never approves a rule that was refused.
pub proof fn law_stricter_sets_approve_less(
    r: RuleView,
    known: Set<Seq<char>>,
    deny: Set<Seq<char>>,
    fewer: Set<Seq<char>>,
    more: Set<Seq<char>>,
)
    requires
        fewer.subset_of(known),
        deny.subset_of(more),
        acceptable(r, fewer, more),
    ensures
        acceptable(r, known, deny),
{
}

/// Whether `x` is one of a list of names.
fn listed(list: &[&'static str], x: &str) -> (r: bool)
    ensures
        r == strs(list@).contains(x@),
{
    let mut i: usize = 0;
    while i < list.len()
        invariant
            i <= list@.len(),
            forall|j: int| 0 <= j < i ==> (#[trigger] list@[j])@ != x@,
        decreases list@.len() - i,
    {
        if same(list[i], x) {
            assert(strs(list@)[i as int] == x@);
            return true;
        }
        i = i + 1;
    }
    assert forall|j: int| 0 <= j < strs(list@).len() implies strs(list@)[j] != x@ by {
        assert(list@[j]@ != x@);
    }
    false
}

/// Finds the first permission that is a wildcard.
fn find_wild(perms: &Vec<String>) -> (r: Option<usize>)
    ensures
        match r {
            Some(i) => i < perms@.len() && first_wild(views(perms@)) == Some(perms@[i as int]@),
            None => first_wild(views(perms@)) is None,
        },
{
    let mut i: usize = 0;
    assert(views(perms@).skip(0) =~= views(perms@));
    while i < perms.len()
        invariant
            i <= perms.len(),
            first_wild(views(perms@)) == first_wild(views(perms@).skip(i as int)),
        decreases perms.len() - i,
    {
        assert(views(perms@).skip(i as int)[0] == perms@[i as int]@);
        if contains_char(perms[i].as_str(), '*') {
            return Some(i);
        }
        assert(views(perms@).skip(i as int).skip(1) =~= views(perms@).skip(i + 1));
        i = i + 1;
    }
    None
}

/// Finds the first permission that is not one of `allowed`.
fn find_foreign(perms: &Vec<String>, allowed: &[&'static str]) -> (r: Option<usize>)
    ensures
        match r {
            Some(i) => i < perms@.len() && first_foreign(views(perms@), strs(allowed@)) == Some(
                perms@[i as int]@,
            ),
            None => first_foreign(views(perms@), strs(allowed@)) is None,
        },
{
    let mut i: usize = 0;
    assert(views(perms@).skip(0) =~= views(perms@));
    while i < perms.len()
        invariant
            i <= perms.len(),
            first_foreign(views(perms@), strs(allowed@)) == first_foreign(
                views(perms@).skip(i as int),
                strs(allowed@),
            ),
        decreases perms.len() - i,
    {
        assert(views(perms@).skip(i as int)[0] == perms@[i as int]@);
        if !listed(allowed, perms[i].as_str()) {
            return Some(i);
        }
        assert(views(perms@).skip(i as int).skip(1) =~= views(perms@).skip(i + 1));
        i = i + 1;
    }
    None
}

/// Checks one rule.
fn check_rule(rule: &AllowRule, known: &TypeSet, deny: &TypeSet) -> (r: Result<(), ValidationError>)
    ensures
        match r {
            Ok(_) => refusal(rule@, known@, deny@) is None,
            Err(e) => refusal(rule@, known@, deny@) == Some(e@),
        },
{
    if contains_char(rule.source_type.as_str(), '*') {
        return Err(ValidationError::WildcardSource(rule.source_type.clone()));
    }
    if contains_char(rule.target_type.as_str(), '*') {
        return Err(ValidationError::WildcardTarget(rule.target_type.clone()));
    }
    if contains_char(rule.tclass.as_str(), '*') {
        return Err(ValidationError::WildcardClass);
    }
    if let Some(i) = find_wild(&rule.perms) {
        return Err(ValidationError::WildcardPerm(rule.perms[i].clone()));
    }
    if same(rule.target_type.as_str(), "unconfined_t") && deny.contains("unconfined_t") {
        return Err(ValidationError::UnconfinedTarget);
    }
    if !known.contains(rule.source_type.as_str()) {
        return Err(ValidationError::UnknownType(rule.source_type.clone()));
    }
    if !known.contains(rule.target_type.as_str()) {
        return Err(ValidationError::UnknownType(rule.target_type.clone()));
    }
    if deny.contains(rule.source_type.as_str()) {
        return Err(ValidationError::DeniedSource(rule.source_type.clone()));
    }
    if deny.contains(rule.target_type.as_str()) {
        return Err(ValidationError::DeniedTarget(rule.target_type.clone()));
    }
    if rule.perms.len() == 0 {
        return Err(ValidationError::EmptyPerms);
    }
    assert(strs(VALID_CLASSES@) =~= class_names());
    if !listed(VALID_CLASSES.as_slice(), rule.tclass.as_str()) {
        return Err(ValidationError::UnknownClass(rule.tclass.clone()));
    }
    let allowed = valid_perms_for_class(rule.tclass.as_str());
    if let Some(i) = find_foreign(&rule.perms, allowed) {
        return Err(
            ValidationError::UnknownPerm { class: rule.tclass.clone(), perm: rule.perms[i].clone() },
        );
    }
    Ok(())
}

/// Checks rules against the types that were observed and those that are denied.
///
/// The error is the first one of the first rule that is not acceptable.
pub fn validate(rules: &[AllowRule], known_types: &TypeSet, deny_sources: &TypeSet) -> (r: Result<
    (),
    ValidationError,
>)
    ensures
        match r {
            Ok(_) => first_refusal(rule_views(rules@), known_types@, deny_sources@) is None,
            Err(e) => first_refusal(rule_views(rules@), known_types@, deny_sources@) == Some(e@),
        },
        r is Ok <==> forall|i: int|
            0 <= i < rules@.len() ==> acceptable(
                (#[trigger] rules@[i])@,
                known_types@,
                deny_sources@,
            ),
{
    let ghost all = rule_views(rules@);
    proof {
        law_approved_means_all_acceptable(all, known_types@, deny_sources@);
        assert(all.skip(0) =~= all);
        assert forall|i: int| 0 <= i < rules@.len() implies #[trigger] rules@[i]@ == all[i] by {}
        if exists|i: int|
            0 <= i < all.len() && !acceptable(#[trigger] all[i], known_types@, deny_sources@) {
            let i = choose|i: int|
                0 <= i < all.len() && !acceptable(#[trigger] all[i], known_types@, deny_sources@);
            assert(!acceptable(rules@[i]@, known_types@, deny_sources@));
        }
    }
    let mut i: usize = 0;
    while i < rules.len()
        invariant
            i <= rules@.len(),
            all == rule_views(rules@),
            first_refusal(all, known_types@, deny_sources@) == first_refusal(
                all.skip(i as int),
                known_types@,
                deny_sources@,
            ),
            (first_refusal(all, known_types@, deny_sources@) is None) <==> forall|i: int|
                0 <= i < rules@.len() ==> acceptable(
                    (#[trigger] rules@[i])@,
                    known_types@,
                    deny_sources@,
                ),
        decreases rules@.len() - i,
    {
        assert(all.skip(i as int)[0] == rules@[i as int]@);
        match check_rule(&rules[i], known_types, deny_sources) {
            Err(e) => {
                return Err(e);
            },
            Ok(_) => {},
        }
        assert(all.skip(i as int).skip(1) =~= all.skip(i + 1));
        i = i + 1;
    }
    Ok(())
}

/// The types that rules must not name, as source or as target.
pub open spec fn default_denied() -> Set<Seq<char>> {
    set![
        "kernel_t"@, "init_t"@, "unconfined_t"@, "unlabeled_t"@, "unknown_t"@, "unresolved_t"@,
    ]
}

/// The types that rules must not name unless configured otherwise.
pub fn default_deny_sources() -> (r: TypeSet)
    ensures
        r@ == default_denied(),
{
    let mut r = TypeSet::new();
    r.insert("kernel_t");
    r.insert("init_t");
    r.insert("unconfined_t");
    r.insert("unlabeled_t");
    r.insert("unknown_t");
    r.insert("unresolved_t");
    assert(r@ =~= default_denied());
    r
}

} // verus!
