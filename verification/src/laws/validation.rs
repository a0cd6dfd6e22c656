//! Which rules may be installed.

use crate::common::userspace::RuleView;
use crate::validator::{
    class_names, class_perms, default_denied, first_refusal, first_wild, is_wild,
    law_approved_means_all_acceptable, refusal, Refusal,
};
use vstd::prelude::*;

verus! {

// ---- Classes and permissions ----

/// The classes that a rule may name: these twenty-four.
pub proof fn law_classes(c: Seq<char>)
    ensures
        class_names().len() == 24,
        c == "file"@ || c == "dir"@ || c == "lnk_file"@ || c == "chr_file"@ || c == "blk_file"@ || c == "fifo_file"@ || c == "sock_file"@ ==> class_names().contains(c),
        c == "tcp_socket"@ || c == "udp_socket"@ || c == "rawip_socket"@ || c == "netlink_socket"@ || c == "packet_socket"@ ==> class_names().contains(c),
        c == "unix_stream_socket"@ || c == "unix_dgram_socket"@ ==> class_names().contains(c),
        c == "process"@ || c == "capability"@ || c == "capability2"@ ==> class_names().contains(c),
        c == "filesystem"@ || c == "fd"@ || c == "key"@ || c == "sem"@ || c == "msgq"@ || c == "shm"@ || c == "anon_inode"@ ==> class_names().contains(c),
{
    let all = class_names();
    assert(all[0] == "file"@);
    assert(all[1] == "dir"@);
    assert(all[2] == "lnk_file"@);
    assert(all[3] == "chr_file"@);
    assert(all[4] == "blk_file"@);
    assert(all[5] == "fifo_file"@);
    assert(all[6] == "sock_file"@);
    assert(all[7] == "tcp_socket"@);
    assert(all[8] == "udp_socket"@);
    assert(all[9] == "rawip_socket"@);
    assert(all[10] == "netlink_socket"@);
    assert(all[11] == "packet_socket"@);
    assert(all[12] == "unix_stream_socket"@);
    assert(all[13] == "unix_dgram_socket"@);
    assert(all[14] == "process"@);
    assert(all[15] == "capability"@);
    assert(all[16] == "capability2"@);
    assert(all[17] == "filesystem"@);
    assert(all[18] == "fd"@);
    assert(all[19] == "key"@);
    assert(all[20] == "sem"@);
    assert(all[21] == "msgq"@);
    assert(all[22] == "shm"@);
    assert(all[23] == "anon_inode"@);
}

/// No two of the classes that have a list of their own have the same name.
proof fn lemma_class_names_differ()
    ensures
        "file"@ != "dir"@,
        "file"@ != "tcp_socket"@,
        "file"@ != "udp_socket"@,
        "file"@ != "unix_stream_socket"@,
        "file"@ != "unix_dgram_socket"@,
        "file"@ != "netlink_socket"@,
        "file"@ != "process"@,
        "file"@ != "capability"@,
        "file"@ != "filesystem"@,
        "dir"@ != "tcp_socket"@,
        "dir"@ != "udp_socket"@,
        "dir"@ != "unix_stream_socket"@,
        "dir"@ != "unix_dgram_socket"@,
        "dir"@ != "netlink_socket"@,
        "dir"@ != "process"@,
        "dir"@ != "capability"@,
        "dir"@ != "filesystem"@,
        "tcp_socket"@ != "udp_socket"@,
        "tcp_socket"@ != "unix_stream_socket"@,
        "tcp_socket"@ != "unix_dgram_socket"@,
        "tcp_socket"@ != "netlink_socket"@,
        "tcp_socket"@ != "process"@,
        "tcp_socket"@ != "capability"@,
        "tcp_socket"@ != "filesystem"@,
        "udp_socket"@ != "unix_stream_socket"@,
        "udp_socket"@ != "unix_dgram_socket"@,
        "udp_socket"@ != "netlink_socket"@,
        "udp_socket"@ != "process"@,
        "udp_socket"@ != "capability"@,
        "udp_socket"@ != "filesystem"@,
        "unix_stream_socket"@ != "unix_dgram_socket"@,
        "unix_stream_socket"@ != "netlink_socket"@,
        "unix_stream_socket"@ != "process"@,
        "unix_stream_socket"@ != "capability"@,
        "unix_stream_socket"@ != "filesystem"@,
        "unix_dgram_socket"@ != "netlink_socket"@,
        "unix_dgram_socket"@ != "process"@,
        "unix_dgram_socket"@ != "capability"@,
        "unix_dgram_socket"@ != "filesystem"@,
        "netlink_socket"@ != "process"@,
        "netlink_socket"@ != "capability"@,
        "netlink_socket"@ != "filesystem"@,
        "process"@ != "capability"@,
        "process"@ != "filesystem"@,
        "capability"@ != "filesystem"@,
{
    reveal_strlit("file");
    reveal_strlit("dir");
    reveal_strlit("tcp_socket");
    reveal_strlit("udp_socket");
    reveal_strlit("unix_stream_socket");
    reveal_strlit("unix_dgram_socket");
    reveal_strlit("netlink_socket");
    reveal_strlit("process");
    reveal_strlit("capability");
    reveal_strlit("filesystem");
    assert("file"@.len() == 4);
    assert("dir"@.len() == 3);
    assert("tcp_socket"@.len() == 10);
    assert("udp_socket"@.len() == 10);
    assert("unix_stream_socket"@.len() == 18);
    assert("unix_dgram_socket"@.len() == 17);
    assert("netlink_socket"@.len() == 14);
    assert("process"@.len() == 7);
    assert("capability"@.len() == 10);
    assert("filesystem"@.len() == 10);
    assert("tcp_socket"@[0] == 't');
    assert("udp_socket"@[0] == 'u');
    assert("capability"@[0] == 'c');
    assert("filesystem"@[0] == 'f');
}

/// Which classes have which permission, among the classes with a list of their own; together with
/// the lengths of the lists this leaves room for no other one.
pub proof fn law_permissions_of_classes()
    ensures
        class_perms("file"@).len() == 21,
        class_perms("dir"@).len() == 19,
        class_perms("tcp_socket"@).len() == 15,
        class_perms("udp_socket"@).len() == 13,
        class_perms("unix_stream_socket"@).len() == 10,
        class_perms("unix_dgram_socket"@).len() == 7,
        class_perms("netlink_socket"@).len() == 6,
        class_perms("process"@).len() == 29,
        class_perms("capability"@).len() == 41,
        class_perms("filesystem"@).len() == 9,
        class_perms("file"@).contains("read"@) && class_perms("dir"@).contains("read"@) && class_perms("tcp_socket"@).contains("read"@) && class_perms("udp_socket"@).contains("read"@) && class_perms("unix_stream_socket"@).contains("read"@) && class_perms("unix_dgram_socket"@).contains("read"@) && class_perms("netlink_socket"@).contains("read"@),
        class_perms("file"@).contains("write"@) && class_perms("dir"@).contains("write"@) && class_perms("tcp_socket"@).contains("write"@) && class_perms("udp_socket"@).contains("write"@) && class_perms("unix_stream_socket"@).contains("write"@) && class_perms("unix_dgram_socket"@).contains("write"@) && class_perms("netlink_socket"@).contains("write"@),
        class_perms("file"@).contains("open"@) && class_perms("dir"@).contains("open"@),
        class_perms("file"@).contains("create"@) && class_perms("dir"@).contains("create"@) && class_perms("tcp_socket"@).contains("create"@) && class_perms("udp_socket"@).contains("create"@) && class_perms("unix_stream_socket"@).contains("create"@) && class_perms("unix_dgram_socket"@).contains("create"@) && class_perms("netlink_socket"@).contains("create"@),
        class_perms("file"@).contains("getattr"@) && class_perms("dir"@).contains("getattr"@) && class_perms("tcp_socket"@).contains("getattr"@) && class_perms("udp_socket"@).contains("getattr"@) && class_perms("unix_stream_socket"@).contains("getattr"@) && class_perms("unix_dgram_socket"@).contains("getattr"@) && class_perms("netlink_socket"@).contains("getattr"@) && class_perms("process"@).contains("getattr"@) && class_perms("filesystem"@).contains("getattr"@),
        class_perms("file"@).contains("setattr"@) && class_perms("dir"@).contains("setattr"@) && class_perms("tcp_socket"@).contains("setattr"@) && class_perms("udp_socket"@).contains("setattr"@) && class_perms("unix_stream_socket"@).contains("setattr"@) && class_perms("unix_dgram_socket"@).contains("setattr"@) && class_perms("netlink_socket"@).contains("setattr"@),
        class_perms("file"@).contains("lock"@) && class_perms("dir"@).contains("lock"@),
        class_perms("file"@).contains("relabelfrom"@) && class_perms("dir"@).contains("relabelfrom"@) && class_perms("tcp_socket"@).contains("relabelfrom"@) && class_perms("udp_socket"@).contains("relabelfrom"@) && class_perms("filesystem"@).contains("relabelfrom"@),
        class_perms("file"@).contains("relabelto"@) && class_perms("dir"@).contains("relabelto"@) && class_perms("tcp_socket"@).contains("relabelto"@) && class_perms("udp_socket"@).contains("relabelto"@) && class_perms("unix_stream_socket"@).contains("relabelto"@) && class_perms("unix_dgram_socket"@).contains("relabelto"@) && class_perms("netlink_socket"@).contains("relabelto"@) && class_perms("filesystem"@).contains("relabelto"@),
        class_perms("file"@).contains("append"@) && class_perms("dir"@).contains("append"@),
        class_perms("file"@).contains("link"@) && class_perms("dir"@).contains("link"@),
        class_perms("file"@).contains("unlink"@) && class_perms("dir"@).contains("unlink"@),
        class_perms("file"@).contains("rename"@) && class_perms("dir"@).contains("rename"@),
        class_perms("file"@).contains("execute"@),
        class_perms("file"@).contains("execute_no_trans"@),
        class_perms("file"@).contains("entrypoint"@),
        class_perms("file"@).contains("ioctl"@),
        class_perms("file"@).contains("map"@),
        class_perms("file"@).contains("quotaon"@),
        class_perms("file"@).contains("mounton"@),
        class_perms("file"@).contains("audit_access"@) && class_perms("dir"@).contains("audit_access"@),
        class_perms("dir"@).contains("search"@),
        class_perms("dir"@).contains("rmdir"@),
        class_perms("dir"@).contains("add_name"@),
        class_perms("dir"@).contains("remove_name"@),
        class_perms("dir"@).contains("reparent"@),
        class_perms("tcp_socket"@).contains("connect"@) && class_perms("udp_socket"@).contains("connect"@),
        class_perms("tcp_socket"@).contains("listen"@) && class_perms("unix_stream_socket"@).contains("listen"@),
        class_perms("tcp_socket"@).contains("accept"@) && class_perms("unix_stream_socket"@).contains("accept"@),
        class_perms("tcp_socket"@).contains("send_msg"@) && class_perms("udp_socket"@).contains("send_msg"@),
        class_perms("tcp_socket"@).contains("recv_msg"@) && class_perms("udp_socket"@).contains("recv_msg"@),
        class_perms("tcp_socket"@).contains("name_bind"@) && class_perms("udp_socket"@).contains("name_bind"@),
        class_perms("tcp_socket"@).contains("name_connect"@) && class_perms("udp_socket"@).contains("name_connect"@),
        class_perms("tcp_socket"@).contains("node_bind"@) && class_perms("udp_socket"@).contains("node_bind"@),
        class_perms("unix_stream_socket"@).contains("connectto"@),
        class_perms("unix_stream_socket"@).contains("sendto"@) && class_perms("unix_dgram_socket"@).contains("sendto"@),
        class_perms("process"@).contains("fork"@),
        class_perms("process"@).contains("transition"@),
        class_perms("process"@).contains("sigkill"@),
        class_perms("process"@).contains("sigstop"@),
        class_perms("process"@).contains("signull"@),
        class_perms("process"@).contains("signal"@),
        class_perms("process"@).contains("ptrace"@),
        class_perms("process"@).contains("getsched"@),
        class_perms("process"@).contains("setsched"@),
        class_perms("process"@).contains("getsession"@),
        class_perms("process"@).contains("getpgid"@),
        class_perms("process"@).contains("setpgid"@),
        class_perms("process"@).contains("getcap"@),
        class_perms("process"@).contains("setcap"@),
        class_perms("process"@).contains("share"@),
        class_perms("process"@).contains("setexec"@),
        class_perms("process"@).contains("setfscreate"@),
        class_perms("process"@).contains("noatsecure"@),
        class_perms("process"@).contains("siginh"@),
        class_perms("process"@).contains("setrlimit"@),
        class_perms("process"@).contains("rlimitinh"@),
        class_perms("process"@).contains("dyntransition"@),
        class_perms("process"@).contains("setcurrent"@),
        class_perms("process"@).contains("execmem"@),
        class_perms("process"@).contains("execstack"@),
        class_perms("process"@).contains("execheap"@),
        class_perms("process"@).contains("setkeycreate"@),
        class_perms("process"@).contains("setsockcreate"@),
        class_perms("capability"@).contains("chown"@),
        class_perms("capability"@).contains("dac_override"@),
        class_perms("capability"@).contains("dac_read_search"@),
        class_perms("capability"@).contains("fowner"@),
        class_perms("capability"@).contains("fsetid"@),
        class_perms("capability"@).contains("kill"@),
        class_perms("capability"@).contains("setgid"@),
        class_perms("capability"@).contains("setuid"@),
        class_perms("capability"@).contains("setpcap"@),
        class_perms("capability"@).contains("linux_immutable"@),
        class_perms("capability"@).contains("net_bind_service"@),
        class_perms("capability"@).contains("net_broadcast"@),
        class_perms("capability"@).contains("net_admin"@),
        class_perms("capability"@).contains("net_raw"@),
        class_perms("capability"@).contains("ipc_lock"@),
        class_perms("capability"@).contains("ipc_owner"@),
        class_perms("capability"@).contains("sys_module"@),
        class_perms("capability"@).contains("sys_rawio"@),
        class_perms("capability"@).contains("sys_chroot"@),
        class_perms("capability"@).contains("sys_ptrace"@),
        class_perms("capability"@).contains("sys_pacct"@),
        class_perms("capability"@).contains("sys_admin"@),
        class_perms("capability"@).contains("sys_boot"@),
        class_perms("capability"@).contains("sys_nice"@),
        class_perms("capability"@).contains("sys_resource"@),
        class_perms("capability"@).contains("sys_time"@),
        class_perms("capability"@).contains("sys_tty_config"@),
        class_perms("capability"@).contains("mknod"@),
        class_perms("capability"@).contains("lease"@),
        class_perms("capability"@).contains("audit_write"@),
        class_perms("capability"@).contains("audit_control"@),
        class_perms("capability"@).contains("setfcap"@),
        class_perms("capability"@).contains("mac_override"@),
        class_perms("capability"@).contains("mac_admin"@),
        class_perms("capability"@).contains("syslog"@),
        class_perms("capability"@).contains("wake_alarm"@),
        class_perms("capability"@).contains("block_suspend"@),
        class_perms("capability"@).contains("audit_read"@),
        class_perms("capability"@).contains("perfmon"@),
        class_perms("capability"@).contains("bpf"@),
        class_perms("capability"@).contains("checkpoint_restore"@),
        class_perms("filesystem"@).contains("mount"@),
        class_perms("filesystem"@).contains("remount"@),
        class_perms("filesystem"@).contains("unmount"@),
        class_perms("filesystem"@).contains("associate"@),
        class_perms("filesystem"@).contains("quotamod"@),
        class_perms("filesystem"@).contains("quotaget"@),
{
    lemma_class_names_differ();
    lemma_file_perms();
    lemma_dir_perms();
    lemma_tcp_socket_perms();
    lemma_udp_socket_perms();
    lemma_unix_stream_socket_perms();
    lemma_unix_dgram_socket_perms();
    lemma_netlink_socket_perms();
    lemma_process_perms();
    lemma_capability_perms();
    lemma_filesystem_perms();
}

proof fn lemma_file_perms()
    ensures
        class_perms("file"@).len() == 21,
        class_perms("file"@).contains("read"@),
        class_perms("file"@).contains("write"@),
        class_perms("file"@).contains("open"@),
        class_perms("file"@).contains("create"@),
        class_perms("file"@).contains("getattr"@),
        class_perms("file"@).contains("setattr"@),
        class_perms("file"@).contains("lock"@),
        class_perms("file"@).contains("relabelfrom"@),
        class_perms("file"@).contains("relabelto"@),
        class_perms("file"@).contains("append"@),
        class_perms("file"@).contains("link"@),
        class_perms("file"@).contains("unlink"@),
        class_perms("file"@).contains("rename"@),
        class_perms("file"@).contains("execute"@),
        class_perms("file"@).contains("execute_no_trans"@),
        class_perms("file"@).contains("entrypoint"@),
        class_perms("file"@).contains("ioctl"@),
        class_perms("file"@).contains("map"@),
        class_perms("file"@).contains("quotaon"@),
        class_perms("file"@).contains("mounton"@),
        class_perms("file"@).contains("audit_access"@),
{
    lemma_class_names_differ();
    let all = class_perms("file"@);
    assert(all[0] == "read"@);
    assert(all[1] == "write"@);
    assert(all[2] == "open"@);
    assert(all[3] == "create"@);
    assert(all[4] == "getattr"@);
    assert(all[5] == "setattr"@);
    assert(all[6] == "lock"@);
    assert(all[7] == "relabelfrom"@);
    assert(all[8] == "relabelto"@);
    assert(all[9] == "append"@);
    assert(all[10] == "link"@);
    assert(all[11] == "unlink"@);
    assert(all[12] == "rename"@);
    assert(all[13] == "execute"@);
    assert(all[14] == "execute_no_trans"@);
    assert(all[15] == "entrypoint"@);
    assert(all[16] == "ioctl"@);
    assert(all[17] == "map"@);
    assert(all[18] == "quotaon"@);
    assert(all[19] == "mounton"@);
    assert(all[20] == "audit_access"@);
}

proof fn lemma_dir_perms()
    ensures
        class_perms("dir"@).len() == 19,
        class_perms("dir"@).contains("read"@),
        class_perms("dir"@).contains("write"@),
        class_perms("dir"@).contains("open"@),
        class_perms("dir"@).contains("create"@),
        class_perms("dir"@).contains("getattr"@),
        class_perms("dir"@).contains("setattr"@),
        class_perms("dir"@).contains("lock"@),
        class_perms("dir"@).contains("relabelfrom"@),
        class_perms("dir"@).contains("relabelto"@),
        class_perms("dir"@).contains("append"@),
        class_perms("dir"@).contains("link"@),
        class_perms("dir"@).contains("unlink"@),
        class_perms("dir"@).contains("rename"@),
        class_perms("dir"@).contains("search"@),
        class_perms("dir"@).contains("rmdir"@),
        class_perms("dir"@).contains("add_name"@),
        class_perms("dir"@).contains("remove_name"@),
        class_perms("dir"@).contains("reparent"@),
        class_perms("dir"@).contains("audit_access"@),
{
    lemma_class_names_differ();
    let all = class_perms("dir"@);
    assert(all[0] == "read"@);
    assert(all[1] == "write"@);
    assert(all[2] == "open"@);
    assert(all[3] == "create"@);
    assert(all[4] == "getattr"@);
    assert(all[5] == "setattr"@);
    assert(all[6] == "lock"@);
    assert(all[7] == "relabelfrom"@);
    assert(all[8] == "relabelto"@);
    assert(all[9] == "append"@);
    assert(all[10] == "link"@);
    assert(all[11] == "unlink"@);
    assert(all[12] == "rename"@);
    assert(all[13] == "search"@);
    assert(all[14] == "rmdir"@);
    assert(all[15] == "add_name"@);
    assert(all[16] == "remove_name"@);
    assert(all[17] == "reparent"@);
    assert(all[18] == "audit_access"@);
}

proof fn lemma_tcp_socket_perms()
    ensures
        class_perms("tcp_socket"@).len() == 15,
        class_perms("tcp_socket"@).contains("create"@),
        class_perms("tcp_socket"@).contains("connect"@),
        class_perms("tcp_socket"@).contains("listen"@),
        class_perms("tcp_socket"@).contains("accept"@),
        class_perms("tcp_socket"@).contains("read"@),
        class_perms("tcp_socket"@).contains("write"@),
        class_perms("tcp_socket"@).contains("send_msg"@),
        class_perms("tcp_socket"@).contains("recv_msg"@),
        class_perms("tcp_socket"@).contains("name_bind"@),
        class_perms("tcp_socket"@).contains("name_connect"@),
        class_perms("tcp_socket"@).contains("getattr"@),
        class_perms("tcp_socket"@).contains("setattr"@),
        class_perms("tcp_socket"@).contains("node_bind"@),
        class_perms("tcp_socket"@).contains("relabelto"@),
        class_perms("tcp_socket"@).contains("relabelfrom"@),
{
    lemma_class_names_differ();
    let all = class_perms("tcp_socket"@);
    assert(all[0] == "create"@);
    assert(all[1] == "connect"@);
    assert(all[2] == "listen"@);
    assert(all[3] == "accept"@);
    assert(all[4] == "read"@);
    assert(all[5] == "write"@);
    assert(all[6] == "send_msg"@);
    assert(all[7] == "recv_msg"@);
    assert(all[8] == "name_bind"@);
    assert(all[9] == "name_connect"@);
    assert(all[10] == "getattr"@);
    assert(all[11] == "setattr"@);
    assert(all[12] == "node_bind"@);
    assert(all[13] == "relabelto"@);
    assert(all[14] == "relabelfrom"@);
}

proof fn lemma_udp_socket_perms()
    ensures
        class_perms("udp_socket"@).len() == 13,
        class_perms("udp_socket"@).contains("create"@),
        class_perms("udp_socket"@).contains("connect"@),
        class_perms("udp_socket"@).contains("read"@),
        class_perms("udp_socket"@).contains("write"@),
        class_perms("udp_socket"@).contains("send_msg"@),
        class_perms("udp_socket"@).contains("recv_msg"@),
        class_perms("udp_socket"@).contains("name_bind"@),
        class_perms("udp_socket"@).contains("name_connect"@),
        class_perms("udp_socket"@).contains("getattr"@),
        class_perms("udp_socket"@).contains("setattr"@),
        class_perms("udp_socket"@).contains("node_bind"@),
        class_perms("udp_socket"@).contains("relabelto"@),
        class_perms("udp_socket"@).contains("relabelfrom"@),
{
    lemma_class_names_differ();
    let all = class_perms("udp_socket"@);
    assert(all[0] == "create"@);
    assert(all[1] == "connect"@);
    assert(all[2] == "read"@);
    assert(all[3] == "write"@);
    assert(all[4] == "send_msg"@);
    assert(all[5] == "recv_msg"@);
    assert(all[6] == "name_bind"@);
    assert(all[7] == "name_connect"@);
    assert(all[8] == "getattr"@);
    assert(all[9] == "setattr"@);
    assert(all[10] == "node_bind"@);
    assert(all[11] == "relabelto"@);
    assert(all[12] == "relabelfrom"@);
}

proof fn lemma_unix_stream_socket_perms()
    ensures
        class_perms("unix_stream_socket"@).len() == 10,
        class_perms("unix_stream_socket"@).contains("create"@),
        class_perms("unix_stream_socket"@).contains("connectto"@),
        class_perms("unix_stream_socket"@).contains("listen"@),
        class_perms("unix_stream_socket"@).contains("accept"@),
        class_perms("unix_stream_socket"@).contains("read"@),
        class_perms("unix_stream_socket"@).contains("write"@),
        class_perms("unix_stream_socket"@).contains("sendto"@),
        class_perms("unix_stream_socket"@).contains("getattr"@),
        class_perms("unix_stream_socket"@).contains("setattr"@),
        class_perms("unix_stream_socket"@).contains("relabelto"@),
{
    lemma_class_names_differ();
    let all = class_perms("unix_stream_socket"@);
    assert(all[0] == "create"@);
    assert(all[1] == "connectto"@);
    assert(all[2] == "listen"@);
    assert(all[3] == "accept"@);
    assert(all[4] == "read"@);
    assert(all[5] == "write"@);
    assert(all[6] == "sendto"@);
    assert(all[7] == "getattr"@);
    assert(all[8] == "setattr"@);
    assert(all[9] == "relabelto"@);
}

proof fn lemma_unix_dgram_socket_perms()
    ensures
        class_perms("unix_dgram_socket"@).len() == 7,
        class_perms("unix_dgram_socket"@).contains("create"@),
        class_perms("unix_dgram_socket"@).contains("sendto"@),
        class_perms("unix_dgram_socket"@).contains("read"@),
        class_perms("unix_dgram_socket"@).contains("write"@),
        class_perms("unix_dgram_socket"@).contains("getattr"@),
        class_perms("unix_dgram_socket"@).contains("setattr"@),
        class_perms("unix_dgram_socket"@).contains("relabelto"@),
{
    lemma_class_names_differ();
    let all = class_perms("unix_dgram_socket"@);
    assert(all[0] == "create"@);
    assert(all[1] == "sendto"@);
    assert(all[2] == "read"@);
    assert(all[3] == "write"@);
    assert(all[4] == "getattr"@);
    assert(all[5] == "setattr"@);
    assert(all[6] == "relabelto"@);
}

proof fn lemma_netlink_socket_perms()
    ensures
        class_perms("netlink_socket"@).len() == 6,
        class_perms("netlink_socket"@).contains("create"@),
        class_perms("netlink_socket"@).contains("read"@),
        class_perms("netlink_socket"@).contains("write"@),
        class_perms("netlink_socket"@).contains("getattr"@),
        class_perms("netlink_socket"@).contains("setattr"@),
        class_perms("netlink_socket"@).contains("relabelto"@),
{
    lemma_class_names_differ();
    let all = class_perms("netlink_socket"@);
    assert(all[0] == "create"@);
    assert(all[1] == "read"@);
    assert(all[2] == "write"@);
    assert(all[3] == "getattr"@);
    assert(all[4] == "setattr"@);
    assert(all[5] == "relabelto"@);
}

proof fn lemma_process_perms()
    ensures
        class_perms("process"@).len() == 29,
        class_perms("process"@).contains("fork"@),
        class_perms("process"@).contains("transition"@),
        class_perms("process"@).contains("sigkill"@),
        class_perms("process"@).contains("sigstop"@),
        class_perms("process"@).contains("signull"@),
        class_perms("process"@).contains("signal"@),
        class_perms("process"@).contains("ptrace"@),
        class_perms("process"@).contains("getsched"@),
        class_perms("process"@).contains("setsched"@),
        class_perms("process"@).contains("getsession"@),
        class_perms("process"@).contains("getpgid"@),
        class_perms("process"@).contains("setpgid"@),
        class_perms("process"@).contains("getcap"@),
        class_perms("process"@).contains("setcap"@),
        class_perms("process"@).contains("share"@),
        class_perms("process"@).contains("getattr"@),
        class_perms("process"@).contains("setexec"@),
        class_perms("process"@).contains("setfscreate"@),
        class_perms("process"@).contains("noatsecure"@),
        class_perms("process"@).contains("siginh"@),
        class_perms("process"@).contains("setrlimit"@),
        class_perms("process"@).contains("rlimitinh"@),
        class_perms("process"@).contains("dyntransition"@),
        class_perms("process"@).contains("setcurrent"@),
        class_perms("process"@).contains("execmem"@),
        class_perms("process"@).contains("execstack"@),
        class_perms("process"@).contains("execheap"@),
        class_perms("process"@).contains("setkeycreate"@),
        class_perms("process"@).contains("setsockcreate"@),
{
    lemma_class_names_differ();
    let all = class_perms("process"@);
    assert(all[0] == "fork"@);
    assert(all[1] == "transition"@);
    assert(all[2] == "sigkill"@);
    assert(all[3] == "sigstop"@);
    assert(all[4] == "signull"@);
    assert(all[5] == "signal"@);
    assert(all[6] == "ptrace"@);
    assert(all[7] == "getsched"@);
    assert(all[8] == "setsched"@);
    assert(all[9] == "getsession"@);
    assert(all[10] == "getpgid"@);
    assert(all[11] == "setpgid"@);
    assert(all[12] == "getcap"@);
    assert(all[13] == "setcap"@);
    assert(all[14] == "share"@);
    assert(all[15] == "getattr"@);
    assert(all[16] == "setexec"@);
    assert(all[17] == "setfscreate"@);
    assert(all[18] == "noatsecure"@);
    assert(all[19] == "siginh"@);
    assert(all[20] == "setrlimit"@);
    assert(all[21] == "rlimitinh"@);
    assert(all[22] == "dyntransition"@);
    assert(all[23] == "setcurrent"@);
    assert(all[24] == "execmem"@);
    assert(all[25] == "execstack"@);
    assert(all[26] == "execheap"@);
    assert(all[27] == "setkeycreate"@);
    assert(all[28] == "setsockcreate"@);
}

proof fn lemma_capability_perms()
    ensures
        class_perms("capability"@).len() == 41,
        class_perms("capability"@).contains("chown"@),
        class_perms("capability"@).contains("dac_override"@),
        class_perms("capability"@).contains("dac_read_search"@),
        class_perms("capability"@).contains("fowner"@),
        class_perms("capability"@).contains("fsetid"@),
        class_perms("capability"@).contains("kill"@),
        class_perms("capability"@).contains("setgid"@),
        class_perms("capability"@).contains("setuid"@),
        class_perms("capability"@).contains("setpcap"@),
        class_perms("capability"@).contains("linux_immutable"@),
        class_perms("capability"@).contains("net_bind_service"@),
        class_perms("capability"@).contains("net_broadcast"@),
        class_perms("capability"@).contains("net_admin"@),
        class_perms("capability"@).contains("net_raw"@),
        class_perms("capability"@).contains("ipc_lock"@),
        class_perms("capability"@).contains("ipc_owner"@),
        class_perms("capability"@).contains("sys_module"@),
        class_perms("capability"@).contains("sys_rawio"@),
        class_perms("capability"@).contains("sys_chroot"@),
        class_perms("capability"@).contains("sys_ptrace"@),
        class_perms("capability"@).contains("sys_pacct"@),
        class_perms("capability"@).contains("sys_admin"@),
        class_perms("capability"@).contains("sys_boot"@),
        class_perms("capability"@).contains("sys_nice"@),
        class_perms("capability"@).contains("sys_resource"@),
        class_perms("capability"@).contains("sys_time"@),
        class_perms("capability"@).contains("sys_tty_config"@),
        class_perms("capability"@).contains("mknod"@),
        class_perms("capability"@).contains("lease"@),
        class_perms("capability"@).contains("audit_write"@),
        class_perms("capability"@).contains("audit_control"@),
        class_perms("capability"@).contains("setfcap"@),
        class_perms("capability"@).contains("mac_override"@),
        class_perms("capability"@).contains("mac_admin"@),
        class_perms("capability"@).contains("syslog"@),
        class_perms("capability"@).contains("wake_alarm"@),
        class_perms("capability"@).contains("block_suspend"@),
        class_perms("capability"@).contains("audit_read"@),
        class_perms("capability"@).contains("perfmon"@),
        class_perms("capability"@).contains("bpf"@),
        class_perms("capability"@).contains("checkpoint_restore"@),
{
    lemma_class_names_differ();
    let all = class_perms("capability"@);
    assert(all[0] == "chown"@);
    assert(all[1] == "dac_override"@);
    assert(all[2] == "dac_read_search"@);
    assert(all[3] == "fowner"@);
    assert(all[4] == "fsetid"@);
    assert(all[5] == "kill"@);
    assert(all[6] == "setgid"@);
    assert(all[7] == "setuid"@);
    assert(all[8] == "setpcap"@);
    assert(all[9] == "linux_immutable"@);
    assert(all[10] == "net_bind_service"@);
    assert(all[11] == "net_broadcast"@);
    assert(all[12] == "net_admin"@);
    assert(all[13] == "net_raw"@);
    assert(all[14] == "ipc_lock"@);
    assert(all[15] == "ipc_owner"@);
    assert(all[16] == "sys_module"@);
    assert(all[17] == "sys_rawio"@);
    assert(all[18] == "sys_chroot"@);
    assert(all[19] == "sys_ptrace"@);
    assert(all[20] == "sys_pacct"@);
    assert(all[21] == "sys_admin"@);
    assert(all[22] == "sys_boot"@);
    assert(all[23] == "sys_nice"@);
    assert(all[24] == "sys_resource"@);
    assert(all[25] == "sys_time"@);
    assert(all[26] == "sys_tty_config"@);
    assert(all[27] == "mknod"@);
    assert(all[28] == "lease"@);
    assert(all[29] == "audit_write"@);
    assert(all[30] == "audit_control"@);
    assert(all[31] == "setfcap"@);
    assert(all[32] == "mac_override"@);
    assert(all[33] == "mac_admin"@);
    assert(all[34] == "syslog"@);
    assert(all[35] == "wake_alarm"@);
    assert(all[36] == "block_suspend"@);
    assert(all[37] == "audit_read"@);
    assert(all[38] == "perfmon"@);
    assert(all[39] == "bpf"@);
    assert(all[40] == "checkpoint_restore"@);
}

proof fn lemma_filesystem_perms()
    ensures
        class_perms("filesystem"@).len() == 9,
        class_perms("filesystem"@).contains("mount"@),
        class_perms("filesystem"@).contains("remount"@),
        class_perms("filesystem"@).contains("unmount"@),
        class_perms("filesystem"@).contains("getattr"@),
        class_perms("filesystem"@).contains("relabelfrom"@),
        class_perms("filesystem"@).contains("relabelto"@),
        class_perms("filesystem"@).contains("associate"@),
        class_perms("filesystem"@).contains("quotamod"@),
        class_perms("filesystem"@).contains("quotaget"@),
{
    lemma_class_names_differ();
    let all = class_perms("filesystem"@);
    assert(all[0] == "mount"@);
    assert(all[1] == "remount"@);
    assert(all[2] == "unmount"@);
    assert(all[3] == "getattr"@);
    assert(all[4] == "relabelfrom"@);
    assert(all[5] == "relabelto"@);
    assert(all[6] == "associate"@);
    assert(all[7] == "quotamod"@);
    assert(all[8] == "quotaget"@);
}

/// Every other class has the common permissions.
pub proof fn law_common_permissions(c: Seq<char>)
    requires
        c != "file"@,
        c != "dir"@,
        c != "tcp_socket"@,
        c != "udp_socket"@,
        c != "unix_stream_socket"@,
        c != "unix_dgram_socket"@,
        c != "netlink_socket"@,
        c != "process"@,
        c != "capability"@,
        c != "filesystem"@,
    ensures
        class_perms(c).len() == 5,
        class_perms(c).contains("read"@),
        class_perms(c).contains("write"@),
        class_perms(c).contains("create"@),
        class_perms(c).contains("getattr"@),
        class_perms(c).contains("setattr"@),
{
    let all = class_perms(c);
    assert(all[0] == "read"@);
    assert(all[1] == "write"@);
    assert(all[2] == "create"@);
    assert(all[3] == "getattr"@);
    assert(all[4] == "setattr"@);
}

// ---- Refusals ----

/// Whether a permission of a list holds a star.
pub open spec fn some_star(perms: Seq<Seq<char>>) -> bool {
    exists|i: int| 0 <= i < perms.len() && (#[trigger] perms[i]).contains('*')
}

/// Whether a permission of a list is not one of the class.
pub open spec fn some_stranger(perms: Seq<Seq<char>>, class: Seq<char>) -> bool {
    exists|i: int| 0 <= i < perms.len() && !class_perms(class).contains(#[trigger] perms[i])
}

/// Rules are approved just when, of every one of them, neither type nor the class nor a permission
/// holds a star, both types are known and neither is denied, the class is one that a rule may name,
/// and it has permissions, all of them of that class.
pub proof fn law_approval(rules: Seq<RuleView>, known: Set<Seq<char>>, deny: Set<Seq<char>>)
    ensures
        first_refusal(rules, known, deny) is None <==> forall|i: int|
            0 <= i < rules.len() ==> {
                let r = #[trigger] rules[i];
                &&& !r.source_type.contains('*') && !r.target_type.contains('*')
                    && !r.tclass.contains('*') && !some_star(r.perms)
                &&& known.contains(r.source_type) && known.contains(r.target_type)
                &&& !deny.contains(r.source_type) && !deny.contains(r.target_type)
                &&& class_names().contains(r.tclass)
                &&& r.perms.len() > 0 && !some_stranger(r.perms, r.tclass)
            },
{
    law_approved_means_all_acceptable(rules, known, deny);
    if first_refusal(rules, known, deny) is None {
        assert forall|i: int| 0 <= i < rules.len() implies {
            let r = #[trigger] rules[i];
            &&& !r.source_type.contains('*') && !r.target_type.contains('*')
                && !r.tclass.contains('*') && !some_star(r.perms)
            &&& known.contains(r.source_type) && known.contains(r.target_type)
            &&& !deny.contains(r.source_type) && !deny.contains(r.target_type)
            &&& class_names().contains(r.tclass)
            &&& r.perms.len() > 0 && !some_stranger(r.perms, r.tclass)
        } by {
            assert(crate::validator::acceptable(rules[i], known, deny));
        }
    }
    if forall|i: int|
        0 <= i < rules.len() ==> {
            let r = #[trigger] rules[i];
            &&& !r.source_type.contains('*') && !r.target_type.contains('*')
                && !r.tclass.contains('*') && !some_star(r.perms)
            &&& known.contains(r.source_type) && known.contains(r.target_type)
            &&& !deny.contains(r.source_type) && !deny.contains(r.target_type)
            &&& class_names().contains(r.tclass)
            &&& r.perms.len() > 0 && !some_stranger(r.perms, r.tclass)
        } {
        assert forall|i: int| 0 <= i < rules.len() implies crate::validator::acceptable(
            #[trigger] rules[i],
            known,
            deny,
        ) by {
            let r = rules[i];
            assert forall|j: int| 0 <= j < r.perms.len() implies !is_wild(#[trigger] r.perms[j])
                && class_perms(r.tclass).contains(r.perms[j]) by {
                assert(!r.perms[j].contains('*'));
            }
        }
    }
}

/// Why a rule is refused: the first of these that holds of it, with what it is about.
pub proof fn law_reason(r: RuleView, known: Set<Seq<char>>, deny: Set<Seq<char>>)
    ensures
        ({
            let why = refusal(r, known, deny);
            if r.source_type.contains('*') {
                why == Some(Refusal::WildcardSource(r.source_type))
            } else if r.target_type.contains('*') {
                why == Some(Refusal::WildcardTarget(r.target_type))
            } else if r.tclass.contains('*') {
                why == Some(Refusal::WildcardClass)
            } else if some_star(r.perms) {
                exists|i: int|
                    0 <= i < r.perms.len() && (#[trigger] r.perms[i]).contains('*') && !some_star(
                        r.perms.take(i),
                    ) && why == Some(Refusal::WildcardPerm(r.perms[i]))
            } else if r.target_type == "unconfined_t"@ && deny.contains("unconfined_t"@) {
                why == Some(Refusal::UnconfinedTarget)
            } else if !known.contains(r.source_type) {
                why == Some(Refusal::UnknownType(r.source_type))
            } else if !known.contains(r.target_type) {
                why == Some(Refusal::UnknownType(r.target_type))
            } else if deny.contains(r.source_type) {
                why == Some(Refusal::DeniedSource(r.source_type))
            } else if deny.contains(r.target_type) {
                why == Some(Refusal::DeniedTarget(r.target_type))
            } else if r.perms.len() == 0 {
                why == Some(Refusal::EmptyPerms)
            } else if !class_names().contains(r.tclass) {
                why == Some(Refusal::UnknownClass(r.tclass))
            } else if some_stranger(r.perms, r.tclass) {
                exists|i: int|
                    0 <= i < r.perms.len() && !class_perms(r.tclass).contains(#[trigger] r.perms[i])
                        && !some_stranger(r.perms.take(i), r.tclass) && why == Some(
                        Refusal::UnknownPerm { class: r.tclass, perm: r.perms[i] },
                    )
            } else {
                why is None
            }
        }),
{
    lemma_first_star(r.perms);
    lemma_first_stranger(r.perms, r.tclass);
}

proof fn lemma_first_star(perms: Seq<Seq<char>>)
    ensures
        some_star(perms) ==> exists|i: int|
            0 <= i < perms.len() && (#[trigger] perms[i]).contains('*') && !some_star(perms.take(i))
                && first_wild(perms) == Some(perms[i]),
        !some_star(perms) ==> first_wild(perms) is None,
    decreases perms.len(),
{
    if perms.len() > 0 {
        let t = perms.skip(1);
        lemma_first_star(t);
        if perms[0].contains('*') {
            assert(perms.take(0) =~= Seq::<Seq<char>>::empty());
            assert(!some_star(perms.take(0)));
            assert(some_star(perms));
        } else {
            if some_star(perms) {
                let k = choose|k: int| 0 <= k < perms.len() && (#[trigger] perms[k]).contains('*');
                assert(t[k - 1] == perms[k]);
                assert(some_star(t));
                let i = choose|i: int|
                    0 <= i < t.len() && (#[trigger] t[i]).contains('*') && !some_star(t.take(i))
                        && first_wild(t) == Some(t[i]);
                assert(perms[i + 1] == t[i]);
                let head = perms.take(i + 1);
                if some_star(head) {
                    let q = choose|q: int|
                        0 <= q < head.len() && (#[trigger] head[q]).contains('*');
                    assert(t.take(i)[q - 1] == head[q]);
                }
            } else if some_star(t) {
                let k = choose|k: int| 0 <= k < t.len() && (#[trigger] t[k]).contains('*');
                assert(perms[k + 1] == t[k]);
            }
        }
    }
}

proof fn lemma_first_stranger(perms: Seq<Seq<char>>, class: Seq<char>)
    ensures
        some_stranger(perms, class) ==> exists|i: int|
            0 <= i < perms.len() && !class_perms(class).contains(#[trigger] perms[i])
                && !some_stranger(perms.take(i), class) && crate::validator::first_foreign(
                perms,
                class_perms(class),
            ) == Some(perms[i]),
        !some_stranger(perms, class) ==> crate::validator::first_foreign(
            perms,
            class_perms(class),
        ) is None,
    decreases perms.len(),
{
    if perms.len() > 0 {
        let t = perms.skip(1);
        lemma_first_stranger(t, class);
        if !class_perms(class).contains(perms[0]) {
            assert(perms.take(0) =~= Seq::<Seq<char>>::empty());
            assert(!some_stranger(perms.take(0), class));
            assert(some_stranger(perms, class));
        } else {
            if some_stranger(perms, class) {
                let k = choose|k: int|
                    0 <= k < perms.len() && !class_perms(class).contains(#[trigger] perms[k]);
                assert(t[k - 1] == perms[k]);
                assert(some_stranger(t, class));
                let i = choose|i: int|
                    0 <= i < t.len() && !class_perms(class).contains(#[trigger] t[i])
                        && !some_stranger(t.take(i), class) && crate::validator::first_foreign(
                        t,
                        class_perms(class),
                    ) == Some(t[i]);
                assert(perms[i + 1] == t[i]);
                let head = perms.take(i + 1);
                if some_stranger(head, class) {
                    let q = choose|q: int|
                        0 <= q < head.len() && !class_perms(class).contains(#[trigger] head[q]);
                    assert(t.take(i)[q - 1] == head[q]);
                }
            } else if some_stranger(t, class) {
                let k = choose|k: int|
                    0 <= k < t.len() && !class_perms(class).contains(#[trigger] t[k]);
                assert(perms[k + 1] == t[k]);
            }
        }
    }
}

/// The reason for a list of rules is that of its first rule that has one.
pub proof fn law_first_reason(
    r: RuleView,
    rules: Seq<RuleView>,
    known: Set<Seq<char>>,
    deny: Set<Seq<char>>,
)
    ensures
        first_refusal(Seq::empty(), known, deny) is None,
        refusal(r, known, deny) is Some ==> first_refusal(seq![r] + rules, known, deny) == refusal(
            r,
            known,
            deny,
        ),
        refusal(r, known, deny) is None ==> first_refusal(seq![r] + rules, known, deny)
            == first_refusal(rules, known, deny),
{
    assert((seq![r] + rules).skip(1) =~= rules);
}

/// The types that are denied unless configured otherwise: these six.
pub proof fn law_denied_by_default(t: Seq<char>)
    ensures
        default_denied().contains(t) <==> t == "kernel_t"@ || t == "init_t"@ || t == "unconfined_t"@
            || t == "unlabeled_t"@ || t == "unknown_t"@ || t == "unresolved_t"@,
{
}

} // verus!
