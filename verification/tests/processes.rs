use std::collections::HashMap;

use slay::args::parse_args;
use slay::signal::Signals;
use slay::listing::listening_rows;
use slay::matching::{name_matches, resolve};
use slay::net::{
    inodes_for_port, listening_ports, pids_for_inodes, port_tables, socket_inode, table_inodes, FdLinks,
};
use slay::procs::{command_line, make_proc, passwd_users, pid_of_entry, user_name, Proc};

fn proc_(pid: i32, user: &str, name: &str, cmdline: &str) -> Proc {
    Proc { pid, user: user.to_string(), name: name.to_string(), cmdline: cmdline.to_string(), port: None }
}

fn host() -> Signals {
    Signals::host()
}

fn args(v: &[&str]) -> Vec<String> {
    v.iter().map(|s| s.to_string()).collect()
}

#[test]
fn passwd_first_entry_wins() {
    let txt = "root:x:0:0:root:/root:/bin/bash\nkieran:x:1000:1000::/home/kieran:/bin/zsh\ntoor:x:0:0::/:/bin/sh\nbad:x:notanumber\nshort:x\n";
    let m = passwd_users(txt);
    assert_eq!(m.len(), 2);
    assert_eq!(m.get(&0), Some(&"root".to_string()));
    assert_eq!(m.get(&1000), Some(&"kieran".to_string()));
    assert!(passwd_users("").is_empty());
    let crlf = passwd_users("a:x:5\r\n");
    assert_eq!(crlf.get(&5), Some(&"a".to_string()));
    // a carriage return without a newline stays in the line, and spoils the uid
    assert!(passwd_users("a:x:5\r").is_empty());
}

#[test]
fn owner_names() {
    let m = passwd_users("root:x:0:0::/:/bin/sh\n");
    assert_eq!(user_name(&m, 0), "root");
    assert_eq!(user_name(&m, 4242), "4242");
}

#[test]
fn command_lines() {
    assert_eq!(command_line(&Some(b"node\0/srv/app.js\0".to_vec()), "node"), "node /srv/app.js");
    assert_eq!(command_line(&Some(b"a\0\0b\0".to_vec()), "x"), "a b");
    assert_eq!(command_line(&Some(b"\0\0".to_vec()), "x"), "");
    assert_eq!(command_line(&Some(Vec::new()), "kworker/0:1"), "[kworker/0:1]");
    assert_eq!(command_line(&None, "kthreadd"), "[kthreadd]");
    assert_eq!(command_line(&Some(vec![b'a', 0xff, 0, b'b']), "x"), "a\u{fffd} b");
}

#[test]
fn process_records() {
    let users = passwd_users("kieran:x:1000:1000::/home/kieran:/bin/zsh\n");
    let p = make_proc(48213, 1000, &users, "node\n", &Some(b"node\0server.js\0".to_vec()));
    assert_eq!(p.pid, 48213);
    assert_eq!(p.user, "kieran");
    assert_eq!(p.name, "node");
    assert_eq!(p.cmdline, "node server.js");
    assert_eq!(p.port, None);
    let k = make_proc(2, 0, &users, "kthreadd\n", &Some(Vec::new()));
    assert_eq!(k.user, "0");
    assert_eq!(k.cmdline, "[kthreadd]");
    assert_eq!(pid_of_entry("123"), Some(123));
    assert_eq!(pid_of_entry("self"), None);
}

#[test]
fn name_matching_options() {
    let p = proc_(1, "u", "node", "/usr/bin/node /srv/Vite.js");
    let plain = parse_args(&args(&["x"]), &host()).unwrap();
    assert!(name_matches(&p, "od", &plain));
    assert!(!name_matches(&p, "vite", &plain));
    let full = parse_args(&args(&["-f", "x"]), &host()).unwrap();
    assert!(name_matches(&p, "Vite", &full));
    assert!(!name_matches(&p, "vite", &full));
    let full_ci = parse_args(&args(&["-fi", "x"]), &host()).unwrap();
    assert!(name_matches(&p, "VITE", &full_ci));
    let exact = parse_args(&args(&["-x", "x"]), &host()).unwrap();
    assert!(name_matches(&p, "node", &exact));
    assert!(!name_matches(&p, "nod", &exact));
    let exact_full = parse_args(&args(&["-xf", "x"]), &host()).unwrap();
    assert!(!name_matches(&p, "/usr/bin/node /srv/Vite.js", &exact_full));
    let exact_ci = parse_args(&args(&["-xi", "x"]), &host()).unwrap();
    assert!(name_matches(&p, "NODE", &exact_ci));
    assert!(name_matches(&p, "", &plain));
}

const TCP: &str = "  sl  local_address rem_address   st tx_queue rx_queue tr tm->when retrnsmt   uid  timeout inode\n   0: 00000000:1F90 00000000:0000 0A 00000000:00000000 00:00000000 00000000  1000        0 4242 1 0000000000000000 100 0 0 10 0\n   1: 0100007F:0BB8 00000000:0000 0A 00000000:00000000 00:00000000 00000000  1000        0 777 1 0000000000000000 100 0 0 10 0\n   2: 0100007F:1F90 0100007F:D431 01 00000000:00000000 00:00000000 00000000  1000        0 999 1 0000000000000000 20 4 30 10 -1\n";

const UDP: &str = "   sl  local_address rem_address   st tx_queue rx_queue tr tm->when retrnsmt   uid  timeout inode ref pointer drops\n  5: 00000000:1F90 00000000:0000 07 00000000:00000000 00:00000000 00000000     0        0 5151 2 0000000000000000 0\n";

#[test]
fn socket_tables_by_port() {
    assert_eq!(table_inodes(TCP, true, 8080), vec![4242]);
    assert_eq!(table_inodes(TCP, false, 8080), vec![4242, 999]);
    assert_eq!(table_inodes(TCP, true, 3000), vec![777]);
    assert_eq!(table_inodes(TCP, true, 22), Vec::<u64>::new());
    assert_eq!(table_inodes("", true, 8080), Vec::<u64>::new());
    assert_eq!(table_inodes(UDP, false, 8080), vec![5151]);
    assert_eq!(port_tables().len(), 4);
    let texts = vec![Some(TCP.to_string()), None, Some(UDP.to_string()), None];
    assert_eq!(inodes_for_port(&texts, 8080), vec![4242, 5151]);
}

#[test]
fn socket_links() {
    assert_eq!(socket_inode("socket:[4242]"), Some(4242));
    assert_eq!(socket_inode("pipe:[4242]"), None);
    assert_eq!(socket_inode("socket:[4242"), None);
    assert_eq!(socket_inode("socket:[]"), None);
    assert_eq!(socket_inode("/dev/null"), None);
}

fn fd(entry: &str, links: &[&str]) -> FdLinks {
    FdLinks { entry: entry.to_string(), links: links.iter().map(|s| s.to_string()).collect() }
}

#[test]
fn processes_holding_sockets() {
    let fds = vec![
        fd("100", &["/dev/null", "socket:[4242]"]),
        fd("200", &["socket:[1]"]),
        fd("self", &["socket:[4242]"]),
        fd("300", &["socket:[5151]", "socket:[4242]"]),
    ];
    assert_eq!(pids_for_inodes(&fds, &vec![4242, 5151]), vec![100, 300]);
    assert_eq!(pids_for_inodes(&fds, &vec![]), Vec::<i32>::new());
}

#[test]
fn listening_table_rows() {
    let ports = listening_ports(&vec![Some(TCP.to_string()), None]);
    assert_eq!(ports.len(), 2);
    assert_eq!(ports.get(&4242), Some(&8080));
    assert_eq!(ports.get(&777), Some(&3000));
    let procs = vec![proc_(300, "u", "vite", "vite"), proc_(100, "u", "node", "node a.js")];
    let fds = vec![
        fd("300", &["socket:[777]", "socket:[4242]"]),
        fd("100", &["socket:[4242]", "socket:[4242]"]),
        fd("400", &["socket:[777]"]),
    ];
    let rows = listening_rows(&ports, &procs, &fds);
    let keys: Vec<(Option<u16>, i32)> = rows.iter().map(|r| (r.port, r.pid)).collect();
    assert_eq!(keys, vec![(Some(3000), 300), (Some(8080), 100), (Some(8080), 300)]);
    assert_eq!(rows[1].name, "node");
}

#[test]
fn resolving_mixed_targets() {
    let procs = vec![
        proc_(10, "kieran", "node", "node server.js"),
        proc_(20, "root", "nginx", "nginx: master"),
        proc_(30, "kieran", "vite", "node vite"),
        proc_(99, "kieran", "slay", "slay node"),
    ];
    let opts = parse_args(&args(&[":3000", "node", "20", "ghost", "4123", ":9"]), &host()).unwrap();
    let port_pids = vec![vec![30, 77], vec![], vec![], vec![], vec![], vec![]];
    let r = resolve(&opts, &procs, &port_pids, 99);
    let pids: Vec<i32> = r.matched.iter().map(|p| p.pid).collect();
    assert_eq!(pids, vec![10, 20, 30]);
    assert_eq!(r.matched[2].port, Some(3000));
    assert_eq!(r.matched[0].port, None);
    assert_eq!(
        r.unresolved,
        vec!["ghost (no match)".to_string(), "4123 (no such process)".to_string(), ":9 (nothing listening)".to_string()]
    );
}

#[test]
fn never_signals_itself_and_filters_user() {
    let procs = vec![
        proc_(10, "kieran", "node", "node a"),
        proc_(20, "root", "node", "node b"),
        proc_(99, "kieran", "node", "slay node"),
    ];
    let opts = parse_args(&args(&["node"]), &host()).unwrap();
    let r = resolve(&opts, &procs, &vec![vec![]], 99);
    let pids: Vec<i32> = r.matched.iter().map(|p| p.pid).collect();
    assert_eq!(pids, vec![10, 20]);
    let opts = parse_args(&args(&["-u", "root", "node"]), &host()).unwrap();
    let r = resolve(&opts, &procs, &vec![vec![]], 99);
    let pids: Vec<i32> = r.matched.iter().map(|p| p.pid).collect();
    assert_eq!(pids, vec![20]);
    assert!(r.unresolved.is_empty());
}

#[test]
fn port_overrides_and_order() {
    let procs = vec![proc_(5, "u", "a", "a"), proc_(3, "u", "b", "b")];
    let opts = parse_args(&args(&["a", ":80", ":81"]), &host()).unwrap();
    let r = resolve(&opts, &procs, &vec![vec![], vec![5, 3], vec![5]], 0);
    let got: Vec<(i32, Option<u16>)> = r.matched.iter().map(|p| (p.pid, p.port)).collect();
    assert_eq!(got, vec![(3, Some(80)), (5, Some(81))]);
    // a missing port entry counts as nothing listening
    let r = resolve(&opts, &procs, &vec![], 0);
    assert_eq!(r.unresolved, vec![":80 (nothing listening)".to_string(), ":81 (nothing listening)".to_string()]);
    let _ = HashMap::<u32, String>::new();
}

#[test]
fn single_argument_shown_as_is() {
    assert_eq!(command_line(&Some(b"/usr/bin/python3".to_vec()), "python3"), "/usr/bin/python3");
}
