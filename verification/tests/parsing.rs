use slay::args::parse_args;
use slay::num::{parse_hex_u16_chars, parse_i32_chars, parse_u16_chars, parse_u64_chars};
use slay::signal::{parse_signal, signal_from_upper, signal_name, Signals};
use slay::target::{classify, Target};

fn cs(s: &str) -> Vec<char> {
    s.chars().collect()
}

fn host() -> Signals {
    Signals::host()
}

fn args(v: &[&str]) -> Vec<String> {
    v.iter().map(|s| s.to_string()).collect()
}

#[test]
fn parse_numbers_like_std() {
    assert_eq!(parse_i32_chars(&cs("4123")), Some(4123));
    assert_eq!(parse_i32_chars(&cs("-7")), Some(-7));
    assert_eq!(parse_i32_chars(&cs("+7")), Some(7));
    assert_eq!(parse_i32_chars(&cs("-2147483648")), Some(i32::MIN));
    assert_eq!(parse_i32_chars(&cs("2147483647")), Some(i32::MAX));
    assert_eq!(parse_i32_chars(&cs("2147483648")), None);
    assert_eq!(parse_i32_chars(&cs("-")), None);
    assert_eq!(parse_i32_chars(&cs("")), None);
    assert_eq!(parse_i32_chars(&cs("12a")), None);
    assert_eq!(parse_i32_chars(&cs("+-1")), None);
    assert_eq!(parse_u16_chars(&cs("65535")), Some(65535));
    assert_eq!(parse_u16_chars(&cs("65536")), None);
    assert_eq!(parse_u16_chars(&cs("-0")), None);
    assert_eq!(parse_u16_chars(&cs("007")), Some(7));
    assert_eq!(parse_hex_u16_chars(&cs("1F90")), Some(8080));
    assert_eq!(parse_hex_u16_chars(&cs("1f90")), Some(8080));
    assert_eq!(parse_hex_u16_chars(&cs("10000")), None);
    assert_eq!(parse_u64_chars(&cs("18446744073709551615")), Some(u64::MAX));
    assert_eq!(parse_u64_chars(&cs("18446744073709551616")), None);
    // agrees with std on a range of inputs
    for s in ["0", "1", "+", "++1", " 1", "1 ", "99999", "-99999", "٣"] {
        assert_eq!(parse_i32_chars(&cs(s)), s.parse::<i32>().ok(), "{s}");
        assert_eq!(parse_u16_chars(&cs(s)), s.parse::<u16>().ok(), "{s}");
    }
}

#[test]
fn signals_by_name_and_number() {
    assert_eq!(parse_signal("TERM", &host()), Ok(15));
    assert_eq!(parse_signal("term", &host()), Ok(15));
    assert_eq!(parse_signal("sigkill", &host()), Ok(9));
    assert_eq!(parse_signal("  SIGHUP \n", &host()), Ok(1));
    assert_eq!(parse_signal("int", &host()), Ok(2));
    assert_eq!(parse_signal("quit", &host()), Ok(3));
    assert_eq!(parse_signal("abrt", &host()), Ok(6));
    assert_eq!(parse_signal("usr1", &host()), Ok(libc::SIGUSR1));
    assert_eq!(parse_signal("Usr2", &host()), Ok(libc::SIGUSR2));
    assert_eq!(parse_signal("stop", &host()), Ok(libc::SIGSTOP));
    assert_eq!(parse_signal("cont", &host()), Ok(libc::SIGCONT));
    assert_eq!(parse_signal("9", &host()), Ok(9));
    assert_eq!(parse_signal("SIG15", &host()), Ok(15));
    assert_eq!(parse_signal("-3", &host()), Ok(-3));
    // std's full upper-casing: a long s becomes S
    assert_eq!(parse_signal("\u{17f}igint", &host()), Ok(2));
}

#[test]
fn unknown_signal_quotes_what_was_typed() {
    assert_eq!(parse_signal(" bogus", &host()), Err("unknown signal:  bogus".to_string()));
    assert_eq!(parse_signal("SIG", &host()), Err("unknown signal: SIG".to_string()));
    assert_eq!(parse_signal("", &host()), Err("unknown signal: ".to_string()));
}

#[test]
fn signal_names_for_display() {
    assert_eq!(signal_name(15, &host()), "SIGTERM");
    assert_eq!(signal_name(9, &host()), "SIGKILL");
    assert_eq!(signal_name(1, &host()), "SIGHUP");
    assert_eq!(signal_name(libc::SIGSTOP, &host()), "SIGSTOP");
    assert_eq!(signal_name(libc::SIGUSR2, &host()), "SIGUSR2");
    assert_eq!(signal_name(6, &host()), "signal 6");
    assert_eq!(signal_name(64, &host()), "signal 64");
    assert_eq!(signal_name(-1, &host()), "signal -1");
}

#[test]
fn name_then_number_round_trip() {
    for n in ["HUP", "INT", "QUIT", "KILL", "USR1", "USR2", "TERM", "STOP", "CONT"] {
        let sig = parse_signal(n, &host()).unwrap();
        assert_eq!(signal_name(sig, &host()), format!("SIG{n}"));
        assert_eq!(parse_signal(&format!("SIG{n}"), &host()), Ok(sig));
    }
}

fn is_port(t: Target, p: u16) -> bool {
    matches!(t, Target::Port(x) if x == p)
}
fn is_pid(t: Target, p: i32) -> bool {
    matches!(t, Target::Pid(x) if x == p)
}
fn is_name(t: Target, n: &str) -> bool {
    matches!(t, Target::Name(x) if x == n)
}

#[test]
fn targets_are_classified() {
    assert!(is_port(classify(":8080"), 8080));
    assert!(is_port(classify(":8080/tcp"), 8080));
    assert!(is_port(classify(":+80"), 80));
    assert!(is_port(classify(":0"), 0));
    assert!(is_name(classify(":99999"), ":99999"));
    assert!(is_name(classify(":"), ":"));
    assert!(is_name(classify(":http"), ":http"));
    assert!(is_pid(classify("4123"), 4123));
    assert!(is_pid(classify("-3"), -3));
    assert!(is_pid(classify("+7"), 7));
    assert!(is_name(classify("vite"), "vite"));
    assert!(is_name(classify("node18"), "node18"));
    assert!(is_name(classify(""), ""));
}

#[test]
fn default_options() {
    let o = parse_args(&args(&["node"]), &host()).unwrap();
    assert_eq!(o.signal, 15);
    assert!(!o.full && !o.exact && !o.ignore_case && !o.yes && !o.dry_run);
    assert!(!o.list && !o.help && !o.version);
    assert_eq!(o.user, None);
    assert_eq!(o.targets, vec!["node".to_string()]);
}

#[test]
fn bundled_short_flags() {
    let o = parse_args(&args(&["-9y", "node"]), &host()).unwrap();
    assert_eq!(o.signal, 9);
    assert!(o.yes);
    assert_eq!(o.targets, vec!["node".to_string()]);
    let o = parse_args(&args(&["-fxinlh"]), &host()).unwrap();
    assert!(o.full && o.exact && o.ignore_case && o.dry_run && o.list && o.help);
    let separate = parse_args(&args(&["-9", "-y", "node"]), &host()).unwrap();
    assert_eq!(separate.signal, 9);
    assert!(separate.yes);
}

#[test]
fn long_and_short_options() {
    let o = parse_args(&args(&[
        "--full", "--exact", "--ignore-case", "--yes", "--dry-run", "--list", "--help", "--version",
    ]), &host())
    .unwrap();
    assert!(o.full && o.exact && o.ignore_case && o.yes && o.dry_run && o.list && o.help && o.version);
    let o = parse_args(&args(&["-V", "-f", "-x", "-i", "-y", "-n", "-l", "-h"]), &host()).unwrap();
    assert!(o.full && o.exact && o.ignore_case && o.yes && o.dry_run && o.list && o.help && o.version);
    let o = parse_args(&args(&["-s", "KILL", ":3000", "-u", "root", "vite"]), &host()).unwrap();
    assert_eq!(o.signal, 9);
    assert_eq!(o.user, Some("root".to_string()));
    assert_eq!(o.targets, vec![":3000".to_string(), "vite".to_string()]);
    let o = parse_args(&args(&["--signal=hup", "--user=kieran", "--signal", "2"]), &host()).unwrap();
    assert_eq!(o.signal, 2);
    assert_eq!(o.user, Some("kieran".to_string()));
    let o = parse_args(&args(&["--user", "-9"]), &host()).unwrap();
    assert_eq!(o.user, Some("-9".to_string()));
    assert_eq!(o.signal, 15);
}

#[test]
fn positional_after_double_dash() {
    let o = parse_args(&args(&["-y", "--", "-9", "--help", "x"]), &host()).unwrap();
    assert!(o.yes);
    assert!(!o.help);
    assert_eq!(o.signal, 15);
    assert_eq!(o.targets, vec!["-9".to_string(), "--help".to_string(), "x".to_string()]);
    let o = parse_args(&args(&["--frobnicate", "-"]), &host()).unwrap();
    assert_eq!(o.targets, vec!["--frobnicate".to_string(), "-".to_string()]);
}

#[test]
fn argument_errors() {
    assert_eq!(parse_args(&args(&["-s"]), &host()).err(), Some("--signal needs a value".to_string()));
    assert_eq!(parse_args(&args(&["node", "--signal"]), &host()).err(), Some("--signal needs a value".to_string()));
    assert_eq!(parse_args(&args(&["-u"]), &host()).err(), Some("--user needs a value".to_string()));
    assert_eq!(parse_args(&args(&["--user"]), &host()).err(), Some("--user needs a value".to_string()));
    assert_eq!(parse_args(&args(&["-q"]), &host()).err(), Some("unknown flag -q".to_string()));
    assert_eq!(parse_args(&args(&["-9yq"]), &host()).err(), Some("unknown flag -q".to_string()));
    assert_eq!(parse_args(&args(&["-123"]), &host()).err(), Some("unknown flag -1".to_string()));
    assert_eq!(parse_args(&args(&["-s", "nope"]), &host()).err(), Some("unknown signal: nope".to_string()));
    assert_eq!(parse_args(&args(&["--signal=nope"]), &host()).err(), Some("unknown signal: nope".to_string()));
}

#[test]
fn numbers_read_back_as_targets() {
    for pid in [0, 1, 4123, -1, i32::MAX, i32::MIN] {
        assert!(is_pid(classify(&pid.to_string()), pid));
        assert_eq!(parse_signal(&pid.to_string(), &host()), Ok(pid));
    }
    for port in [0u16, 22, 8080, u16::MAX] {
        assert!(is_port(classify(&format!(":{port}")), port));
        assert!(is_port(classify(&format!(":{port}/udp")), port));
    }
}

#[test]
fn signals_from_upper_case_text() {
    assert_eq!(signal_from_upper("SIGTERM", "sigterm", &host()), Ok(15));
    assert_eq!(signal_from_upper("KILL", "kill", &host()), Ok(9));
    assert_eq!(signal_from_upper("SIG12", "sig12", &host()), Ok(12));
    assert_eq!(signal_from_upper("term", "term", &host()), Err("unknown signal: term".to_string()));
    assert_eq!(signal_from_upper("SIGSIGTERM", "x", &host()), Err("unknown signal: x".to_string()));
}

#[test]
fn host_table_is_libcs() {
    let t = host();
    assert_eq!(
        (t.hup, t.intr, t.quit, t.abrt, t.kill, t.term),
        (libc::SIGHUP, libc::SIGINT, libc::SIGQUIT, libc::SIGABRT, libc::SIGKILL, libc::SIGTERM)
    );
    assert_eq!(
        (t.usr1, t.usr2, t.cont, t.stop),
        (libc::SIGUSR1, libc::SIGUSR2, libc::SIGCONT, libc::SIGSTOP)
    );
    assert_eq!((t.hup, t.intr, t.quit, t.abrt, t.kill, t.term), (1, 2, 3, 6, 9, 15));
}

#[test]
fn signals_follow_the_table_given() {
    let mips = Signals { usr1: 16, usr2: 17, cont: 25, stop: 23, ..host() };
    assert_eq!(parse_signal("usr1", &mips), Ok(16));
    assert_eq!(parse_signal("SIGSTOP", &mips), Ok(23));
    assert_eq!(signal_name(16, &mips), "SIGUSR1");
    assert_eq!(signal_name(25, &mips), "SIGCONT");
    assert_eq!(signal_name(10, &mips), "signal 10");
    let sparc = Signals { usr1: 30, usr2: 31, cont: 19, stop: 17, ..host() };
    assert_eq!(signal_name(19, &sparc), "SIGCONT");
    assert_eq!(signal_name(17, &sparc), "SIGSTOP");
    assert_eq!(parse_signal("cont", &sparc), Ok(19));
}

#[test]
fn shown_signal_reads_back() {
    let t = host();
    let named = [t.term, t.kill, t.hup, t.intr, t.quit, t.stop, t.cont, t.usr1, t.usr2];
    for sig in -5..70 {
        let shown = signal_name(sig, &t);
        if named.contains(&sig) {
            assert_eq!(parse_signal(&shown, &t), Ok(sig), "{sig}");
        } else {
            assert_eq!(shown, format!("signal {sig}"));
            assert_eq!(parse_signal(&shown, &t), Err(format!("unknown signal: signal {sig}")));
        }
    }
    assert_eq!(signal_name(t.abrt, &t), "signal 6");
    assert_eq!(parse_signal("signal 6", &t), Err("unknown signal: signal 6".to_string()));
}

#[test]
fn case_of_names_does_not_matter() {
    assert_eq!(parse_signal("sIgKiLl", &host()), Ok(9));
    assert_eq!(parse_signal("\tHup\n", &host()), Ok(1));
    assert_eq!(parse_signal("Sig15", &host()), Ok(15));
}

#[test]
fn signal_option_spellings_agree() {
    for v in ["KILL", "9", "sigterm", " hup ", "bogus", "", "-3", "SIG"] {
        let a = parse_args(&args(&["-s", v]), &host());
        let b = parse_args(&args(&["--signal", v]), &host());
        let c = parse_args(&args(&[&format!("--signal={v}")]), &host());
        let want = parse_signal(v, &host());
        for r in [a, b, c] {
            match (&r, &want) {
                (Ok(o), Ok(n)) => {
                    assert_eq!(o.signal, *n);
                    assert!(o.targets.is_empty() && o.user.is_none() && !o.yes && !o.full);
                }
                (Err(e), Err(w)) => assert_eq!(e, w),
                _ => panic!("spellings disagree on {v:?}"),
            }
        }
    }
    assert_eq!(
        parse_args(&args(&["--signal=bogus"]), &host()).err(),
        Some("unknown signal: bogus".to_string())
    );
}

#[test]
fn nine_is_sigkill() {
    let a = parse_args(&args(&["-9", "node"]), &host()).unwrap();
    let b = parse_args(&args(&["--signal", "KILL", "node"]), &host()).unwrap();
    assert_eq!(a.signal, b.signal);
    assert_eq!(a.signal, libc::SIGKILL);
    assert_eq!(a.targets, b.targets);
}

#[test]
fn double_dash_after_options() {
    let o = parse_args(&args(&["-y", "node", "-s", "HUP", "--", "-9", "--help", "--", "-s"]), &host()).unwrap();
    assert!(o.yes);
    assert!(!o.help);
    assert_eq!(o.signal, 1);
    assert_eq!(o.targets, vec!["node", "-9", "--help", "--", "-s"]);
}
