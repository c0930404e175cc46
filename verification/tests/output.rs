use slay::args::parse_args;
use slay::signal::Signals;
use slay::flow::{exit_status, failure_reason, is_yes, mode, next_step, Mode, Step};
use slay::paint::Paint;
use slay::procs::Proc;
use slay::render::{
    listing_lines, no_targets_lines, declined_line, dry_run_line, failed_line, help_text, matched_header, nothing_listening_line,
    nothing_matched_line, prompt_text, refusal_line, signalled_line, table_lines, unresolved_line,
    usage_error, version_text,
};
use slay::text::{dec_i64, dec_u64, trim_chars};

const OFF: Paint = Paint { on: false };
const ON: Paint = Paint { on: true };

fn host() -> Signals {
    Signals::host()
}

fn args(v: &[&str]) -> Vec<String> {
    v.iter().map(|s| s.to_string()).collect()
}

#[test]
fn paint_wraps_only_when_on() {
    assert_eq!(ON.bold("x"), "\x1b[1mx\x1b[0m");
    assert_eq!(ON.dim("x"), "\x1b[2mx\x1b[0m");
    assert_eq!(ON.red("x"), "\x1b[31mx\x1b[0m");
    assert_eq!(ON.green("x"), "\x1b[32mx\x1b[0m");
    assert_eq!(ON.yellow("x"), "\x1b[33mx\x1b[0m");
    assert_eq!(ON.cyan("x"), "\x1b[36mx\x1b[0m");
    assert_eq!(ON.magenta("x"), "\x1b[35mx\x1b[0m");
    assert_eq!(ON.wrap("4", "u"), "\x1b[4mu\x1b[0m");
    assert_eq!(OFF.bold("x"), "x");
    assert_eq!(OFF.wrap("31", "plain"), "plain");
}

#[test]
fn decimal_and_trim() {
    assert_eq!(dec_u64(0).iter().collect::<String>(), "0");
    assert_eq!(dec_u64(18446744073709551615).iter().collect::<String>(), "18446744073709551615");
    assert_eq!(dec_i64(-42).iter().collect::<String>(), "-42");
    assert_eq!(dec_i64(i64::MIN).iter().collect::<String>(), "-9223372036854775808");
    let t: Vec<char> = " \t\u{3000}a b\r\n".chars().collect();
    assert_eq!(trim_chars(&t).iter().collect::<String>(), "a b");
}

fn p(pid: i32, user: &str, port: Option<u16>, name: &str, cmd: &str) -> Proc {
    Proc { pid, user: user.to_string(), name: name.to_string(), cmdline: cmd.to_string(), port }
}

#[test]
fn process_table() {
    let rows = vec![p(48213, "kieran", Some(3000), "node", "node /home/kieran/dev/app/server.js")];
    let lines = table_lines(&rows, &OFF);
    assert_eq!(lines.len(), 2);
    assert_eq!(lines[0], "    PID  USER    PORT  PROCESS  COMMAND");
    assert_eq!(lines[1], "  48213  kieran  3000  node     node /home/kieran/dev/app/server.js");
    let lines = table_lines(&vec![p(7, "root", None, "init", "/sbin/init")], &OFF);
    assert_eq!(lines[0], "  PID  USER  PORT  PROCESS  COMMAND");
    assert_eq!(lines[1], "    7  root     -  init     /sbin/init");
    let empty = table_lines(&vec![], &OFF);
    assert_eq!(empty, vec!["  PID  USER  PORT  PROCESS  COMMAND".to_string()]);
    let coloured = table_lines(&vec![p(7, "root", None, "init", "/sbin/init")], &ON);
    assert_eq!(
        coloured[1],
        "  \x1b[2m  7\x1b[0m  \x1b[2mroot\x1b[0m  \x1b[36m   -\x1b[0m  \x1b[35minit   \x1b[0m  \x1b[2m/sbin/init\x1b[0m"
    );
}

#[test]
fn widths_count_bytes_but_pad_chars() {
    // "jöhn" is 5 bytes but 4 characters: the column is 5 wide, so it gets one extra space
    let lines = table_lines(&vec![p(1, "jöhn", None, "x", "x")], &OFF);
    assert_eq!(lines[0], "  PID  USER   PORT  PROCESS  COMMAND");
    assert_eq!(lines[1], "    1  jöhn      -  x        x");
}

#[test]
fn messages() {
    assert_eq!(matched_header(&OFF, 1), "● 1 process matched:\n");
    assert_eq!(matched_header(&OFF, 3), "● 3 processes matched:\n");
    assert_eq!(unresolved_line(&OFF, "ghost (no match)"), "• ghost (no match)");
    assert_eq!(nothing_matched_line(&OFF), "✓ Nothing matched.");
    assert_eq!(nothing_listening_line(&OFF), "✓ Nothing is listening on a TCP port.");
    assert_eq!(dry_run_line(&OFF, 15, 2, &host()), "· dry run — would send SIGTERM to 2 processes.");
    assert_eq!(dry_run_line(&OFF, 6, 1, &host()), "· dry run — would send signal 6 to 1 process.");
    assert_eq!(
        refusal_line(&OFF, 1),
        "✗ refusing to kill 1 process without confirmation. Re-run with -y."
    );
    assert_eq!(prompt_text(&OFF, 15, 1, &host()), "Send SIGTERM to it? [y/N] ");
    assert_eq!(prompt_text(&OFF, 9, 4, &host()), "Send SIGKILL to all 4? [y/N] ");
    assert_eq!(declined_line(&OFF), "Left them alone.");
    assert_eq!(signalled_line(&OFF, "node", 48213), "  ✓ node (pid 48213)");
    assert_eq!(failed_line(&OFF, 1, "permission denied — try sudo"), "  ✗ pid 1: permission denied — try sudo");
    assert_eq!(version_text("0.1.0"), "slay 0.1.0");
    let (a, b) = usage_error("unknown flag -q");
    assert_eq!(a, "slay: unknown flag -q");
    assert_eq!(b, "Try `slay --help`.");
}

#[test]
fn help_screen() {
    let h = help_text(&OFF);
    assert!(h.starts_with("slay — a modern pkill. Terminate processes by name, PID, or port.\n\nUSAGE\n  slay <target>..."));
    assert!(h.contains("  slay node                 Kill processes whose name contains \"node\"\n"));
    assert!(h.contains("\n\nOPTIONS\n  -s, --signal <SIG>"));
    assert!(h.ends_with("EXAMPLES\n  slay :5432           # who's squatting on Postgres' port? kill it\n  slay -9 -y node      # force-kill every node process, no questions\n  slay -f vite -n      # preview every process whose cmdline mentions vite"));
    assert!(help_text(&ON).starts_with("\x1b[1mslay\x1b[0m — a modern pkill."));
}

#[test]
fn modes_in_order() {
    assert!(matches!(mode(&parse_args(&args(&["-h", "-V", "-l"]), &host()).unwrap()), Mode::Help));
    assert!(matches!(mode(&parse_args(&args(&["-V", "-l"]), &host()).unwrap()), Mode::Version));
    assert!(matches!(mode(&parse_args(&args(&["-l", "node"]), &host()).unwrap()), Mode::List));
    assert!(matches!(mode(&parse_args(&args(&[]), &host()).unwrap()), Mode::NoTargets));
    assert!(matches!(mode(&parse_args(&args(&["node"]), &host()).unwrap()), Mode::Signal));
}

#[test]
fn steps_need_consent() {
    let plain = parse_args(&args(&["x"]), &host()).unwrap();
    let yes = parse_args(&args(&["-y", "x"]), &host()).unwrap();
    let dry = parse_args(&args(&["-ny", "x"]), &host()).unwrap();
    assert!(matches!(next_step(0, 0, &yes, true), Step::NothingMatched { announce: true }));
    assert!(matches!(next_step(0, 2, &yes, true), Step::NothingMatched { announce: false }));
    assert!(matches!(next_step(2, 0, &dry, false), Step::DryRun));
    assert!(matches!(next_step(1, 0, &plain, false), Step::Refuse));
    assert!(matches!(next_step(1, 0, &plain, true), Step::Ask));
    assert!(matches!(next_step(1, 0, &yes, false), Step::Send));
}

#[test]
fn answers() {
    assert!(is_yes("y\n"));
    assert!(is_yes("  YES \n"));
    assert!(is_yes("Yes"));
    assert!(!is_yes("n\n"));
    assert!(!is_yes(""));
    assert!(!is_yes("yess"));
}

#[test]
fn failure_reasons_and_status() {
    assert_eq!(failure_reason(Some(1), "Operation not permitted"), "permission denied — try sudo");
    assert_eq!(failure_reason(Some(3), "No such process"), "already gone");
    assert_eq!(failure_reason(Some(22), "Invalid argument"), "Invalid argument");
    assert_eq!(failure_reason(None, "other"), "other");
    assert_eq!(exit_status(0), 0);
    assert_eq!(exit_status(2), 1);
}

#[test]
fn listing_shows_table_or_nothing() {
    assert_eq!(listing_lines(&vec![], &OFF), vec!["✓ Nothing is listening on a TCP port.".to_string()]);
    let rows = vec![p(7, "root", Some(80), "init", "/sbin/init")];
    assert_eq!(listing_lines(&rows, &OFF), table_lines(&rows, &OFF));
}

#[test]
fn no_targets_message() {
    let (a, b) = no_targets_lines();
    assert_eq!(a, "slay: no targets. Give a name, PID, or :port — or `slay -l` to list ports.");
    assert_eq!(b, "Try `slay --help`.");
}

#[test]
fn enter_declines() {
    assert!(!is_yes("\n"));
    assert!(!is_yes(""));
    assert!(!is_yes("  \t\n"));
    assert!(is_yes("  Y \n"));
    assert!(is_yes("YES\n"));
    assert!(!is_yes("yess\n"));
}
