use std::collections::BTreeSet;

use netmon::controller::ports::{
    collect_table_ports, join_ports, no_ports, parse_port_from_proc_addr, port_list,
};
use netmon::controller::rules::{
    build_block_ruleset, build_rule_comment, delete_command, find_own_handles, find_rule_handles,
    list_command, own_rule_mark, rule_marker,
};
use netmon::controller::session::{
    block_process, release_rules, setup_nftables, unblock_all, unblock_process, Reply, Request,
    RuleBook, Session,
};
use netmon::controller::{
    find_own_rule_handles, find_rule_handles_for_pid, judge_nft_command, judge_nft_script,
    list_rules, map_nft_spawn_error, rate_limit_process, CommandOutcome, ControllerError, ScriptOutcome,
};
use netmon::text::chars_of;

const TCP_TABLE: &str = "  sl  local_address rem_address   st\n   0: 0F02000A:01BB 00000000:0000 0A\n   1: 0F02000A:0050 00000000:0000 0A\n   2: short\n   3:\n";

fn ok(stdout: &str) -> CommandOutcome {
    CommandOutcome::Exited { success: true, stdout: stdout.to_string(), stderr: String::new() }
}

fn failed(stderr: &str) -> CommandOutcome {
    CommandOutcome::Exited { success: false, stdout: String::new(), stderr: stderr.to_string() }
}

fn listing(pid: u32) -> String {
    format!(
        "table inet filter {{\n\tchain output {{ # handle 1\n\t\ttcp sport {{ 80, 443 }} comment \"netmon-pid-{pid}-curl\" drop # handle 12\n\t\tudp sport {{ 53 }} comment \"netmon-pid-{pid}-curl\" drop # handle 13\n\t\ttcp sport 22 comment \"netmon-pid-1{pid}-x\" drop # handle 14\n\t}}\n}}\n"
    )
}

fn command(session: &Session) -> Vec<String> {
    match session.request() {
        Request::Command(args) => args,
        other => panic!("unexpected request {other:?}"),
    }
}

fn path(session: &Session) -> String {
    match session.request() {
        Request::ReadFile(path) => path,
        other => panic!("unexpected request {other:?}"),
    }
}

fn result(session: &Session) -> Result<(), String> {
    match session.request() {
        Request::Finished(result) => result,
        other => panic!("unexpected request {other:?}"),
    }
}

fn run(session: Session, outcome: CommandOutcome, book: &mut RuleBook) -> Session {
    session.advance(&Reply::Command(outcome), book)
}

fn read(session: Session, content: Option<&str>, book: &mut RuleBook) -> Session {
    session.advance(&Reply::File(content.map(|text| text.to_string())), book)
}

fn blocked(pid: u32) -> RuleBook {
    let mut book = RuleBook::new();
    let mut session = block_process(pid, "curl");
    session = run(session, ok(""), &mut book);
    session = run(session, ok(""), &mut book);
    session = run(session, ok(""), &mut book);
    for content in [Some(TCP_TABLE), None, None, None] {
        session = read(session, content, &mut book);
    }
    let done = ScriptOutcome::Exited {
        success: true,
        stdout: String::new(),
        stderr: String::new(),
    };
    session = session.advance(&Reply::Script(done), &mut book);
    session = run(session, ok(&listing(pid)), &mut book);
    assert_eq!(result(&session), Ok(()));
    book
}

#[test]
fn setup_creates_table_and_chain() {
    let mut book = RuleBook::new();
    let mut session = setup_nftables();
    assert_eq!(command(&session), vec!["add", "table", "inet", "filter"]);
    session = run(session, failed("Error: File exists"), &mut book);
    assert_eq!(
        command(&session),
        vec![
            "add", "chain", "inet", "filter", "output", "{", "type", "filter", "hook", "output",
            "priority", "0", ";", "policy", "accept", ";", "}"
        ]
    );
    session = run(session, ok(""), &mut book);
    assert_eq!(result(&session), Ok(()));
}

#[test]
fn setup_stops_at_the_first_failure() {
    let mut book = RuleBook::new();
    let session = run(setup_nftables(), failed("Operation not permitted"), &mut book);
    assert_eq!(result(&session), Err("nft command error: Operation not permitted".to_string()));
}

#[test]
fn blocking_inserts_rules_and_books_their_handles() {
    let mut book = RuleBook::new();
    let mut session = block_process(77, "cu\"rl");
    session = run(session, ok(""), &mut book);
    session = run(session, ok(""), &mut book);
    assert_eq!(command(&session), vec!["-a", "list", "chain", "inet", "filter", "output"]);
    session = run(session, ok(""), &mut book);
    assert_eq!(path(&session), "/proc/77/net/tcp");
    session = read(session, Some(TCP_TABLE), &mut book);
    assert_eq!(path(&session), "/proc/77/net/tcp6");
    session = read(session, None, &mut book);
    assert_eq!(path(&session), "/proc/77/net/udp");
    session = read(session, Some("heading\n 0: 00000000:0035 x\n"), &mut book);
    assert_eq!(path(&session), "/proc/77/net/udp6");
    session = read(session, None, &mut book);
    match session.request() {
        Request::Script(script) => assert_eq!(
            script,
            "add rule inet filter output tcp sport { 80, 443 } comment \"netmon-pid-77-cu_rl\" drop\nadd rule inet filter output udp sport { 53 } comment \"netmon-pid-77-cu_rl\" drop\n"
        ),
        other => panic!("unexpected request {other:?}"),
    }
    let done = ScriptOutcome::Exited {
        success: true,
        stdout: String::new(),
        stderr: String::new(),
    };
    session = session.advance(&Reply::Script(done), &mut book);
    assert!(book.handles(77).is_none());
    session = run(session, ok(&listing(77)), &mut book);
    assert_eq!(result(&session), Ok(()));
    assert_eq!(book.handles(77), Some(&vec![12, 13]));
}

#[test]
fn failed_blocks_book_nothing() {
    let mut book = blocked(77);
    let mut session = block_process(77, "curl");
    session = run(session, failed("denied"), &mut book);
    assert_eq!(
        command(&session),
        vec!["delete", "rule", "inet", "filter", "output", "handle", "12"]
    );
    assert!(book.handles(77).is_none());
    session = run(session, failed("gone"), &mut book);
    for _ in 0..4 {
        session = read(session, None, &mut book);
    }
    assert_eq!(result(&session), Err("No TCP/UDP ports found for PID 77".to_string()));
    assert!(book.handles(77).is_none());
}

#[test]
fn blocks_without_handles_fail() {
    let mut book = RuleBook::new();
    let mut session = block_process(5, "x");
    for _ in 0..2 {
        session = run(session, ok(""), &mut book);
    }
    session = run(session, failed("no chain"), &mut book);
    for _ in 0..4 {
        session = read(session, Some(TCP_TABLE), &mut book);
    }
    let done = ScriptOutcome::Exited {
        success: true,
        stdout: String::new(),
        stderr: String::new(),
    };
    session = session.advance(&Reply::Script(done), &mut book);
    session = run(session, ok(&listing(6)), &mut book);
    assert_eq!(
        result(&session),
        Err("Inserted rules but could not find nft handles".to_string())
    );
}

#[test]
fn unblocking_undoes_a_block() {
    let mut book = blocked(77);
    let mut session = unblock_process(77, &mut book);
    assert!(book.handles(77).is_none());
    for handle in ["12", "13"] {
        assert_eq!(
            command(&session),
            vec!["delete", "rule", "inet", "filter", "output", "handle", handle]
        );
        session = run(session, ok(""), &mut book);
    }
    assert_eq!(result(&session), Ok(()));
}

#[test]
fn unblocking_looks_for_unbooked_rules() {
    let mut book = RuleBook::new();
    let mut session = unblock_process(77, &mut book);
    assert_eq!(command(&session)[0], "-a");
    session = run(session, ok(&listing(77)), &mut book);
    assert_eq!(command(&session)[6], "12");
    session = run(session, failed("busy"), &mut book);
    assert_eq!(result(&session), Err("nft command error: busy".to_string()));

    let session = unblock_process(77, &mut book);
    let session = run(session, ok(""), &mut book);
    assert_eq!(result(&session), Ok(()));

    let session = unblock_process(77, &mut book);
    let session = run(session, failed("no such table"), &mut book);
    assert_eq!(result(&session), Err("nft list -a failed: no such table".to_string()));
}

#[test]
fn unblocking_all_flushes_the_chain() {
    let mut book = blocked(77);
    let session = unblock_all();
    assert_eq!(command(&session), vec!["flush", "chain", "inet", "filter", "output"]);
    let session = run(session, failed("denied"), &mut book);
    assert_eq!(result(&session), Err("nft command error: denied".to_string()));
    assert!(book.handles(77).is_some());
    let session = run(unblock_all(), ok(""), &mut book);
    assert_eq!(result(&session), Ok(()));
    assert!(book.handles(77).is_none());
}

#[test]
fn sessions_touch_one_process() {
    let mut book = blocked(77);
    let mut session = unblock_process(5, &mut book);
    session = run(session, ok(""), &mut book);
    assert_eq!(result(&session), Ok(()));
    assert_eq!(book.handles(77), Some(&vec![12, 13]));
}

#[test]
fn releasing_removes_own_rules_alone() {
    let foreign = "\t\ttcp sport 25 comment \"keep netmon-pid-5-x\" drop # handle 20\n\t\tudp sport 1 drop # handle 21\n";
    let chain = format!("{}{foreign}", listing(77));
    assert_eq!(own_rule_mark(), "\"netmon-pid-");
    assert_eq!(find_own_handles(&chain), vec![12, 13, 14]);

    let mut book = blocked(77);
    let mut session = run(release_rules(), ok(&chain), &mut book);
    for handle in ["12", "13", "14"] {
        assert_eq!(command(&session)[..2], ["delete", "rule"]);
        assert_eq!(command(&session)[6], handle);
        assert!(book.handles(77).is_some());
        session = run(session, ok(""), &mut book);
    }
    assert_eq!(result(&session), Ok(()));
    assert!(book.handles(77).is_none());

    // Without own rules there is nothing to delete.
    let mut book = blocked(77);
    let session = run(release_rules(), ok(foreign), &mut book);
    assert_eq!(result(&session), Ok(()));
    assert!(book.handles(77).is_none());

    // A failure ends the session and leaves the book as it is.
    let mut book = blocked(77);
    let session = run(release_rules(), failed("no"), &mut book);
    assert_eq!(result(&session), Err("nft list -a failed: no".to_string()));
    let session = run(release_rules(), ok(&chain), &mut book);
    let session = run(session, failed("busy"), &mut book);
    assert_eq!(result(&session), Err("nft command error: busy".to_string()));
    assert!(book.handles(77).is_some());
    let gone = CommandOutcome::Failed { not_found: true, reason: "gone".to_string() };
    assert_eq!(find_own_rule_handles(&gone), Err("failed to run nft list -a: gone".to_string()));
}

#[test]
fn blocking_again_replaces_the_old_rules() {
    let mut book = blocked(77);
    let mut session = block_process(77, "curl");
    session = run(session, ok(""), &mut book);
    session = run(session, failed("File exists"), &mut book);
    for handle in ["12", "13"] {
        assert_eq!(command(&session)[6], handle);
        session = run(session, ok(""), &mut book);
    }
    assert!(book.handles(77).is_none());
    for content in [Some(TCP_TABLE), None, None, None] {
        session = read(session, content, &mut book);
    }
    let script = match session.request() {
        Request::Script(script) => script,
        other => panic!("unexpected request {other:?}"),
    };
    assert_eq!(script.lines().count(), 1);
    assert!(script.contains("tcp sport { 80, 443 } comment \"netmon-pid-77-curl\" drop"));
    // A reply to another kind of request changes nothing.
    session = run(session, ok("x"), &mut book);
    let done = ScriptOutcome::Exited {
        success: true,
        stdout: String::new(),
        stderr: String::new(),
    };
    session = session.advance(&Reply::Script(done), &mut book);
    session = run(session, ok(&listing(77)), &mut book);
    assert_eq!(result(&session), Ok(()));
    assert_eq!(book.handles(77), Some(&vec![12, 13]));
}

#[test]
fn rate_limits_are_refused() {
    assert_eq!(
        rate_limit_process(77, 1024),
        Err("rate limiting is not implemented yet".to_string())
    );
}

#[test]
fn ports_are_collected_and_written_in_order() {
    let mut ports = BTreeSet::new();
    assert!(no_ports(&ports));
    collect_table_ports(&Some(TCP_TABLE.to_string()), &mut ports);
    collect_table_ports(&None, &mut ports);
    collect_table_ports(&Some(String::new()), &mut ports);
    assert!(!no_ports(&ports));
    assert_eq!(port_list(&ports), vec![80, 443]);
    assert_eq!(join_ports(&ports), "80, 443");
    assert_eq!(parse_port_from_proc_addr(&chars_of("0100007F:1F90")), Some(8080));
    assert_eq!(parse_port_from_proc_addr(&chars_of("0100007F")), None);
    assert_eq!(parse_port_from_proc_addr(&chars_of("a:b:c")), Some(11));
}

#[test]
fn rulesets_name_only_used_protocols() {
    let udp: BTreeSet<u16> = [53, 7].into_iter().collect();
    assert_eq!(
        build_block_ruleset(&BTreeSet::new(), &udp, "c"),
        "add rule inet filter output udp sport { 7, 53 } comment \"c\" drop\n"
    );
    assert_eq!(build_block_ruleset(&BTreeSet::new(), &BTreeSet::new(), "c"), "");
    assert_eq!(build_rule_comment(12, "a\"b"), "netmon-pid-12-a_b");
    assert_eq!(rule_marker(12), "netmon-pid-12-");
    assert_eq!(delete_command(9)[6], "9");
    assert_eq!(list_command(), vec!["list", "chain", "inet", "filter", "output"]);
}

#[test]
fn handles_are_found_by_their_marker() {
    assert_eq!(find_rule_handles(&listing(77), 77), vec![12, 13]);
    assert_eq!(find_rule_handles(&listing(77), 177), vec![14]);
    assert_eq!(find_rule_handles(&listing(77), 7), Vec::<u64>::new());
    assert_eq!(
        find_rule_handles("netmon-pid-7-x handle 3 # handle 4 \nnetmon-pid-7-x handle x\n", 7),
        vec![4]
    );
    assert_eq!(find_rule_handles_for_pid(&ok(&listing(77)), 77), Ok(vec![12, 13]));
    let gone = CommandOutcome::Failed { not_found: true, reason: "gone".to_string() };
    assert_eq!(
        find_rule_handles_for_pid(&gone, 77),
        Err("failed to run nft list -a: gone".to_string())
    );
}

#[test]
fn outcomes_are_judged() {
    let missing = CommandOutcome::Failed { not_found: true, reason: "x".to_string() };
    let install = "Blocking failed: nft not found. Install with: sudo apt-get install nftables";
    assert_eq!(judge_nft_command(&missing, true), Err(install.to_string()));
    assert_eq!(map_nft_spawn_error(false, "EPERM"), "failed to run nft: EPERM");
    assert_eq!(judge_nft_command(&ok(""), false), Ok(()));
    assert_eq!(judge_nft_command(&failed("File exists"), true), Ok(()));
    assert_eq!(
        judge_nft_command(&failed("File exists"), false),
        Err("nft command error: File exists".to_string())
    );
    let not_started = ScriptOutcome::NotStarted { not_found: true, reason: "x".to_string() };
    assert_eq!(judge_nft_script(&not_started), Err(install.to_string()));
    assert_eq!(
        judge_nft_script(&ScriptOutcome::WriteFailed("pipe".to_string())),
        Err("failed writing nft ruleset to stdin: pipe".to_string())
    );
    assert_eq!(
        judge_nft_script(&ScriptOutcome::WaitFailed("child".to_string())),
        Err("failed waiting on nft: child".to_string())
    );
    let exited = ScriptOutcome::Exited {
        success: false,
        stdout: "o".to_string(),
        stderr: "e".to_string(),
    };
    assert_eq!(
        judge_nft_script(&exited),
        Err("nft failed. stdout: o. stderr: e".to_string())
    );
}

#[test]
fn rules_are_listed_by_line() {
    assert_eq!(list_rules(&ok("a\nb\n")), Ok(vec!["a".to_string(), "b".to_string()]));
    assert_eq!(list_rules(&failed("no")), Err("nft list failed: no".to_string()));
    let gone = CommandOutcome::Failed { not_found: false, reason: "gone".to_string() };
    assert_eq!(list_rules(&gone), Err("failed to run nft: gone".to_string()));
}

#[test]
fn controller_errors_have_messages() {
    assert_eq!(ControllerError::Io("a".to_string()).message(), "io error: a");
    assert_eq!(ControllerError::Nft("b".to_string()).message(), "nft command failed: b");
    assert_eq!(ControllerError::Parse("c".to_string()).message(), "parse error: c");
}
