//! What holds of blocking as a whole: every port that a process uses is found
//! and dropped, and every rule that was made can be found again.

use vstd::prelude::*;

use crate::controller;
use crate::controller::ports;
use crate::controller::rules;
use crate::controller::session;
use crate::controller::session::{Reply, RequestView, SessionView, StepView};
use crate::controller::{CommandOutcome, ControllerError, ScriptOutcome};
use crate::number;
use crate::text;
use crate::text_laws;

verus! {

// ---------------------------------------------------------------------------
// Ports
// ---------------------------------------------------------------------------

/// An endpoint as the socket tables write it: an address, a colon and the four
/// hexadecimal digits of the port.
pub open spec fn endpoint(address: Seq<char>, port: u16) -> Seq<char> {
    address.push(':') + number::hex_digits(port as nat, 4)
}

/// Every port reads back from its endpoint, whatever the address is.
pub proof fn every_port_reads_back(address: Seq<char>, port: u16)
    requires
        text::free_of(address, ':'),
    ensures
        ports::endpoint_port(endpoint(address, port)) == Some(port),
{
    reveal_with_fuel(number::hex_range, 5);
    let digits = number::hex_digits(port as nat, 4);
    number::lemma_hex_digits(port as nat, 4);
    number::lemma_hex_read_back(port as nat, 4, 0xffff);
    text::lemma_split_at(address, ':', digits);
    text::lemma_split_free(address, ':');
    text::lemma_split_free(digits, ':');
    let parts = text::split_on(address.push(':') + digits, ':');
    assert(parts =~= seq![address, digits]);
}

pub proof fn lemma_hex_ink(n: nat, width: nat)
    ensures
        forall|i: int|
            0 <= i < number::hex_digits(n, width).len() ==> text_laws::is_ink(
                #[trigger] number::hex_digits(n, width)[i],
            ),
        number::hex_digits(n, width).len() == width,
    decreases width,
{
    if width > 0 {
        lemma_hex_ink(n / 16, (width - 1) as nat);
        let digits = number::hex_digits(n, width);
        let earlier = number::hex_digits(n / 16, (width - 1) as nat);
        assert forall|i: int| 0 <= i < digits.len() implies text_laws::is_ink(
            #[trigger] digits[i],
        ) by {
            if i < earlier.len() {
                assert(digits[i] == earlier[i]);
            }
        }
    }
}

/// Every row counts: a row of a socket table, after the heading, whose second
/// column is the local endpoint gives its port, whatever the other rows hold.
pub proof fn every_row_gives_its_port(
    content: String,
    lines: Seq<Seq<char>>,
    with_cr: bool,
    at: int,
    lead: Seq<char>,
    slot: Seq<char>,
    address: Seq<char>,
    port: u16,
    gap: Seq<char>,
    rest: Seq<char>,
)
    requires
        forall|i: int| 0 <= i < lines.len() ==> text_laws::is_line(#[trigger] lines[i]),
        content@ == text_laws::ended_lines(lines, with_cr),
        1 <= at < lines.len(),
        text_laws::is_gap(lead),
        text_laws::is_gap(gap),
        gap.len() > 0,
        text_laws::is_inked(slot),
        text_laws::is_inked(address),
        text::free_of(address, ':'),
        lines[at] == lead + text_laws::spaced(seq![slot, endpoint(address, port)], gap, rest),
    ensures
        ports::table_ports(Some(content)).contains(port),
{
    let none = Seq::<char>::empty();
    assert(content@ =~= text_laws::ended_lines(lines, with_cr) + none);
    text_laws::lines_read_back(lines, with_cr, none);
    let fields = seq![slot, endpoint(address, port)];
    lemma_hex_ink(port as nat, 4);
    let second = endpoint(address, port);
    assert forall|i: int| 0 <= i < second.len() implies text_laws::is_ink(#[trigger] second[i]) by {
        if i < address.len() {
            assert(second[i] == address[i]);
        } else if i > address.len() {
            assert(second[i] == number::hex_digits(port as nat, 4)[i - address.len() - 1]);
        }
    }
    assert(text_laws::is_inked(second));
    text_laws::words_read_back(lead, fields, gap, rest);
    assert(text::words(lines[at])[1] == second);
    every_port_reads_back(address, port);
    let rows = lines.skip(1);
    assert(rows[at - 1] == lines[at]);
    assert(ports::row_port(rows[at - 1]) == Some(port));
}

/// No other port counts: a port that a table gives stands, after the first
/// colon of the second column of some line after the heading, in hexadecimal.
pub proof fn only_local_ports_are_collected(content: String, port: u16)
    requires
        ports::table_ports(Some(content)).contains(port),
    ensures
        exists|at: int| #![trigger text::lines(content@)[at]]
            1 <= at < text::lines(content@).len() && {
                let columns = text::words(text::lines(content@)[at]);
                &&& columns.len() >= 2
                &&& text::split_on(columns[1], ':').len() >= 2
                &&& number::numeral(text::split_on(columns[1], ':')[1], 16, 0xffff) == Some(
                    port as nat,
                )
            },
{
    let lines = text::lines(content@);
    let rows = if lines.len() == 0 {
        lines
    } else {
        lines.skip(1)
    };
    let i = choose|i: int|
        0 <= i < rows.len() && ports::row_port(#[trigger] rows[i]) == Some(port);
    assert(lines[i + 1] == rows[i]);
}

/// A table that cannot be read gives no port, and neither does an empty one.
pub proof fn unreadable_tables_give_no_port(content: String)
    requires
        content@.len() == 0,
    ensures
        ports::table_ports(None) == Set::<u16>::empty(),
        ports::table_ports(Some(content)) == Set::<u16>::empty(),
{
    let none = Seq::<char>::empty();
    assert(content@ =~= text_laws::ended_lines(Seq::empty(), false) + none);
    text_laws::lines_read_back(Seq::empty(), false, none);
    assert(ports::table_ports(Some(content)) =~= Set::<u16>::empty());
}

proof fn lemma_joined_part(parts: Seq<Seq<char>>, sep: Seq<char>, at: int)
    requires
        0 <= at < parts.len(),
    ensures
        text::occurs(text::joined(parts, sep), parts[at]),
    decreases parts.len(),
{
    let whole = text::joined(parts, sep);
    if parts.len() == 1 {
        assert(whole.subrange(0, whole.len() as int) =~= parts[0]);
        assert(text::stands_at(whole, parts[at], 0));
    } else if at == parts.len() - 1 {
        let from = (text::joined(parts.drop_last(), sep) + sep).len() as int;
        assert(whole.subrange(from, from + parts[at].len()) =~= parts[at]);
        assert(text::stands_at(whole, parts[at], from));
    } else {
        lemma_joined_part(parts.drop_last(), sep, at);
        assert(parts.drop_last()[at] == parts[at]);
        let before = text::joined(parts.drop_last(), sep);
        let from = choose|from: int| text::stands_at(before, parts[at], from);
        assert(whole.subrange(from, from + parts[at].len()) =~= before.subrange(
            from,
            from + parts[at].len(),
        ));
        assert(text::stands_at(whole, parts[at], from));
    }
}

proof fn lemma_occurs_within(before: Seq<char>, middle: Seq<char>, after: Seq<char>, s: Seq<char>)
    requires
        text::occurs(middle, s),
    ensures
        text::occurs(before + middle + after, s),
{
    let whole = before + middle + after;
    let at = choose|at: int| text::stands_at(middle, s, at);
    let from = before.len() + at;
    assert(whole.subrange(from, from + s.len()) =~= middle.subrange(at, at + s.len()));
    assert(text::stands_at(whole, s, from));
}

/// Every port of a set is named in the list that is written for the set: the
/// list has one part for each port, in ascending order.
pub proof fn written_lists_name_every_port(list: Seq<u16>, set: Set<u16>)
    requires
        list.len() > 0,
        list.to_set() == set,
        forall|i: int, j: int| 0 <= i < j < list.len() ==> list[i] < list[j],
    ensures
        ports::ports_text(set) == text::joined(
            Seq::new(list.len(), |i: int| number::decimal(list[i] as nat)),
            ", "@,
        ),
        forall|port: u16|
            set.contains(port) ==> text::occurs(
                ports::ports_text(set),
                #[trigger] number::decimal(port as nat),
            ),
{
    ports::ascending_list_is_unique(list, ports::ascending(set), set);
    let parts = list.map_values(|port: u16| number::decimal(port as nat));
    assert(parts =~= Seq::new(list.len(), |i: int| number::decimal(list[i] as nat)));
    assert forall|port: u16| set.contains(port) implies text::occurs(
        ports::ports_text(set),
        #[trigger] number::decimal(port as nat),
    ) by {
        assert(list.to_set().contains(port));
        let at = choose|at: int| 0 <= at < list.len() && list[at] == port;
        lemma_joined_part(parts, ", "@, at);
        assert(parts[at] == number::decimal(port as nat));
    }
}

// ---------------------------------------------------------------------------
// Rules
// ---------------------------------------------------------------------------

/// A rule drops what leaves from its ports, in the output chain of the table
/// for internet traffic.
pub proof fn rules_drop_in_the_output_chain(
    protocol: Seq<char>,
    from: Set<u16>,
    comment: Seq<char>,
)
    ensures
        rules::drop_rule(protocol, from, comment) == "add rule inet filter output "@ + protocol
            + " sport { "@ + ports::ports_text(from) + " } comment \""@ + comment + "\" drop\n"@,
{
    reveal_strlit("add rule ");
    reveal_strlit("inet");
    reveal_strlit(" ");
    reveal_strlit("filter");
    reveal_strlit("output");
    reveal_strlit("add rule inet filter output ");
    assert("add rule "@ + rules::NFT_FAMILY@ + " "@ + rules::NFT_TABLE_NAME@ + " "@
        + rules::NFT_OUTPUT_CHAIN@ + " "@ =~= "add rule inet filter output "@);
}

/// A ruleset has a rule for each protocol with ports and none for the others,
/// TCP first.
pub proof fn each_used_protocol_has_one_rule(tcp: Set<u16>, udp: Set<u16>, comment: Seq<char>)
    ensures
        ({
            let ruleset = rules::block_ruleset(tcp, udp, comment);
            let tcp_rule = rules::drop_rule("tcp"@, tcp, comment);
            let udp_rule = rules::drop_rule("udp"@, udp, comment);
            let none = Set::<u16>::empty();
            &&& tcp != none && udp != none ==> ruleset == tcp_rule + udp_rule
            &&& tcp != none && udp == none ==> ruleset == tcp_rule
            &&& tcp == none && udp != none ==> ruleset == udp_rule
            &&& tcp == none && udp == none ==> ruleset.len() == 0
        }),
{
    let tcp_rule = rules::drop_rule("tcp"@, tcp, comment);
    let udp_rule = rules::drop_rule("udp"@, udp, comment);
    assert(tcp_rule + Seq::empty() =~= tcp_rule);
    assert(Seq::empty() + udp_rule =~= udp_rule);
}

/// Every port that the tables of a process give is named in the rules that
/// block it.
pub proof fn every_used_port_is_dropped(
    list: Seq<u16>,
    tcp: Set<u16>,
    udp: Set<u16>,
    comment: Seq<char>,
    is_tcp: bool,
    port: u16,
)
    requires
        list.to_set() == (if is_tcp {
            tcp
        } else {
            udp
        }),
        forall|i: int, j: int| 0 <= i < j < list.len() ==> list[i] < list[j],
        list.contains(port),
    ensures
        text::occurs(rules::block_ruleset(tcp, udp, comment), number::decimal(port as nat)),
{
    let set = if is_tcp {
        tcp
    } else {
        udp
    };
    let protocol = if is_tcp {
        "tcp"@
    } else {
        "udp"@
    };
    assert(list.to_set().contains(port));
    written_lists_name_every_port(list, set);
    let digits = number::decimal(port as nat);
    let rule = rules::drop_rule(protocol, set, comment);
    let head = "add rule "@ + rules::NFT_FAMILY@ + " "@ + rules::NFT_TABLE_NAME@ + " "@
        + rules::NFT_OUTPUT_CHAIN@ + " "@ + protocol + " sport { "@;
    let tail = " } comment \""@ + comment + "\" drop\n"@;
    lemma_occurs_within(head, ports::ports_text(set), tail, digits);
    assert(rule =~= head + ports::ports_text(set) + tail);
    let ruleset = rules::block_ruleset(tcp, udp, comment);
    each_used_protocol_has_one_rule(tcp, udp, comment);
    assert(set.contains(port));
    assert(set != Set::<u16>::empty());
    let none = Seq::<char>::empty();
    if is_tcp {
        let other = if udp == Set::<u16>::empty() {
            none
        } else {
            rules::drop_rule("udp"@, udp, comment)
        };
        lemma_occurs_within(none, rule, other, digits);
        assert(none + rule + other =~= ruleset);
    } else {
        let other = if tcp == Set::<u16>::empty() {
            none
        } else {
            rules::drop_rule("tcp"@, tcp, comment)
        };
        lemma_occurs_within(other, rule, none, digits);
        assert(other + rule + none =~= ruleset);
    }
}

/// The name of the process stands in the comment, and so does its id; only
/// quotation marks are replaced.
pub proof fn comments_name_the_process(pid: u32, process_name: Seq<char>)
    ensures
        rules::rule_comment(pid, process_name) == "netmon-pid-"@ + number::decimal(pid as nat)
            + "-"@ + text::with_replaced(process_name, '"', '_'),
        text::free_of(process_name, '"') ==> text::ends_in(
            rules::rule_comment(pid, process_name),
            process_name,
        ),
{
    let comment = rules::rule_comment(pid, process_name);
    if text::free_of(process_name, '"') {
        assert(text::with_replaced(process_name, '"', '_') =~= process_name);
        assert(comment.skip(comment.len() - process_name.len()) =~= process_name);
    }
}

proof fn lemma_no_later_handle(before: Seq<char>, digits: Seq<char>, trail: Seq<char>, later: int)
    requires
        forall|i: int| 0 <= i < digits.len() ==> 48 <= #[trigger] digits[i] as int <= 57,
        text_laws::is_gap(trail),
        before.len() < later,
    ensures
        !text::stands_at(before + "handle "@ + digits + trail, "handle "@, later),
{
    reveal_strlit("handle ");
    let line = before + "handle "@ + digits + trail;
    let from = before.len() as int;
    if text::stands_at(line, "handle "@, later) {
        assert(line.subrange(later, later + 7)[0] == 'h');
        assert(line[later] == 'h');
        if later < from + 7 {
            assert(line[later] == "handle "@[later - from]);
        } else if later < from + 7 + digits.len() {
            assert(line[later] == digits[later - from - 7]);
        } else {
            let at = later - from - 7 - digits.len();
            assert(line[later] == trail[at]);
            assert(text_laws::is_blank(trail[at]));
        }
    }
}

/// Every rule of a process is found again by its handle: a listed line with the
/// comment of the rule and, at its end, the handle gives that handle.
pub proof fn listed_rules_give_their_handles(
    before: Seq<char>,
    pid: u32,
    process_name: Seq<char>,
    between: Seq<char>,
    handle: u64,
    trail: Seq<char>,
)
    requires
        text_laws::is_gap(trail),
    ensures
        rules::line_handle(
            before + rules::rule_comment(pid, process_name) + between + "handle "@
                + number::decimal(handle as nat) + trail,
            rules::marker(pid),
        ) == Some(handle),
{
    reveal_strlit("handle ");
    let comment = rules::rule_comment(pid, process_name);
    let mark = rules::marker(pid);
    let digits = number::decimal(handle as nat);
    let head = before + comment + between;
    let line = head + "handle "@ + digits + trail;
    number::lemma_decimal_digits(handle as nat);

    let from = before.len() as int;
    assert(line.subrange(from, from + mark.len()) =~= mark);
    assert(text::stands_at(line, mark, from));

    let at = head.len() as int;
    assert(line.subrange(at, at + 7) =~= "handle "@);
    assert(text::stands_at(line, "handle "@, at));
    assert forall|later: int| at < later implies !text::stands_at(line, "handle "@, later) by {
        lemma_no_later_handle(head, digits, trail, later);
    }
    assert(text::last_at(line, "handle "@, at));
    let found = rules::last_position(line, "handle "@);
    assert(text::last_at(line, "handle "@, found));
    assert(found == at) by {
        if found < at {
            assert(!text::stands_at(line, "handle "@, at));
        } else if at < found {
            assert(!text::stands_at(line, "handle "@, found));
        }
    }
    assert(line.skip(at + 7) =~= digits + trail);
    let none = Seq::<char>::empty();
    assert(none + digits + trail =~= digits + trail);
    text_laws::trimming_takes_the_blanks_around(none, digits, trail);
    number::lemma_decimal_read_back(handle as nat, u64::MAX as nat);
}

/// No listed rule is overlooked: the handle of every line that has one is among
/// those that are found.
pub proof fn every_marked_line_gives_its_handle(lines: Seq<Seq<char>>, mark: Seq<char>, at: int)
    requires
        0 <= at < lines.len(),
        rules::line_handle(lines[at], mark) is Some,
    ensures
        rules::lines_handles(lines, mark).contains(rules::line_handle(lines[at], mark)->0),
    decreases lines.len(),
{
    let handle = rules::line_handle(lines[at], mark)->0;
    let before = rules::lines_handles(lines.drop_last(), mark);
    let all = rules::lines_handles(lines, mark);
    if at < lines.len() - 1 {
        assert(lines.drop_last()[at] == lines[at]);
        every_marked_line_gives_its_handle(lines.drop_last(), mark, at);
        let i = choose|i: int| 0 <= i < before.len() && before[i] == handle;
        assert(all[i] == handle);
    } else {
        assert(all.last() == handle);
    }
}

/// A rule is deleted by its own handle, whatever the handle is.
pub proof fn deletions_name_the_handle(handle: u64)
    ensures
        rules::delete_args(handle) == seq![
            "delete"@,
            "rule"@,
            "inet"@,
            "filter"@,
            "output"@,
            "handle"@,
            number::decimal(handle as nat),
        ],
        number::numeral(rules::delete_args(handle).last(), 10, u64::MAX as nat) == Some(
            handle as nat,
        ),
{
    number::lemma_decimal_read_back(handle as nat, u64::MAX as nat);
    assert(rules::delete_args(handle) =~= seq![
        "delete"@,
        "rule"@,
        "inet"@,
        "filter"@,
        "output"@,
        "handle"@,
        number::decimal(handle as nat),
    ]);
}

// ---------------------------------------------------------------------------
// Outcomes
// ---------------------------------------------------------------------------

/// A command that ran without success has failed, whatever it printed, and the
/// message ends in what it printed; only where what should be made may exist
/// already is "File exists" no failure.
pub proof fn failures_are_told(stdout: String, stderr: String, reason: String)
    ensures
        ({
            let ran = CommandOutcome::Exited { success: false, stdout, stderr };
            let strict = controller::command_result(ran, false);
            let lenient = controller::command_result(ran, true);
            &&& strict matches Err(message) && text::ends_in(message, stderr@)
            &&& lenient is Ok <==> text::occurs(stderr@, "File exists"@)
            &&& lenient is Err ==> lenient == strict
        }),
        controller::command_result(
            CommandOutcome::Failed { not_found: false, reason },
            true,
        ) matches Err(message) && text::ends_in(message, reason@),
        controller::script_result(ScriptOutcome::Exited { success: false, stdout, stderr })
            matches Err(message) && text::ends_in(message, stderr@) && text::occurs(
            message,
            stdout@,
        ),
        controller::script_result(ScriptOutcome::WriteFailed(reason)) is Err,
        controller::script_result(ScriptOutcome::WaitFailed(reason)) is Err,
        controller::command_result(
            CommandOutcome::Exited { success: true, stdout, stderr },
            false,
        ) is Ok,
        controller::script_result(
            ScriptOutcome::Exited { success: true, stdout, stderr },
        ) is Ok,
{
    let first = "nft command error: "@ + stderr@;
    assert(first.skip(first.len() - stderr@.len()) =~= stderr@);
    let second = "failed to run nft: "@ + reason@;
    assert(second.skip(second.len() - reason@.len()) =~= reason@);
    let head = "nft failed. stdout: "@ + stdout@ + ". stderr: "@;
    let third = head + stderr@;
    assert(third.skip(third.len() - stderr@.len()) =~= stderr@);
    let at = "nft failed. stdout: "@.len() as int;
    assert(third.subrange(at, at + stdout@.len()) =~= stdout@);
    assert(text::stands_at(third, stdout@, at));
}

/// Listing shows every line of the chain, and finds every handle in a listing
/// that succeeded.
pub proof fn listings_are_read_whole(stdout: String, stderr: String, pid: u32)
    ensures
        ({
            let ran = CommandOutcome::Exited { success: true, stdout, stderr };
            &&& controller::listing_result(ran) == Ok::<Seq<Seq<char>>, Seq<char>>(
                text::lines(stdout@),
            )
            &&& controller::handles_result(ran, pid) == Ok::<Seq<u64>, Seq<char>>(
                rules::lines_handles(text::lines(stdout@), rules::marker(pid)),
            )
        }),
        controller::listing_result(
            CommandOutcome::Exited { success: false, stdout, stderr },
        ) is Err,
        controller::handles_result(
            CommandOutcome::Exited { success: false, stdout, stderr },
            pid,
        ) is Err,
{
}

// ---------------------------------------------------------------------------
// Sessions
// ---------------------------------------------------------------------------

/// Each table is read for the protocol that it belongs to: the first two give
/// TCP ports, the others UDP ports, each adds to what was found, and nothing is
/// lost on the way.
pub proof fn tables_add_ports_to_their_protocol(
    session: SessionView,
    table: int,
    tcp: Set<u16>,
    udp: Set<u16>,
    content: Option<String>,
    book: Map<u32, Seq<u64>>,
    port: u16,
)
    requires
        session.step == (StepView::ReadPorts { table, tcp, udp }),
        0 <= table < 3,
    ensures
        ({
            let next = session::advanced(session, Reply::File(content), book).0;
            let read = ports::table_ports(content).contains(port);
            next.step matches StepView::ReadPorts { table: later, tcp: more_tcp, udp: more_udp }
                && {
                &&& later == table + 1
                &&& more_tcp.contains(port) <==> tcp.contains(port) || (table < 2 && read)
                &&& more_udp.contains(port) <==> udp.contains(port) || (table >= 2 && read)
            }
        }),
{
}

/// The tables are asked for one by one, under the directory of the process.
pub proof fn all_four_tables_are_asked_for(session: SessionView, table: int)
    requires
        session.step matches StepView::ReadPorts { table: current, .. } && current == table,
        0 <= table < 4,
    ensures
        session::request_of(session) == RequestView::ReadFile(
            "/proc/"@ + number::decimal(session.pid as nat) + "/net/"@ + (if table == 0 {
                "tcp"@
            } else if table == 1 {
                "tcp6"@
            } else if table == 2 {
                "udp"@
            } else {
                "udp6"@
            }),
        ),
{
}

/// A process without any port is not blocked, and the message names it; a
/// process with one is.
pub proof fn only_processes_with_ports_are_blocked(
    session: SessionView,
    tcp: Set<u16>,
    udp: Set<u16>,
    port: u16,
)
    ensures
        session::after_ports(session, Set::empty(), Set::empty()).step == (StepView::Done {
            result: Err(
                "No TCP/UDP ports found for PID "@ + number::decimal(session.pid as nat),
            ),
        }),
        tcp.contains(port) || udp.contains(port) ==> session::after_ports(
            session,
            tcp,
            udp,
        ).step == (StepView::InsertRules {
            script: rules::block_ruleset(
                tcp,
                udp,
                rules::rule_comment(session.pid, session.name),
            ),
        }),
{
}

/// The command did not succeed.
pub open spec fn went_wrong(outcome: CommandOutcome) -> bool {
    match outcome {
        CommandOutcome::Exited { success, .. } => !success,
        CommandOutcome::Failed { .. } => true,
    }
}

/// The command succeeded.
pub open spec fn went_well(outcome: CommandOutcome) -> bool {
    outcome matches CommandOutcome::Exited { success, .. } && success
}

/// The session has nothing more to do and ended in success.
pub open spec fn has_succeeded(session: SessionView) -> bool {
    session::request_of(session) matches RequestView::Finished(result) && result is Ok
}

/// The session has nothing more to do and ended in failure.
pub open spec fn has_failed(session: SessionView) -> bool {
    session::request_of(session) matches RequestView::Finished(result) && result is Err
}

/// What a session asks for is asked for in the words of `nft`: the one table and
/// its output chain, which accepts what no rule drops.
pub proof fn commands_are_about_one_chain()
    ensures
        rules::add_table_args() == seq!["add"@, "table"@, "inet"@, "filter"@],
        rules::add_chain_args().take(5) == seq![
            "add"@,
            "chain"@,
            "inet"@,
            "filter"@,
            "output"@,
        ],
        rules::add_chain_args().skip(5) == seq![
            "{"@,
            "type"@,
            "filter"@,
            "hook"@,
            "output"@,
            "priority"@,
            "0"@,
            ";"@,
            "policy"@,
            "accept"@,
            ";"@,
            "}"@,
        ],
        rules::flush_args() == seq!["flush"@, "chain"@, "inet"@, "filter"@, "output"@],
        rules::list_args() == seq!["list"@, "chain"@, "inet"@, "filter"@, "output"@],
        rules::list_handles_args() == seq!["-a"@] + rules::list_args(),
        rules::own_mark() == "\""@ + "netmon-pid-"@,
{
    assert(rules::add_chain_args().take(5) =~= seq![
        "add"@,
        "chain"@,
        "inet"@,
        "filter"@,
        "output"@,
    ]);
    assert(rules::add_chain_args().skip(5) =~= seq![
        "{"@,
        "type"@,
        "filter"@,
        "hook"@,
        "output"@,
        "priority"@,
        "0"@,
        ";"@,
        "policy"@,
        "accept"@,
        ";"@,
        "}"@,
    ]);
    assert(rules::list_handles_args() =~= seq!["-a"@] + rules::list_args());
}

/// Setting up makes the table and then the chain, ends in success where both are
/// there, and in failure at the first that cannot be made.
pub proof fn setting_up_makes_table_and_chain(
    session: SessionView,
    outcome: CommandOutcome,
    book: Map<u32, Seq<u64>>,
)
    requires
        session.goal is Setup,
    ensures
        session.step is AddTable && went_well(outcome) ==> session::request_of(
            session::advanced(session, Reply::Command(outcome), book).0,
        ) == RequestView::Command(rules::add_chain_args()),
        session.step is AddChain && went_well(outcome) ==> has_succeeded(
            session::advanced(session, Reply::Command(outcome), book).0,
        ),
        (session.step is AddTable || session.step is AddChain)
            && controller::command_result(outcome, true) is Err ==> has_failed(
            session::advanced(session, Reply::Command(outcome), book).0,
        ),
        session.step is AddTable ==> session::request_of(session) == RequestView::Command(
            rules::add_table_args(),
        ),
{
}

/// A block goes on to the old rules however the setup went: those in the book
/// are deleted, and without any the chain is listed. They leave the book at once.
pub proof fn blocking_goes_on_to_the_old_rules(
    session: SessionView,
    outcome: CommandOutcome,
    book: Map<u32, Seq<u64>>,
)
    requires
        session.goal is Block,
        session.step is AddChain || (session.step is AddTable && controller::command_result(
            outcome,
            true,
        ) is Err),
    ensures
        ({
            let (next, after) = session::advanced(session, Reply::Command(outcome), book);
            let pid = session.pid;
            &&& after == book.remove(pid)
            &&& book.contains_key(pid) && book[pid].len() > 0 ==> session::request_of(next)
                == RequestView::Command(rules::delete_args(book[pid][0]))
            &&& !book.contains_key(pid) || book[pid].len() == 0 ==> session::request_of(next)
                == RequestView::Command(rules::list_handles_args())
        }),
{
}

/// A block goes on to the ports of the process however the removal of old rules
/// went.
pub proof fn blocking_goes_on_to_the_ports(
    session: SessionView,
    outcome: CommandOutcome,
    book: Map<u32, Seq<u64>>,
)
    requires
        session.goal is Block,
        session.step is ListTracked || session.step is Delete,
        went_wrong(outcome),
    ensures
        ({
            let (next, after) = session::advanced(session, Reply::Command(outcome), book);
            &&& after == book
            &&& session::request_of(next) == RequestView::ReadFile(
                "/proc/"@ + number::decimal(session.pid as nat) + "/net/"@ + "tcp"@,
            )
            &&& next.step == (StepView::ReadPorts {
                table: 0,
                tcp: Set::empty(),
                udp: Set::empty(),
            })
        }),
{
}

/// Unblocking and releasing end in failure at the first command that fails, and
/// the book stays as it is.
pub proof fn failed_removals_are_told(
    session: SessionView,
    outcome: CommandOutcome,
    book: Map<u32, Seq<u64>>,
)
    requires
        session.goal is Unblock || session.goal is Release,
        session.step is ListTracked || session.step is Delete,
        went_wrong(outcome),
    ensures
        has_failed(session::advanced(session, Reply::Command(outcome), book).0),
        session::advanced(session, Reply::Command(outcome), book).1 == book,
{
}

/// What a listing shows is deleted: a session that looks for rules goes on with
/// the first one that it finds, and where there is none it is done with them.
pub proof fn listed_rules_are_deleted(
    session: SessionView,
    stdout: String,
    stderr: String,
    book: Map<u32, Seq<u64>>,
)
    requires
        session.step is ListTracked,
    ensures
        ({
            let listing = CommandOutcome::Exited { success: true, stdout, stderr };
            let mark = if session.goal is Release {
                "\""@ + "netmon-pid-"@
            } else {
                rules::marker(session.pid)
            };
            let found = rules::lines_handles(text::lines(stdout@), mark);
            let (next, after) = session::advanced(session, Reply::Command(listing), book);
            &&& found.len() > 0 ==> after == book && next.step == (StepView::Delete {
                handles: found,
                at: 0,
            }) && session::request_of(next) == RequestView::Command(rules::delete_args(found[0]))
            &&& found.len() == 0 && session.goal is Unblock ==> after == book && has_succeeded(next)
            &&& found.len() == 0 && session.goal is Release ==> after == Map::<
                u32,
                Seq<u64>,
            >::empty() && has_succeeded(next)
            &&& found.len() == 0 && session.goal is Block ==> after == book && next.step
                is ReadPorts
        }),
{
}

/// Emptying the chain empties the book, and where it fails the book stays.
pub proof fn emptying_the_chain_empties_the_book(
    session: SessionView,
    outcome: CommandOutcome,
    book: Map<u32, Seq<u64>>,
)
    requires
        session.step is Flush,
    ensures
        session::request_of(session) == RequestView::Command(rules::flush_args()),
        ({
            let (next, after) = session::advanced(session, Reply::Command(outcome), book);
            &&& went_well(outcome) ==> has_succeeded(next) && after == Map::<
                u32,
                Seq<u64>,
            >::empty()
            &&& went_wrong(outcome) ==> has_failed(next) && after == book
        }),
{
}

/// Rules that could not be inserted, or not be found again, are a failure, and
/// the process is not entered in the book.
pub proof fn failed_insertions_are_told(
    session: SessionView,
    script: ScriptOutcome,
    listing: CommandOutcome,
    book: Map<u32, Seq<u64>>,
)
    ensures
        session.step is InsertRules && !(script matches ScriptOutcome::Exited { success: true, .. })
            ==> {
            &&& has_failed(session::advanced(session, Reply::Script(script), book).0)
            &&& session::advanced(session, Reply::Script(script), book).1 == book
        },
        session.step is ListInserted && went_wrong(listing) ==> {
            &&& has_failed(session::advanced(session, Reply::Command(listing), book).0)
            &&& session::advanced(session, Reply::Command(listing), book).1 == book
        },
        session.step is ListInserted && controller::handles_result(listing, session.pid) == Ok::<
            Seq<u64>,
            Seq<char>,
        >(Seq::empty()) ==> {
            &&& has_failed(session::advanced(session, Reply::Command(listing), book).0)
            &&& session::advanced(session, Reply::Command(listing), book).1 == book
        },
{
}

/// A reply to something else, and any reply to a session that has ended, changes
/// nothing.
pub proof fn stray_replies_change_nothing(
    session: SessionView,
    reply: Reply,
    book: Map<u32, Seq<u64>>,
)
    requires
        match session::request_of(session) {
            RequestView::Command(_) => !(reply is Command),
            RequestView::Script(_) => !(reply is Script),
            RequestView::ReadFile(_) => !(reply is File),
            RequestView::Finished(_) => true,
        },
    ensures
        session::advanced(session, reply, book) == (session, book),
{
}

/// What went wrong with a command is said with its reason.
pub proof fn controller_errors_tell_their_reason(reason: String, stdout: String, stderr: String)
    ensures
        controller::controller_message(ControllerError::Io(reason)) == "io error: "@ + reason@,
        controller::controller_message(ControllerError::Nft(reason)) == "nft command failed: "@
            + reason@,
        controller::controller_message(ControllerError::Parse(reason)) == "parse error: "@
            + reason@,
        controller::start_failure(true, reason@)
            == "Blocking failed: nft not found. Install with: sudo apt-get install nftables"@,
        controller::start_failure(false, reason@) == "failed to run nft: "@ + reason@,
        controller::handles_result(
            CommandOutcome::Exited { success: false, stdout, stderr },
            0,
        ) == Err::<Seq<u64>, Seq<char>>("nft list -a failed: "@ + stderr@),
        controller::own_handles_result(
            CommandOutcome::Exited { success: false, stdout, stderr },
        ) == Err::<Seq<u64>, Seq<char>>("nft list -a failed: "@ + stderr@),
        controller::listing_result(
            CommandOutcome::Exited { success: false, stdout, stderr },
        ) == Err::<Seq<Seq<char>>, Seq<char>>("nft list failed: "@ + stderr@),
{
}

} // verus!
