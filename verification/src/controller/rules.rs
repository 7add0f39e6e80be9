//! The text of rules: what is handed to `nft`, and what its listings say.

use std::collections::BTreeSet;

use vstd::prelude::*;
use vstd::slice::slice_subrange;

use crate::controller::ports;
use crate::number;
use crate::text;

verus! {

/// Table that the rules stand in.
pub const NFT_TABLE_NAME: &'static str = "filter";

/// Family of the table.
pub const NFT_FAMILY: &'static str = "inet";

/// Chain that outgoing packets pass.
pub const NFT_OUTPUT_CHAIN: &'static str = "output";

/// Start of the comment that marks a rule as belonging to a process.
pub const RULE_COMMENT_PREFIX: &'static str = "netmon-pid-";

/// Word before the handle of a rule in a listing.
pub const HANDLE_WORD: &'static str = "handle ";

// ---------------------------------------------------------------------------
// Commands
// ---------------------------------------------------------------------------

/// The arguments that create the table.
pub open spec fn add_table_args() -> Seq<Seq<char>> {
    seq!["add"@, "table"@, NFT_FAMILY@, NFT_TABLE_NAME@]
}

/// The arguments that create the chain.
pub open spec fn add_chain_args() -> Seq<Seq<char>> {
    seq![
        "add"@,
        "chain"@,
        NFT_FAMILY@,
        NFT_TABLE_NAME@,
        NFT_OUTPUT_CHAIN@,
        "{"@,
        "type"@,
        "filter"@,
        "hook"@,
        NFT_OUTPUT_CHAIN@,
        "priority"@,
        "0"@,
        ";"@,
        "policy"@,
        "accept"@,
        ";"@,
        "}"@,
    ]
}

/// The arguments that delete a rule.
pub open spec fn delete_args(handle: u64) -> Seq<Seq<char>> {
    seq![
        "delete"@,
        "rule"@,
        NFT_FAMILY@,
        NFT_TABLE_NAME@,
        NFT_OUTPUT_CHAIN@,
        "handle"@,
        number::decimal(handle as nat),
    ]
}

/// The arguments that empty the chain.
pub open spec fn flush_args() -> Seq<Seq<char>> {
    seq!["flush"@, "chain"@, NFT_FAMILY@, NFT_TABLE_NAME@, NFT_OUTPUT_CHAIN@]
}

/// The arguments that list the chain with its handles.
pub open spec fn list_handles_args() -> Seq<Seq<char>> {
    seq!["-a"@, "list"@, "chain"@, NFT_FAMILY@, NFT_TABLE_NAME@, NFT_OUTPUT_CHAIN@]
}

/// The arguments that list the chain.
pub open spec fn list_args() -> Seq<Seq<char>> {
    seq!["list"@, "chain"@, NFT_FAMILY@, NFT_TABLE_NAME@, NFT_OUTPUT_CHAIN@]
}

/// Turns words into arguments.
fn owned_args(words: &[&str]) -> (args: Vec<String>)
    ensures
        text::string_texts(args@) == words@.map_values(|word: &str| word@),
{
    let mut args: Vec<String> = Vec::new();
    let mut i: usize = 0;
    while i < words.len()
        invariant
            i <= words@.len(),
            args@.len() == i,
            forall|j: int| 0 <= j < i ==> (#[trigger] args@[j])@ == words@[j]@,
        decreases words@.len() - i,
    {
        args.push(words[i].to_string());
        i += 1;
    }
    assert(text::string_texts(args@) =~= words@.map_values(|word: &str| word@));
    args
}

/// Makes up the command that creates the table.
pub fn add_table_command() -> (args: Vec<String>)
    ensures
        text::string_texts(args@) == add_table_args(),
{
    let args = owned_args(&["add", "table", NFT_FAMILY, NFT_TABLE_NAME]);
    assert(text::string_texts(args@) =~= add_table_args());
    args
}

/// Makes up the command that creates the chain.
pub fn add_chain_command() -> (args: Vec<String>)
    ensures
        text::string_texts(args@) == add_chain_args(),
{
    let args = owned_args(
        &[
            "add",
            "chain",
            NFT_FAMILY,
            NFT_TABLE_NAME,
            NFT_OUTPUT_CHAIN,
            "{",
            "type",
            "filter",
            "hook",
            NFT_OUTPUT_CHAIN,
            "priority",
            "0",
            ";",
            "policy",
            "accept",
            ";",
            "}",
        ],
    );
    assert(text::string_texts(args@) =~= add_chain_args());
    args
}

/// Makes up the command that deletes a rule.
pub fn delete_command(handle: u64) -> (args: Vec<String>)
    ensures
        text::string_texts(args@) == delete_args(handle),
{
    let number = number::decimal_text(handle);
    let args = owned_args(
        &[
            "delete",
            "rule",
            NFT_FAMILY,
            NFT_TABLE_NAME,
            NFT_OUTPUT_CHAIN,
            "handle",
            number.as_str(),
        ],
    );
    assert(text::string_texts(args@) =~= delete_args(handle));
    args
}

/// Makes up the command that empties the chain.
pub fn flush_command() -> (args: Vec<String>)
    ensures
        text::string_texts(args@) == flush_args(),
{
    let args = owned_args(&["flush", "chain", NFT_FAMILY, NFT_TABLE_NAME, NFT_OUTPUT_CHAIN]);
    assert(text::string_texts(args@) =~= flush_args());
    args
}

/// Makes up the command that lists the chain with its handles.
pub fn list_handles_command() -> (args: Vec<String>)
    ensures
        text::string_texts(args@) == list_handles_args(),
{
    let args = owned_args(&["-a", "list", "chain", NFT_FAMILY, NFT_TABLE_NAME, NFT_OUTPUT_CHAIN]);
    assert(text::string_texts(args@) =~= list_handles_args());
    args
}

/// Makes up the command that lists the chain.
pub fn list_command() -> (args: Vec<String>)
    ensures
        text::string_texts(args@) == list_args(),
{
    let args = owned_args(&["list", "chain", NFT_FAMILY, NFT_TABLE_NAME, NFT_OUTPUT_CHAIN]);
    assert(text::string_texts(args@) =~= list_args());
    args
}

// ---------------------------------------------------------------------------
// Rules
// ---------------------------------------------------------------------------

/// What the comment of every rule of a process begins with.
pub open spec fn marker(pid: u32) -> Seq<char> {
    RULE_COMMENT_PREFIX@ + number::decimal(pid as nat) + "-"@
}

/// What stands in a listed line of every rule that is made here, whatever
/// process it is for: the beginning of the quoted comment.
pub open spec fn own_mark() -> Seq<char> {
    "\""@ + RULE_COMMENT_PREFIX@
}

/// The comment of the rules of a process. Quotation marks in the name become
/// underscores.
pub open spec fn rule_comment(pid: u32, process_name: Seq<char>) -> Seq<char> {
    marker(pid) + text::with_replaced(process_name, '"', '_')
}

/// The rule that drops packets from the given ports.
pub open spec fn drop_rule(protocol: Seq<char>, from: Set<u16>, comment: Seq<char>) -> Seq<char> {
    "add rule "@ + NFT_FAMILY@ + " "@ + NFT_TABLE_NAME@ + " "@ + NFT_OUTPUT_CHAIN@ + " "@ + protocol
        + " sport { "@ + ports::ports_text(from) + " } comment \""@ + comment + "\" drop\n"@
}

/// The rules that block the given ports: one for each protocol that has any.
pub open spec fn block_ruleset(tcp: Set<u16>, udp: Set<u16>, comment: Seq<char>) -> Seq<char> {
    let tcp_rule = if tcp == Set::<u16>::empty() {
        Seq::empty()
    } else {
        drop_rule("tcp"@, tcp, comment)
    };
    let udp_rule = if udp == Set::<u16>::empty() {
        Seq::empty()
    } else {
        drop_rule("udp"@, udp, comment)
    };
    tcp_rule + udp_rule
}

/// Writes the marker of a process.
pub fn rule_marker(pid: u32) -> (text: String)
    ensures
        text@ == marker(pid),
{
    let mut text = RULE_COMMENT_PREFIX.to_string();
    number::push_decimal(&mut text, pid as u64);
    text.append("-");
    text
}

/// Writes what marks every rule that is made here.
pub fn own_rule_mark() -> (text: String)
    ensures
        text@ == own_mark(),
{
    text::followed_by("\"", RULE_COMMENT_PREFIX)
}

/// Writes the comment of the rules of a process.
pub fn build_rule_comment(pid: u32, process_name: &str) -> (comment: String)
    ensures
        comment@ == rule_comment(pid, process_name@),
{
    let safe_name = text::replace_char(process_name, '"', '_');
    let mut comment = rule_marker(pid);
    comment.append(safe_name.as_str());
    comment
}

/// Appends the rule that drops packets from the given ports.
fn append_drop_rule(ruleset: &mut String, protocol: &str, from: &BTreeSet<u16>, comment: &str)
    ensures
        final(ruleset)@ == old(ruleset)@ + drop_rule(protocol@, from@, comment@),
{
    let list = ports::join_ports(from);
    ruleset.append("add rule ");
    ruleset.append(NFT_FAMILY);
    ruleset.append(" ");
    ruleset.append(NFT_TABLE_NAME);
    ruleset.append(" ");
    ruleset.append(NFT_OUTPUT_CHAIN);
    ruleset.append(" ");
    ruleset.append(protocol);
    ruleset.append(" sport { ");
    ruleset.append(list.as_str());
    ruleset.append(" } comment \"");
    ruleset.append(comment);
    ruleset.append("\" drop\n");
    assert(ruleset@ =~= old(ruleset)@ + drop_rule(protocol@, from@, comment@));
}

/// Writes the rules that block the given ports.
pub fn build_block_ruleset(
    tcp_ports: &BTreeSet<u16>,
    udp_ports: &BTreeSet<u16>,
    comment: &str,
) -> (ruleset: String)
    ensures
        ruleset@ == block_ruleset(tcp_ports@, udp_ports@, comment@),
{
    let mut ruleset = String::new();
    if !ports::no_ports(tcp_ports) {
        append_drop_rule(&mut ruleset, "tcp", tcp_ports, comment);
    }
    if !ports::no_ports(udp_ports) {
        append_drop_rule(&mut ruleset, "udp", udp_ports, comment);
    }
    assert(ruleset@ =~= block_ruleset(tcp_ports@, udp_ports@, comment@));
    ruleset
}

// ---------------------------------------------------------------------------
// Listings
// ---------------------------------------------------------------------------

/// The last position where a pattern stands.
pub open spec fn last_position(s: Seq<char>, pattern: Seq<char>) -> int {
    choose|at: int| text::last_at(s, pattern, at)
}

/// The handle of the rule that a line of a listing shows, if it is a rule with
/// the given marker.
pub open spec fn line_handle(line: Seq<char>, marker: Seq<char>) -> Option<u64> {
    if text::occurs(line, marker) && text::occurs(line, HANDLE_WORD@) {
        let at = last_position(line, HANDLE_WORD@) + HANDLE_WORD@.len();
        match number::numeral(text::trimmed(line.skip(at)), 10, u64::MAX as nat) {
            Some(handle) => Some(handle as u64),
            None => None,
        }
    } else {
        None
    }
}

/// The handles that lines of a listing show for the given marker, in order.
pub open spec fn lines_handles(lines: Seq<Seq<char>>, marker: Seq<char>) -> Seq<u64>
    decreases lines.len(),
{
    if lines.len() == 0 {
        Seq::empty()
    } else {
        let before = lines_handles(lines.drop_last(), marker);
        match line_handle(lines.last(), marker) {
            Some(handle) => before.push(handle),
            None => before,
        }
    }
}

/// The handles that a listing shows for a process, in order.
pub open spec fn listed_handles(listing: Seq<char>, pid: u32) -> Seq<u64> {
    lines_handles(text::lines(listing), marker(pid))
}

/// The handles that a listing shows for the rules that are made here, whatever
/// process they are for, in order.
pub open spec fn own_handles(listing: Seq<char>) -> Seq<u64> {
    lines_handles(text::lines(listing), own_mark())
}

/// A pattern that occurs has one last position.
proof fn lemma_last_position(s: Seq<char>, pattern: Seq<char>, at: int)
    requires
        text::last_at(s, pattern, at),
    ensures
        last_position(s, pattern) == at,
{
    let other = last_position(s, pattern);
    assert(text::last_at(s, pattern, other));
    if other < at {
        assert(!text::stands_at(s, pattern, at));
    } else if at < other {
        assert(!text::stands_at(s, pattern, other));
    }
}

/// Reads the handle out of a line of a listing.
fn read_line_handle(line: &[char], marker: &[char]) -> (handle: Option<u64>)
    ensures
        handle == line_handle(line@, marker@),
{
    if !text::contains_chars(line, marker) {
        return None;
    }
    let total: usize = line.len();
    let word = text::chars_of(HANDLE_WORD);
    match text::find_last(line, word.as_slice()) {
        Some(at) => {
            proof {
                lemma_last_position(line@, word@, at as int);
                assert(text::stands_at(line@, word@, at as int));
            }
            let tail = slice_subrange(line, at + word.len(), total);
            assert(tail@ =~= line@.skip(at + word@.len()));
            number::read_numeral(text::trim_chars(tail), 10, u64::MAX)
        },
        None => None,
    }
}

/// Reads the handles of a process's rules out of a listing.
pub fn find_rule_handles(listing: &str, pid: u32) -> (handles: Vec<u64>)
    ensures
        handles@ == listed_handles(listing@, pid),
{
    let marker_text = rule_marker(pid);
    find_marked_handles(listing, marker_text.as_str())
}

/// Reads the handles of the rules that are made here out of a listing.
pub fn find_own_handles(listing: &str) -> (handles: Vec<u64>)
    ensures
        handles@ == own_handles(listing@),
{
    let mark_text = own_rule_mark();
    find_marked_handles(listing, mark_text.as_str())
}

/// Reads the handles of the rules with a mark out of a listing.
fn find_marked_handles(listing: &str, mark_text: &str) -> (handles: Vec<u64>)
    ensures
        handles@ == lines_handles(text::lines(listing@), mark_text@),
{
    let mark = text::chars_of(mark_text);
    let chars = text::chars_of(listing);
    let lines = text::lines_of(chars.as_slice());
    let ghost all = text::lines(listing@);
    assert(all =~= text::texts(lines@));
    let mut handles: Vec<u64> = Vec::new();
    let mut i: usize = 0;
    assert(all.take(0) =~= Seq::empty());
    while i < lines.len()
        invariant
            i <= lines@.len(),
            all == text::texts(lines@),
            mark@ == mark_text@,
            handles@ == lines_handles(all.take(i as int), mark_text@),
        decreases lines@.len() - i,
    {
        assert(all.take(i + 1).drop_last() =~= all.take(i as int));
        assert(all.take(i + 1).last() == lines@[i as int]@);
        match read_line_handle(lines[i].as_slice(), mark.as_slice()) {
            Some(handle) => {
                handles.push(handle);
            },
            None => {},
        }
        i += 1;
    }
    assert(all.take(all.len() as int) =~= all);
    handles
}

// ---------------------------------------------------------------------------
// Laws
// ---------------------------------------------------------------------------

/// The comment of a rule begins with the marker of its own process and with
/// that of no other one.
pub proof fn markers_tell_processes_apart(pid: u32, other: u32, process_name: Seq<char>)
    ensures
        text::begins_with(rule_comment(pid, process_name), marker(other)) <==> pid == other,
{
    reveal_strlit("-");
    let comment = rule_comment(pid, process_name);
    let own = marker(pid);
    assert(comment.take(own.len() as int) =~= own);
    if text::begins_with(comment, marker(other)) {
        let start = RULE_COMMENT_PREFIX@.len() as int;
        let a = number::decimal(pid as nat);
        let b = number::decimal(other as nat);
        number::lemma_decimal_digits(pid as nat);
        number::lemma_decimal_digits(other as nat);
        let other_mark = marker(other);
        assert(forall|i: int| 0 <= i < b.len() ==> other_mark[start + i] == b[i]);
        assert(other_mark[start + b.len()] == '-');
        assert(forall|i: int| 0 <= i < a.len() ==> comment[start + i] == a[i]);
        assert(comment[start + a.len()] == '-');
        assert(forall|i: int|
            0 <= i < other_mark.len() ==> #[trigger] comment[i] == comment.take(
                other_mark.len() as int,
            )[i]);
        if a.len() < b.len() {
            assert(comment[start + a.len()] == b[a.len() as int]);
        } else if b.len() < a.len() {
            assert(comment[start + b.len()] == a[b.len() as int]);
        }
        assert(a =~= b) by {
            assert forall|i: int| 0 <= i < a.len() implies a[i] == b[i] by {
                assert(comment[start + i] == a[i]);
                assert(other_mark[start + i] == b[i]);
            }
        }
        number::lemma_decimal_injective(pid as nat, other as nat);
    }
}

/// Every rule that blocks a process carries the mark by which it is found among
/// the rules that are made here.
pub proof fn own_rules_carry_the_mark(
    protocol: Seq<char>,
    from: Set<u16>,
    pid: u32,
    process_name: Seq<char>,
)
    ensures
        text::occurs(drop_rule(protocol, from, rule_comment(pid, process_name)), own_mark()),
{
    reveal_strlit(" } comment \"");
    reveal_strlit("\"");
    let comment = rule_comment(pid, process_name);
    let rule = drop_rule(protocol, from, comment);
    let head = "add rule "@ + NFT_FAMILY@ + " "@ + NFT_TABLE_NAME@ + " "@ + NFT_OUTPUT_CHAIN@
        + " "@ + protocol + " sport { "@ + ports::ports_text(from) + " } comment \""@;
    let at = head.len() - 1;
    assert(rule =~= head + comment + "\" drop\n"@);
    assert(head[at] == '"');
    assert(rule.subrange(at, at + own_mark().len()) =~= own_mark());
    assert(text::stands_at(rule, own_mark(), at));
}

/// Only a line with the mark gives a handle, so no other rule is found.
pub proof fn only_marked_lines_give_handles(lines: Seq<Seq<char>>, mark: Seq<char>, at: int)
    requires
        0 <= at < lines_handles(lines, mark).len(),
    ensures
        exists|line: int|
            0 <= line < lines.len() && text::occurs(#[trigger] lines[line], mark) && line_handle(
                lines[line],
                mark,
            ) == Some(lines_handles(lines, mark)[at]),
    decreases lines.len(),
{
    let before = lines_handles(lines.drop_last(), mark);
    if at < before.len() {
        only_marked_lines_give_handles(lines.drop_last(), mark, at);
        let line = choose|line: int|
            0 <= line < lines.drop_last().len() && text::occurs(
                #[trigger] lines.drop_last()[line],
                mark,
            ) && line_handle(lines.drop_last()[line], mark) == Some(before[at]);
        assert(lines[line] == lines.drop_last()[line]);
    } else {
        assert(lines[lines.len() - 1] == lines.last());
    }
}

/// A comment holds no quotation mark, whatever the name of the process is.
pub proof fn comments_hold_no_quotes(pid: u32, process_name: Seq<char>)
    ensures
        forall|i: int|
            0 <= i < rule_comment(pid, process_name).len() ==> rule_comment(pid, process_name)[i]
                != '"',
{
    reveal_strlit("-");
    reveal_strlit("netmon-pid-");
    number::lemma_decimal_digits(pid as nat);
    let comment = rule_comment(pid, process_name);
    let mark = marker(pid);
    assert forall|i: int| 0 <= i < comment.len() implies comment[i] != '"' by {
        if i < mark.len() {
            assert(comment[i] == mark[i]);
            let digits = number::decimal(pid as nat);
            if 11 <= i < 11 + digits.len() {
                assert(mark[i] == digits[i - 11]);
            }
        }
    }
}

} // verus!
