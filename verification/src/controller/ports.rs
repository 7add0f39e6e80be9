//! The ports that a process uses, and how they are written in rules.

use std::collections::BTreeSet;

use vstd::prelude::*;

use crate::number;
use crate::resolver::proc_fallback;
use crate::text;

verus! {

broadcast use {vstd::std_specs::btree::group_btree_axioms, vstd::laws_cmp::group_laws_cmp};

/// Number of columns that a row needs for its local port to be readable.
pub const PROC_NET_PORT_COLUMN_COUNT: usize = 2;

// ---------------------------------------------------------------------------
// Reading
// ---------------------------------------------------------------------------

/// The port of an `address:port` endpoint.
pub open spec fn endpoint_port(endpoint: Seq<char>) -> Option<u16> {
    let parts = text::split_on(endpoint, ':');
    if parts.len() < 2 {
        None
    } else {
        match number::numeral(parts[1], 16, u16::MAX as nat) {
            Some(port) => Some(port as u16),
            None => None,
        }
    }
}

/// The local port that a row of a socket table gives.
pub open spec fn row_port(row: Seq<char>) -> Option<u16> {
    let columns = text::words(row);
    if columns.len() < PROC_NET_PORT_COLUMN_COUNT {
        None
    } else {
        endpoint_port(columns[1])
    }
}

/// The local ports that the rows of a socket table give.
pub open spec fn rows_ports(rows: Seq<Seq<char>>) -> Set<u16> {
    Set::new(
        |port: u16|
            exists|i: int| 0 <= i < rows.len() && row_port(#[trigger] rows[i]) == Some(port),
    )
}

/// The local ports in the text of a socket table. A table that could not be
/// read has none.
pub open spec fn table_ports(content: Option<String>) -> Set<u16> {
    match content {
        Some(content) => rows_ports(proc_fallback::table_rows(content@)),
        None => Set::empty(),
    }
}

/// Reads the port of an endpoint.
pub fn parse_port_from_proc_addr(proc_addr: &[char]) -> (port: Option<u16>)
    ensures
        port == endpoint_port(proc_addr@),
{
    let parts = text::split_chars_on(proc_addr, ':');
    assert(forall|i: int| 0 <= i < parts@.len() ==> text::texts(parts@)[i] == parts@[i]@);
    if parts.len() < 2 {
        return None;
    }
    match number::read_numeral(parts[1].as_slice(), 16, u16::MAX as u64) {
        Some(port) => Some(port as u16),
        None => None,
    }
}

/// Reads the local port of a row.
fn parse_row_port(row: &[char]) -> (port: Option<u16>)
    ensures
        port == row_port(row@),
{
    let columns = text::words_of(row);
    assert(forall|i: int| 0 <= i < columns@.len() ==> text::texts(columns@)[i] == columns@[i]@);
    if columns.len() < PROC_NET_PORT_COLUMN_COUNT {
        return None;
    }
    parse_port_from_proc_addr(columns[1].as_slice())
}

proof fn lemma_rows_ports_push(rows: Seq<Seq<char>>, row: Seq<char>)
    ensures
        rows_ports(rows.push(row)) == (match row_port(row) {
            Some(port) => rows_ports(rows).insert(port),
            None => rows_ports(rows),
        }),
{
    let after = rows.push(row);
    let goal = match row_port(row) {
        Some(port) => rows_ports(rows).insert(port),
        None => rows_ports(rows),
    };
    assert forall|port: u16| rows_ports(after).contains(port) == goal.contains(port) by {
        if rows_ports(after).contains(port) {
            let i = choose|i: int| 0 <= i < after.len() && row_port(#[trigger] after[i]) == Some(port);
            if i < rows.len() {
                assert(row_port(rows[i]) == Some(port));
            }
        }
        if rows_ports(rows).contains(port) {
            let i = choose|i: int| 0 <= i < rows.len() && row_port(#[trigger] rows[i]) == Some(port);
            assert(row_port(after[i]) == Some(port));
        }
        assert(after[rows.len() as int] == row);
    }
    assert(rows_ports(after) =~= goal);
}

/// Adds the ports of a socket table to those already found.
pub fn collect_table_ports(content: &Option<String>, ports: &mut BTreeSet<u16>)
    ensures
        final(ports)@ == old(ports)@.union(table_ports(*content)),
{
    let content = match content {
        Some(content) => content,
        None => {
            assert(ports@ =~= ports@.union(Set::empty()));
            return;
        },
    };
    let ghost known = ports@;
    let chars = text::chars_of(content.as_str());
    let lines = text::lines_of(chars.as_slice());
    let ghost all = text::texts(lines@);
    let ghost rows = proc_fallback::table_rows(content@);
    let mut i: usize = 1;
    assert(rows.take(0) =~= Seq::empty());
    assert(known =~= known.union(rows_ports(rows.take(0))));
    while i < lines.len()
        invariant
            1 <= i,
            i <= lines@.len() || lines@.len() == 0,
            all == text::texts(lines@),
            lines@.len() > 0 ==> rows == all.skip(1),
            i > lines@.len() ==> i == 1,
            ports@ == known.union(rows_ports(rows.take(i - 1))),
        decreases lines@.len() - i,
    {
        let line = lines[i].as_slice();
        proof {
            assert(rows.take(i as int) =~= rows.take(i - 1).push(line@));
            lemma_rows_ports_push(rows.take(i - 1), line@);
        }
        match parse_row_port(line) {
            Some(port) => {
                ports.insert(port);
                assert(ports@ =~= known.union(rows_ports(rows.take(i as int))));
            },
            None => {},
        }
        i += 1;
    }
    assert(rows.take(i - 1) =~= rows);
}

// ---------------------------------------------------------------------------
// Writing
// ---------------------------------------------------------------------------

/// `list` names the ports of the set, each once, in ascending order.
pub open spec fn lists_ports(list: Seq<u16>, ports: Set<u16>) -> bool {
    &&& forall|i: int, j: int| 0 <= i < j < list.len() ==> list[i] < list[j]
    &&& list.to_set() == ports
}

/// The ports of a set in ascending order.
pub open spec fn ascending(ports: Set<u16>) -> Seq<u16> {
    choose|list: Seq<u16>| lists_ports(list, ports)
}

/// The ports of a set in decimal, in ascending order, separated by commas.
pub open spec fn ports_text(ports: Set<u16>) -> Seq<char> {
    text::joined(ascending(ports).map_values(|port: u16| number::decimal(port as nat)), ", "@)
}

/// A set of ports has one ascending list only.
pub proof fn ascending_list_is_unique(a: Seq<u16>, b: Seq<u16>, ports: Set<u16>)
    requires
        lists_ports(a, ports),
        lists_ports(b, ports),
    ensures
        a == b,
    decreases a.len(),
{
    if a.len() == 0 {
        if b.len() > 0 {
            assert(b.to_set().contains(b[0]));
        }
        assert(a =~= b);
    } else {
        assert(a.to_set().contains(a[0]));
        assert(b.contains(a[0]));
        let p = a.last();
        assert(a.to_set().contains(p));
        assert(b.contains(p));
        let q = b.last();
        assert(b.to_set().contains(q));
        assert(a.contains(q));
        assert(p == q);
        let rest = ports.remove(p);
        assert forall|port: u16| a.drop_last().to_set().contains(port) == rest.contains(port) by {
            lemma_drop_last_set(a, port);
        }
        assert forall|port: u16| b.drop_last().to_set().contains(port) == rest.contains(port) by {
            lemma_drop_last_set(b, port);
        }
        assert(a.drop_last().to_set() =~= rest);
        assert(b.drop_last().to_set() =~= rest);
        ascending_list_is_unique(a.drop_last(), b.drop_last(), rest);
        assert(a =~= a.drop_last().push(p));
        assert(b =~= b.drop_last().push(p));
    }
}

proof fn lemma_drop_last_set(list: Seq<u16>, port: u16)
    requires
        list.len() > 0,
        forall|i: int, j: int| 0 <= i < j < list.len() ==> list[i] < list[j],
    ensures
        list.drop_last().to_set().contains(port) == (list.to_set().contains(port) && port
            != list.last()),
{
    let short = list.drop_last();
    if short.contains(port) {
        let i = choose|i: int| 0 <= i < short.len() && short[i] == port;
        assert(list[i] == port);
    }
    if list.contains(port) && port != list.last() {
        let i = choose|i: int| 0 <= i < list.len() && list[i] == port;
        assert(short[i] == port);
    }
}

/// Lists the ports of a set in ascending order.
pub fn port_list(ports: &BTreeSet<u16>) -> (list: Vec<u16>)
    ensures
        lists_ports(list@, ports@),
        list@ == ascending(ports@),
{
    let mut list: Vec<u16> = Vec::new();
    for port in it: ports.iter()
        invariant
            list@.len() == it.index(),
            forall|i: int| 0 <= i < list@.len() ==> list@[i] == *it.seq()[i],
    {
        list.push(*port);
    }
    proof {
        let seen = vstd::std_specs::iter::IteratorSpec::remaining(&ports.iter());
        assert(list@ =~= seen.unref());
        assert(vstd::laws_cmp::obeys_cmp::<&u16>());
        assert(vstd::std_specs::btree::increasing_seq(seen));
        assert forall|i: int, j: int| 0 <= i < j < list@.len() implies list@[i] < list@[j] by {
            assert(vstd::std_specs::cmp::OrdSpec::cmp_spec(&seen[i], &seen[j]) is Less);
        }
        assert(lists_ports(list@, ports@));
        ascending_list_is_unique(list@, ascending(ports@), ports@);
    }
    list
}

/// Whether a set holds no port.
pub fn no_ports(ports: &BTreeSet<u16>) -> (none: bool)
    ensures
        none == (ports@ == Set::<u16>::empty()),
{
    let list = port_list(ports);
    if list.len() > 0 {
        assert(list@.to_set().contains(list@[0]));
        return false;
    }
    assert(list@.to_set() =~= Set::<u16>::empty());
    true
}

/// Writes the ports of a set as they stand in a rule, such as `80, 443`.
pub fn join_ports(ports: &BTreeSet<u16>) -> (joined: String)
    ensures
        joined@ == ports_text(ports@),
{
    let list = port_list(ports);
    let mut parts: Vec<String> = Vec::new();
    let ghost goal = list@.map_values(|port: u16| number::decimal(port as nat));
    let mut i: usize = 0;
    while i < list.len()
        invariant
            i <= list@.len(),
            goal == list@.map_values(|port: u16| number::decimal(port as nat)),
            parts@.len() == i,
            forall|j: int| 0 <= j < i ==> (#[trigger] parts@[j])@ == goal[j],
        decreases list@.len() - i,
    {
        parts.push(number::decimal_text(list[i] as u64));
        i += 1;
    }
    assert(text::string_texts(parts@) =~= goal);
    text::join_strings(&parts, ", ")
}

} // verus!
