//! What holds of the window as a whole: figures are rounded and never wrong by
//! more, rows stand in the order of their column, and every control does what
//! it says.

use vstd::arithmetic::power2::{lemma2_to64, lemma_pow2_pos, lemma_pow2_unfold, pow2};
use vstd::prelude::*;

use crate::aggregator;
use crate::aggregator::export;
use crate::aggregator::laws;
use crate::aggregator::{ConnectionEntryView, InterfaceStats, ProcessRowView, ThreadKey};
use crate::capture::Protocol;
use crate::number;
use crate::text;
use crate::text_laws;
use crate::ui::actions;
use crate::ui::actions::{CsvOutcome, UserBlockView};
use crate::ui::figures;
use crate::ui::host;
use crate::ui::rows;
use crate::ui::rows::{SortColumn, SortState, Traffic};

verus! {

// ---------------------------------------------------------------------------
// Figures
// ---------------------------------------------------------------------------

/// `q` is the whole number nearest to `n / d`: it is wrong by no more than a
/// half, and where two are equally near it is the even one.
pub open spec fn rounds_to(n: nat, d: nat, q: nat) -> bool {
    let error = q * d - n;
    &&& -(d as int) <= 2 * error <= d
    &&& (2 * error == d || 2 * error == -(d as int)) ==> q % 2 == 0
}

/// A quotient is rounded to the nearest whole number.
pub proof fn quotients_are_rounded(n: nat, d: nat)
    requires
        d > 0,
    ensures
        rounds_to(n, d, figures::nearest(n, d)),
{
    let low = n / d;
    let rest = n % d;
    assert(n == low * d + rest && rest < d) by (nonlinear_arith)
        requires
            low == n / d,
            rest == n % d,
            d > 0,
    ;
    assert((low + 1) * d == low * d + d) by (nonlinear_arith);
}

/// Numbers below two to the power of 53 are exact in double precision.
pub proof fn doubles_are_exact_at_first(n: nat)
    requires
        n < 0x20_0000_0000_0000,
    ensures
        figures::to_double(n) == n,
{
    let unit = figures::double_unit(n);
    assert(unit == 1);
    assert(n / unit == n && n % unit == 0 && n * unit == n) by (nonlinear_arith)
        requires
            unit == 1,
    ;
}

/// Above that a double is the nearest multiple of the power of two that leaves
/// 53 bits.
pub proof fn doubles_keep_their_leading_bits(n: nat, power: nat)
    requires
        0x10_0000_0000_0000 * pow2(power) <= n < 0x20_0000_0000_0000 * pow2(power),
    ensures
        ({
            let unit = pow2(power);
            &&& figures::to_double(n) % unit == 0
            &&& rounds_to(n, unit, figures::to_double(n) / unit)
        }),
{
    lemma_double_unit(n, power);
    let unit = pow2(power);
    lemma_pow2_pos(power);
    quotients_are_rounded(n, unit);
    let q = figures::nearest(n, unit);
    assert((q * unit) % unit == 0 && (q * unit) / unit == q) by (nonlinear_arith)
        requires
            unit > 0,
    ;
}

proof fn lemma_double_unit(n: nat, power: nat)
    requires
        0x10_0000_0000_0000 * pow2(power) <= n < 0x20_0000_0000_0000 * pow2(power),
    ensures
        figures::double_unit(n) == pow2(power),
    decreases power,
{
    lemma2_to64();
    lemma_pow2_pos(power);
    if power > 0 {
        lemma_pow2_unfold(power);
        let half = (power - 1) as nat;
        lemma_pow2_pos(half);
        lemma_double_unit(n / 2, half);
    }
}

/// A rate is shown in bytes below a kibibyte, else in kibibytes below a
/// mebibyte, else in mebibytes, and rounded to the nearest tenth.
pub proof fn rates_are_shown_rounded(rate: u64)
    ensures
        ({
            let n = rate as nat;
            let shown = figures::bandwidth_text(rate);
            &&& n < 1024 ==> shown == number::decimal(n) + " B/s"@
            &&& 1024 <= n < 1048576 ==> exists|tenths: nat|
                rounds_to(10 * n, 1024, tenths) && shown == #[trigger] number::decimal(tenths / 10)
                    + "."@ + number::decimal(tenths % 10) + " KB/s"@
            &&& n >= 1048576 ==> exists|tenths: nat|
                rounds_to(10 * figures::to_double(n), 1048576, tenths) && shown
                    == #[trigger] number::decimal(tenths / 10) + "."@ + number::decimal(tenths % 10)
                    + " MB/s"@
        }),
{
    let n = rate as nat;
    quotients_are_rounded(n * 10, 1024);
    quotients_are_rounded(figures::to_double(n) * 10, 1048576);
    if 1024 <= n < 1048576 {
        let tenths = figures::nearest(n * 10, 1024);
        assert(rounds_to(10 * n, 1024, tenths));
        assert(figures::bandwidth_text(rate) == number::decimal(tenths / 10) + "."@
            + number::decimal(tenths % 10) + " KB/s"@);
    }
    if n >= 1048576 {
        let tenths = figures::nearest(figures::to_double(n) * 10, 1048576);
        assert(rounds_to(10 * figures::to_double(n), 1048576, tenths));
        assert(figures::bandwidth_text(rate) == number::decimal(tenths / 10) + "."@
            + number::decimal(tenths % 10) + " MB/s"@);
    }
}

/// The amount `n` is shown in units of `size`, rounded to the nearest hundredth.
pub open spec fn shown_in(shown: Seq<char>, n: nat, size: nat, unit: Seq<char>) -> bool {
    exists|hundredths: nat|
        rounds_to(100 * n, size, hundredths) && shown == #[trigger] number::decimal(
            hundredths / 100,
        ) + "."@ + number::decimal(hundredths / 10 % 10) + number::decimal(hundredths % 10) + " "@
            + unit
}

/// An amount is shown in the largest unit that it fills, up to the fourth power
/// of 1024, and rounded to the nearest hundredth; in bits it is eight times as
/// much.
pub proof fn amounts_are_shown_rounded(value: u64, bits: bool)
    ensures
        ({
            let n = if bits {
                8 * figures::to_double(value as nat)
            } else {
                figures::to_double(value as nat)
            };
            let shown = figures::amount_text(value, bits);
            let named = |of_bits: Seq<char>, of_bytes: Seq<char>|
                if bits {
                    of_bits
                } else {
                    of_bytes
                };
            &&& n < 0x400 ==> shown_in(shown, n, 1, named("b"@, "B"@))
            &&& 0x400 <= n < 0x10_0000 ==> shown_in(shown, n, 0x400, named("Kb"@, "KB"@))
            &&& 0x10_0000 <= n < 0x4000_0000 ==> shown_in(
                shown,
                n,
                0x10_0000,
                named("Mb"@, "MB"@),
            )
            &&& 0x4000_0000 <= n < 0x100_0000_0000 ==> shown_in(
                shown,
                n,
                0x4000_0000,
                named("Gb"@, "GB"@),
            )
            &&& n >= 0x100_0000_0000 ==> shown_in(
                shown,
                n,
                0x100_0000_0000,
                named("Tb"@, "TB"@),
            )
        }),
{
    let rounded = figures::to_double(value as nat);
    let n = if bits {
        8 * rounded
    } else {
        rounded
    };
    let scale = figures::scale_of(n);
    let size = figures::kibi_power(scale);
    quotients_are_rounded(n * 100, size);
    let hundredths = figures::nearest(n * 100, size);
    assert(rounds_to(100 * n, size, hundredths));
    assert(figures::amount_text(value, bits) == number::decimal(hundredths / 100) + "."@
        + number::decimal(hundredths / 10 % 10) + number::decimal(hundredths % 10) + " "@
        + figures::unit_name(scale, bits));
    assert(shown_in(figures::amount_text(value, bits), n, size, figures::unit_name(scale, bits)));
}

/// Each connection of a row counts for its own protocol, and the counts are
/// shown in their places.
pub proof fn connections_count_for_their_protocol(
    connections: Seq<ConnectionEntryView>,
    next: ConnectionEntryView,
)
    ensures
        figures::protocol_counts(Seq::empty()) == (0nat, 0nat, 0nat),
        ({
            let (tcp, udp, other) = figures::protocol_counts(connections);
            let after = figures::protocol_counts(connections.push(next));
            &&& next.protocol is Tcp ==> after == (tcp + 1, udp, other)
            &&& next.protocol is Udp ==> after == (tcp, udp + 1, other)
            &&& next.protocol is Other ==> after == (tcp, udp, other + 1)
        }),
{
    assert(connections.push(next).drop_last() =~= connections);
}

/// The protocols of a row are shown by their counts.
pub proof fn protocols_are_shown_by_count(row: ProcessRowView, tcp: nat, udp: nat, other: nat)
    requires
        figures::protocol_counts(row.connections) == (tcp, udp, other),
    ensures
        figures::protocol_mix(row) == "T:"@ + number::decimal(tcp) + " U:"@ + number::decimal(udp)
            + " O:"@ + number::decimal(other),
{
}

// ---------------------------------------------------------------------------
// Rows
// ---------------------------------------------------------------------------

/// The rows are in the order of a column of numbers or of texts, forwards or
/// backwards.
pub open spec fn in_order(first: nat, second: nat, ascending: bool) -> bool {
    if ascending {
        first <= second
    } else {
        first >= second
    }
}

/// The same of texts.
pub open spec fn texts_in_order(first: Seq<char>, second: Seq<char>, ascending: bool) -> bool {
    if ascending {
        text::text_le(first, second)
    } else {
        text::text_le(second, first)
    }
}

/// Of two rows that are shown, the upper one has the smaller value in the column
/// that they are sorted by, or the larger one where the order is turned.
pub proof fn rows_are_in_the_order_of_their_column(
    order: Seq<usize>,
    shown: Seq<ProcessRowView>,
    state: SortState,
    upper: int,
    lower: int,
)
    requires
        rows::shown_order(order, shown, state),
        0 <= upper < lower < order.len(),
    ensures
        order.len() == shown.len(),
        ({
            let a = shown[order[upper] as int];
            let b = shown[order[lower] as int];
            let up = state.ascending;
            match state.column {
                SortColumn::Pid => in_order(a.info.pid as nat, b.info.pid as nat, up),
                SortColumn::Tid => in_order(a.info.tid as nat, b.info.tid as nat, up),
                SortColumn::Process => texts_in_order(a.info.name, b.info.name, up),
                SortColumn::Thread => texts_in_order(a.info.thread_name, b.info.thread_name, up),
                SortColumn::User => texts_in_order(a.info.username, b.info.username, up),
                SortColumn::ProtocolMix => texts_in_order(
                    figures::protocol_mix(a),
                    figures::protocol_mix(b),
                    up,
                ),
                SortColumn::TxRate => in_order(
                    export::average(a.tx_history, 2),
                    export::average(b.tx_history, 2),
                    up,
                ),
                SortColumn::RxRate => in_order(
                    export::average(a.rx_history, 2),
                    export::average(b.rx_history, 2),
                    up,
                ),
                SortColumn::TxSteadyRate => in_order(
                    export::average(a.tx_history, 10),
                    export::average(b.tx_history, 10),
                    up,
                ),
                SortColumn::RxSteadyRate => in_order(
                    export::average(a.rx_history, 10),
                    export::average(b.rx_history, 10),
                    up,
                ),
                SortColumn::TxTotal => in_order(a.tx_bytes as nat, b.tx_bytes as nat, up),
                SortColumn::RxTotal => in_order(a.rx_bytes as nat, b.rx_bytes as nat, up),
            }
        }),
{
    assert(rows::row_goes_before(shown, state, order[upper] as int, order[lower] as int));
}

/// Two rows that hold the same in the column that they are sorted by stay in the
/// order in which they came, forwards and backwards.
pub proof fn equal_rows_keep_their_order(
    order: Seq<usize>,
    shown: Seq<ProcessRowView>,
    state: SortState,
    upper: int,
    lower: int,
)
    requires
        rows::shown_order(order, shown, state),
        0 <= upper < lower < order.len(),
        ({
            let a = shown[order[upper] as int];
            let b = shown[order[lower] as int];
            a.info == b.info && a.tx_bytes == b.tx_bytes && a.rx_bytes == b.rx_bytes && a.tx_history
                == b.tx_history && a.rx_history == b.rx_history && a.connections == b.connections
        }),
    ensures
        order[upper] < order[lower],
{
    let a = shown[order[upper] as int];
    let b = shown[order[lower] as int];
    assert(rows::row_goes_before(shown, state, order[upper] as int, order[lower] as int));
    assert(figures::protocol_mix(a) == figures::protocol_mix(b));
    assert(rows::cell(a, state.column) == rows::cell(b, state.column));
}

/// A second click on a heading turns the order round, a third one turns it back,
/// and a click on another one starts with the smallest.
pub proof fn headings_turn_the_order(state: SortState, column: SortColumn, other: SortColumn)
    requires
        column != other,
    ensures
        ({
            let once = rows::heading_clicked(state, column);
            let twice = rows::heading_clicked(once, column);
            let thrice = rows::heading_clicked(twice, column);
            let elsewhere = rows::heading_clicked(once, other);
            &&& once.column == column
            &&& twice.column == column
            &&& twice.ascending == !once.ascending
            &&& thrice == once
            &&& elsewhere.column == other
            &&& elsewhere.ascending
            &&& state.column == column ==> once.ascending == !state.ascending
        }),
{
}

/// A click on a row selects its thread, a second one lifts the selection, and a
/// click on a row of another thread, be it of the same process, selects that.
pub proof fn clicks_select_and_lift(
    selected: Option<ThreadKey>,
    clicked: ThreadKey,
    other: ThreadKey,
)
    requires
        clicked.pid != other.pid || clicked.tid != other.tid,
    ensures
        rows::row_clicked(None, clicked) == Some(clicked),
        rows::row_clicked(Some(clicked), clicked) is None,
        rows::row_clicked(Some(clicked), other) == Some(other),
        rows::row_clicked(selected, clicked) is None <==> selected == Some(clicked),
{
}

/// The chart shows as many seconds as are asked for, as far as it can.
pub proof fn the_chart_shows_what_is_asked_for(seconds: usize)
    ensures
        1 <= seconds <= 40 ==> rows::window_of(seconds) == seconds,
        seconds > 40 ==> rows::window_of(seconds) == 40,
        seconds == 0 ==> rows::window_of(seconds) == 1,
{
}

/// A thread is busy above one mebibyte a second in either direction and very
/// busy above ten.
pub proof fn busy_threads_stand_out(tx: nat, rx: nat)
    ensures
        ({
            let most = if tx > rx {
                tx
            } else {
                rx
            };
            &&& rows::traffic_of(tx, rx) == Traffic::VeryHigh <==> most > 10485760
            &&& rows::traffic_of(tx, rx) == Traffic::High <==> 1048576 < most <= 10485760
            &&& rows::traffic_of(tx, rx) == Traffic::Normal <==> most <= 1048576
            &&& rows::traffic_of(tx, rx) == rows::traffic_of(rx, tx)
        }),
{
}

/// The chart of a selected thread shows the histories of its row.
pub proof fn the_chart_shows_the_selected_thread(
    shown: Seq<ProcessRowView>,
    at: int,
    tx: Seq<u64>,
    rx: Seq<u64>,
)
    requires
        0 <= at < shown.len(),
        forall|i: int|
            0 <= i < at ==> (#[trigger] shown[i]).info.pid != shown[at].info.pid
                || shown[i].info.tid != shown[at].info.tid,
        rows::charted(
            shown,
            Some(ThreadKey { pid: shown[at].info.pid, tid: shown[at].info.tid }),
            tx,
            rx,
        ),
    ensures
        tx == shown[at].tx_history,
        rx == shown[at].rx_history,
{
    let key = ThreadKey { pid: shown[at].info.pid, tid: shown[at].info.tid };
    assert(aggregator::snapshot::row_key(shown[at]) == key);
    let first = choose|first: int| #[trigger]
        rows::is_first_row(shown, key, first) && tx == shown[first].tx_history && rx
            == shown[first].rx_history;
    if first < at {
        assert(aggregator::snapshot::row_key(shown[first]) == key);
    }
}

/// The chart of a thread that is not shown is flat.
pub proof fn the_chart_of_a_missing_thread_is_flat(
    shown: Seq<ProcessRowView>,
    key: ThreadKey,
    tx: Seq<u64>,
    rx: Seq<u64>,
)
    requires
        forall|i: int|
            0 <= i < shown.len() ==> (#[trigger] shown[i]).info.pid != key.pid
                || shown[i].info.tid != key.tid,
        rows::charted(shown, Some(key), tx, rx),
    ensures
        tx == Seq::new(40, |i: int| 0u64),
        rx == Seq::new(40, |i: int| 0u64),
{
    assert(aggregator::quiet_history() =~= Seq::new(40, |i: int| 0u64));
    assert forall|at: int| !#[trigger] rows::is_first_row(shown, key, at) by {
        if rows::is_first_row(shown, key, at) {
            assert(shown[at].info.pid == key.pid && shown[at].info.tid == key.tid);
        }
    }
}

/// Without a selection each row adds its samples to the chart, second by second,
/// and without any row the chart is flat.
pub proof fn every_row_adds_to_the_chart(
    shown: Seq<ProcessRowView>,
    row: ProcessRowView,
    before: (Seq<u64>, Seq<u64>),
    after: (Seq<u64>, Seq<u64>),
    at: int,
)
    requires
        rows::charted(shown, None, before.0, before.1),
        rows::charted(shown.push(row), None, after.0, after.1),
        0 <= at < 40,
    ensures
        before.0.len() == 40,
        before.1.len() == 40,
        after.0[at] == laws::up_to_max(before.0[at] as nat + row.tx_history[at] as nat),
        after.1[at] == laws::up_to_max(before.1[at] as nat + row.rx_history[at] as nat),
        shown.len() == 0 ==> before.0[at] == 0 && before.1[at] == 0,
{
    assert(shown.push(row).drop_last() =~= shown);
}

/// The connections of a row are shown, each with whether the row is blocked,
/// unless another thread is selected, in the order of the rows.
pub proof fn every_visible_row_shows_its_connections(
    shown: Seq<ProcessRowView>,
    row: ProcessRowView,
    selected: Option<ThreadKey>,
)
    ensures
        rows::visible_connections(Seq::empty(), selected).len() == 0,
        ({
            let before = rows::visible_connections(shown, selected);
            let after = rows::visible_connections(shown.push(row), selected);
            let own = Seq::new(
                row.connections.len(),
                |i: int| (row.is_blocked, row.connections[i]),
            );
            &&& selected is None ==> after == before + own
            &&& selected matches Some(key) ==> {
                &&& key.pid == row.info.pid && key.tid == row.info.tid ==> after == before + own
                &&& key.pid != row.info.pid || key.tid != row.info.tid ==> after == before
            }
        }),
{
    assert(shown.push(row).drop_last() =~= shown);
    assert(rows::row_connections(row) =~= Seq::new(
        row.connections.len(),
        |i: int| (row.is_blocked, row.connections[i]),
    ));
}

/// The cells of a row stand under their headings and tell their values.
pub proof fn cells_stand_under_their_headings(row: ProcessRowView, show_bits: bool)
    requires
        row.tx_history.len() == 40,
        row.rx_history.len() == 40,
    ensures
        ({
            let cells = rows::row_texts(row, show_bits);
            let headings = rows::table_columns().map_values(|c: SortColumn| rows::heading_text(c));
            &&& cells.len() == 12
            &&& headings == seq![
                "PID"@,
                "Process"@,
                "User"@,
                "Proto Mix"@,
                "TX/s (2s)"@,
                "RX/s (2s)"@,
                "TX/s (10s)"@,
                "RX/s (10s)"@,
                "TX Total"@,
                "RX Total"@,
                "TID"@,
                "Thread"@,
            ]
            &&& number::numeral(cells[0], 10, 0xffff_ffff) == Some(row.info.pid as nat)
            &&& cells[1] == row.info.name
            &&& cells[2] == row.info.username
            &&& cells[3] == figures::protocol_mix(row)
            &&& cells[4] == figures::bandwidth_text(
                ((row.tx_history[0] + row.tx_history[1]) / 2) as u64,
            )
            &&& cells[5] == figures::bandwidth_text(
                ((row.rx_history[0] + row.rx_history[1]) / 2) as u64,
            )
            &&& cells[6] == figures::bandwidth_text(export::average(row.tx_history, 10) as u64)
            &&& cells[7] == figures::bandwidth_text(export::average(row.rx_history, 10) as u64)
            &&& cells[8] == figures::amount_text(row.tx_bytes, show_bits)
            &&& cells[9] == figures::amount_text(row.rx_bytes, show_bits)
            &&& number::numeral(cells[10], 10, 0xffff_ffff) == Some(row.info.tid as nat)
            &&& cells[11] == row.info.thread_name
        }),
{
    let headings = rows::table_columns().map_values(|c: SortColumn| rows::heading_text(c));
    assert(headings =~= seq![
        "PID"@,
        "Process"@,
        "User"@,
        "Proto Mix"@,
        "TX/s (2s)"@,
        "RX/s (2s)"@,
        "TX/s (10s)"@,
        "RX/s (10s)"@,
        "TX Total"@,
        "RX Total"@,
        "TID"@,
        "Thread"@,
    ]);
    number::lemma_decimal_read_back(row.info.pid as nat, 0xffff_ffff);
    number::lemma_decimal_read_back(row.info.tid as nat, 0xffff_ffff);
    laws::averages_are_of_the_newest_samples(row.tx_history);
    laws::averages_are_of_the_newest_samples(row.rx_history);
}

/// The cells of a connection tell its values.
pub proof fn connection_cells_tell_their_values(
    connection: ConnectionEntryView,
    local: Seq<char>,
    remote: Seq<char>,
)
    ensures
        ({
            let cells = rows::connection_texts(connection, local, remote);
            let max = u64::MAX as nat;
            &&& cells.len() == 11
            &&& number::numeral(cells[0], 10, max) == Some(connection.pid as nat)
            &&& number::numeral(cells[1], 10, max) == Some(connection.tid as nat)
            &&& cells[2] == connection.thread_name
            &&& cells[3] == connection.process
            &&& cells[4] == connection.username
            &&& cells[5] == local
            &&& cells[6] == remote
            &&& connection.protocol is Tcp ==> cells[7] == "TCP"@
            &&& connection.protocol is Udp ==> cells[7] == "UDP"@
            &&& connection.protocol is Other ==> cells[7] == "OTHER"@
            &&& cells[8] == connection.state
            &&& number::numeral(cells[9], 10, max) == Some(connection.tx_bytes as nat)
            &&& number::numeral(cells[10], 10, max) == Some(connection.rx_bytes as nat)
        }),
{
    let max = u64::MAX as nat;
    number::lemma_decimal_read_back(connection.pid as nat, max);
    number::lemma_decimal_read_back(connection.tid as nat, max);
    number::lemma_decimal_read_back(connection.tx_bytes as nat, max);
    number::lemma_decimal_read_back(connection.rx_bytes as nat, max);
}

/// The labels of the interface tell its totals and rates, and the filter if and
/// only if there is one.
pub proof fn labels_tell_the_totals(stats: InterfaceStats, bits: bool, filter: Seq<char>)
    ensures
        ({
            let labels = rows::summary_texts(stats, bits, filter);
            let without = rows::summary_texts(stats, bits, Seq::empty());
            &&& without.len() == 4
            &&& labels.take(4) == without
            &&& labels[0] == "TX Total: "@ + figures::amount_text(stats.tx_bytes_total, bits)
            &&& labels[1] == "RX Total: "@ + figures::amount_text(stats.rx_bytes_total, bits)
            &&& labels[2] == "Current BW: "@ + figures::bandwidth_text(
                stats.current_bandwidth_bytes_per_sec,
            ) + "/s"@
            &&& labels[3] == "Peak BW: "@ + figures::bandwidth_text(
                stats.peak_bandwidth_bytes_per_sec,
            ) + "/s"@
            &&& filter.len() > 0 ==> labels.len() == 5 && labels[4] == "Active Filter: "@ + filter
        }),
{
    let labels = rows::summary_texts(stats, bits, filter);
    assert(labels.take(4) =~= rows::summary_texts(stats, bits, Seq::empty()));
}

/// The labels of a thread name its process, its thread, both numbers and its
/// user.
pub proof fn labels_name_the_thread(row: ProcessRowView)
    ensures
        rows::selected_text(row) == "Selected thread: "@ + row.info.name + " / "@
            + row.info.thread_name + " (PID "@ + number::decimal(row.info.pid as nat) + ", TID "@
            + number::decimal(row.info.tid as nat) + ", user "@ + row.info.username + ")"@,
        rows::owner_text(row) == "Process: "@ + row.info.name + " (PID "@ + number::decimal(
            row.info.pid as nat,
        ) + ") | User: "@ + row.info.username,
{
}

// ---------------------------------------------------------------------------
// Controls
// ---------------------------------------------------------------------------

/// A process that is blocked for a user has a row of that user, and its name is
/// that of the first one.
pub proof fn only_processes_of_the_user_are_blocked(
    shown: Seq<ProcessRowView>,
    username: Seq<char>,
    at: int,
)
    requires
        0 <= at < actions::user_processes(shown, username).len(),
    ensures
        exists|i: int|
            0 <= i < shown.len() && (#[trigger] shown[i]).info.username == username && (
                shown[i].info.pid,
                shown[i].info.name,
            ) == actions::user_processes(shown, username)[at] && forall|j: int|
                0 <= j < i && (#[trigger] shown[j]).info.username == username
                    ==> shown[j].info.pid != shown[i].info.pid,
    decreases shown.len(),
{
    let shorter = shown.drop_last();
    let before = actions::user_processes(shorter, username);
    let after = actions::user_processes(shown, username);
    if at < before.len() {
        only_processes_of_the_user_are_blocked(shorter, username, at);
        let i = choose|i: int|
            0 <= i < shorter.len() && (#[trigger] shorter[i]).info.username == username && (
                shorter[i].info.pid,
                shorter[i].info.name,
            ) == before[at] && forall|j: int|
                0 <= j < i && (#[trigger] shorter[j]).info.username == username
                    ==> shorter[j].info.pid != shorter[i].info.pid;
        assert(shown[i] == shorter[i]);
        assert(after[at] == before[at]);
        assert forall|j: int|
            0 <= j < i && (#[trigger] shown[j]).info.username == username implies shown[j].info.pid
            != shown[i].info.pid by {
            assert(shorter[j] == shown[j]);
        }
    } else {
        let i = shown.len() - 1;
        assert(shown[i] == shown.last());
        actions::a_user_is_blocked_completely(shorter, username);
        assert forall|j: int|
            0 <= j < i && (#[trigger] shown[j]).info.username == username implies shown[j].info.pid
            != shown[i].info.pid by {
            assert(shorter[j] == shown[j]);
            assert(actions::names_process(before, shorter[j].info.pid));
        }
    }
}

/// The blocking of a user after attempts, one after the other.
pub open spec fn attempts_noted(block: UserBlockView, results: Seq<Result<(), String>>) -> UserBlockView
    decreases results.len(),
{
    if results.len() == 0 {
        block
    } else {
        actions::attempt_noted(attempts_noted(block, results.drop_last()), results.last())
    }
}

/// Every attempt is told of once: each process that was blocked by its name, each
/// other one by its reason.
pub proof fn every_attempt_is_told(
    block: UserBlockView,
    results: Seq<Result<(), String>>,
    at: int,
)
    requires
        block.at == 0,
        block.labels.len() == 0,
        block.errors.len() == 0,
        results.len() <= block.processes.len(),
        0 <= at < results.len(),
    ensures
        ({
            let after = attempts_noted(block, results);
            let (pid, name) = block.processes[at];
            &&& after.username == block.username
            &&& after.processes == block.processes
            &&& after.at == results.len()
            &&& after.labels.len() + after.errors.len() == results.len()
            &&& results[at] is Ok ==> after.labels.contains(
                name + " (PID "@ + number::decimal(pid as nat) + ")"@,
            )
            &&& results[at] matches Err(reason) ==> after.errors.contains(
                "PID "@ + number::decimal(pid as nat) + ": "@ + reason@,
            )
        }),
    decreases results.len(),
{
    let shorter = results.drop_last();
    let before = attempts_noted(block, shorter);
    let after = attempts_noted(block, results);
    lemma_attempts(block, results);
    lemma_attempts(block, shorter);
    if at < shorter.len() {
        every_attempt_is_told(block, shorter, at);
        assert(shorter[at] == results[at]);
        let (pid, name) = block.processes[at];
        if results[at] is Ok {
            let label = name + " (PID "@ + number::decimal(pid as nat) + ")"@;
            let i = choose|i: int| 0 <= i < before.labels.len() && before.labels[i] == label;
            assert(after.labels[i] == label);
        }
        if let Err(reason) = results[at] {
            let error = "PID "@ + number::decimal(pid as nat) + ": "@ + reason@;
            let i = choose|i: int| 0 <= i < before.errors.len() && before.errors[i] == error;
            assert(after.errors[i] == error);
        }
    } else {
        if results[at] is Ok {
            assert(after.labels[after.labels.len() - 1] == after.labels.last());
        } else {
            assert(after.errors[after.errors.len() - 1] == after.errors.last());
        }
    }
}

proof fn lemma_attempts(block: UserBlockView, results: Seq<Result<(), String>>)
    requires
        block.at == 0,
        block.labels.len() == 0,
        block.errors.len() == 0,
    ensures
        ({
            let after = attempts_noted(block, results);
            &&& after.username == block.username
            &&& after.processes == block.processes
            &&& after.at == results.len()
            &&& after.labels.len() + after.errors.len() == results.len()
        }),
    decreases results.len(),
{
    if results.len() > 0 {
        lemma_attempts(block, results.drop_last());
    }
}

/// What is said of the blocking of a user tells which of the attempts went well:
/// all, some, none, or that there were none.
pub proof fn the_blocking_of_a_user_is_told(block: UserBlockView)
    ensures
        ({
            let said = actions::user_block_text(block);
            let blocked = block.labels.len();
            let failed = block.errors.len();
            &&& blocked > 0 && failed == 0 ==> said == "Blocked user "@ + block.username + ": "@
                + text::joined(block.labels, ", "@)
            &&& blocked > 0 && failed > 0 ==> said == "Blocked user "@ + block.username
                + " with errors: "@ + text::joined(block.errors, "; "@)
            &&& blocked == 0 && failed == 0 ==> said == "No active processes found for user "@
                + block.username
            &&& blocked == 0 && failed > 0 ==> said == "Failed to block user "@ + block.username
                + ": "@ + text::joined(block.errors, "; "@)
        }),
{
}

/// What is said of a process names it, and the reason where something failed.
pub proof fn messages_name_the_process(
    pid: u32,
    name: Seq<char>,
    rate: u32,
    interface: Seq<char>,
    reason: String,
)
    ensures
        ({
            let number = number::decimal(pid as nat);
            let label = name + " (PID "@ + number + ")"@;
            let done = Ok::<(), String>(());
            let failed = Err::<(), String>(reason);
            &&& actions::block_text(pid, name, done) == "Blocked "@ + label
            &&& actions::block_text(pid, name, failed) == "Block failed for PID "@ + number + ": "@
                + reason@
            &&& actions::unblock_text(pid, done) == "Unblocked PID "@ + number
            &&& actions::unblock_text(pid, failed) == "Unblock failed for PID "@ + number + ": "@
                + reason@
            &&& actions::question_text(pid, name) == "Block all traffic for "@ + label
                + "? This will insert an nftables rule. Confirm?"@
            &&& actions::limit_text(pid, name, rate, done) == "Rate-limited "@ + label + " to "@
                + number::decimal(rate as nat) + " kbit/s"@
            &&& actions::limit_text(pid, name, rate, failed) == "Rate limit failed for PID "@
                + number + ": "@ + reason@
            &&& actions::start_failed(interface, reason@) == "Failed to start capture on "@
                + interface + ": "@ + reason@
        }),
{
}

/// Blocking a process marks it and no other one, unblocking lifts just that
/// mark, and an attempt that failed changes nothing.
pub proof fn marks_follow_the_attempts(blocked: Set<u32>, pid: u32, other: u32)
    ensures
        actions::block_noted(blocked, pid, true).contains(pid),
        !actions::unblock_noted(blocked, pid, true).contains(pid),
        other != pid ==> {
            &&& actions::block_noted(blocked, pid, true).contains(other) == blocked.contains(other)
            &&& actions::unblock_noted(blocked, pid, true).contains(other) == blocked.contains(
                other,
            )
        },
        !blocked.contains(pid) ==> actions::unblock_noted(
            actions::block_noted(blocked, pid, true),
            pid,
            true,
        ) == blocked,
        actions::block_noted(blocked, pid, false) == blocked,
        actions::unblock_noted(blocked, pid, false) == blocked,
{
    if !blocked.contains(pid) {
        assert(blocked.insert(pid).remove(pid) =~= blocked);
    }
}

/// A capture can be started on every interface that there is, the last one too,
/// and one at a time.
pub proof fn every_interface_can_be_captured(interfaces: nat, selected: nat)
    ensures
        actions::may_start(false, selected + 1, selected),
        selected < interfaces ==> actions::may_start(false, interfaces, selected),
        !actions::may_start(false, selected, selected),
        !actions::may_start(true, interfaces, selected),
{
}

/// The filter that is said to be in force is the active one, every other message
/// leaves it, and only the message that says so ends the capture.
pub proof fn messages_are_understood(active: Seq<char>, filter: Seq<char>, message: Seq<char>)
    ensures
        actions::filter_after(active, "Filter applied: "@ + filter) == filter,
        actions::filter_after(active, message) == active || message == "Filter applied: "@
            + actions::filter_after(active, message),
        actions::tells_the_end("Capture stopped:"@ + message),
        actions::tells_the_end(message) ==> message == "Capture stopped:"@ + message.skip(
            "Capture stopped:"@.len() as int,
        ),
{
    actions::applied_filters_are_remembered(filter);
    text_laws::what_is_found_is_a_part(message, "Filter applied: "@, 0);
    text_laws::what_is_found_is_a_part(message, "Capture stopped:"@, 0);
    text_laws::parts_are_found(Seq::empty(), "Capture stopped:"@, message);
}

/// A filter is applied as it was entered but for the blanks around it, while
/// something is captured, and nothing is applied of blanks alone.
pub proof fn entered_filters_are_applied(
    lead: Seq<char>,
    expression: Seq<char>,
    trail: Seq<char>,
    input: Seq<char>,
)
    requires
        text_laws::is_gap(lead),
        text_laws::is_gap(trail),
        expression.len() > 0,
        text_laws::is_ink(expression.first()),
        text_laws::is_ink(expression.last()),
    ensures
        actions::requested_filter(true, lead + expression + trail) == Some(expression),
        actions::requested_filter(true, lead) is None,
        actions::requested_filter(false, input) is None,
{
    text_laws::trimming_takes_the_blanks_around(lead, expression, trail);
    lemma_only_blanks(lead);
}

proof fn lemma_only_blanks(gap: Seq<char>)
    requires
        text_laws::is_gap(gap),
    ensures
        text::trimmed(gap).len() == 0,
    decreases gap.len(),
{
    if gap.len() > 0 {
        let later = gap.drop_first();
        assert(text_laws::is_blank(gap[0]));
        assert forall|i: int| 0 <= i < later.len() implies text_laws::is_blank(
            #[trigger] later[i],
        ) by {
            assert(later[i] == gap[i + 1]);
        }
        lemma_only_blanks(later);
    }
}

/// Every positive rate that fits is read, with blanks around it or not; zero and
/// larger ones are refused.
pub proof fn every_rate_is_read(rate: nat, lead: Seq<char>, trail: Seq<char>)
    requires
        text_laws::is_gap(lead),
        text_laws::is_gap(trail),
    ensures
        1 <= rate <= 0xffff_ffff ==> actions::entered_rate(lead + number::decimal(rate) + trail)
            == Some(rate as u32),
        rate == 0 || rate > 0xffff_ffff ==> actions::entered_rate(
            lead + number::decimal(rate) + trail,
        ) is None,
{
    number::lemma_decimal_digits(rate);
    let digits = number::decimal(rate);
    assert(text_laws::is_ink(digits[0]));
    assert(text_laws::is_ink(digits[digits.len() - 1]));
    text_laws::trimming_takes_the_blanks_around(lead, digits, trail);
    assert(digits[0] != '+');
}

/// Only a positive number is read as a rate.
pub proof fn only_numbers_are_rates(input: Seq<char>)
    requires
        actions::entered_rate(input) is Some,
    ensures
        actions::entered_rate(input)->0 > 0,
        ({
            let entered = text::trimmed(input);
            &&& entered.len() > 0
            &&& forall|i: int|
                0 <= i < entered.len() && !(i == 0 && entered[0] == '+') ==> '0'
                    <= #[trigger] entered[i] && entered[i] <= '9'
        }),
{
    text_laws::only_digits_spell_numbers(text::trimmed(input), u32::MAX as nat);
}

/// What is said of an export tells how it ended, and where it was written.
pub proof fn exports_are_told(path: Seq<char>, reason: String)
    ensures
        actions::csv_export_text(CsvOutcome::Written, path) == "Exported CSV to "@ + path,
        actions::csv_export_text(CsvOutcome::CreateFailed(reason), path) == "CSV export failed: "@
            + reason@,
        actions::csv_export_text(CsvOutcome::HeaderFailed, path)
            == "CSV export failed while writing header"@,
        actions::csv_export_text(CsvOutcome::RowsFailed, path)
            == "CSV export failed while writing rows"@,
        actions::csv_export_text(CsvOutcome::NoHistory, path) == "No session history captured yet"@,
{
}

/// Files are written to the home directory, or to `/tmp` where none is known,
/// and files of different times have different paths.
pub proof fn files_are_named_by_their_time(
    home: String,
    prefix: Seq<char>,
    time: u64,
    other: u64,
    extension: Seq<char>,
)
    ensures
        export::output_path(Some(home), prefix, time, extension) == home@ + "/"@ + prefix
            + number::decimal(time as nat) + extension,
        export::output_path(None, prefix, time, extension) == "/tmp"@ + "/"@ + prefix
            + number::decimal(time as nat) + extension,
        export::output_path(None, prefix, time, extension) == export::output_path(
            None,
            prefix,
            other,
            extension,
        ) ==> time == other,
{
    let a = export::output_path(None, prefix, time, extension);
    let b = export::output_path(None, prefix, other, extension);
    if a == b {
        let start = ("/tmp"@ + "/"@ + prefix).len() as int;
        assert(a.subrange(start, a.len() - extension.len()) =~= number::decimal(time as nat));
        assert(b.subrange(start, b.len() - extension.len()) =~= number::decimal(other as nat));
        number::lemma_decimal_injective(time as nat, other as nat);
    }
}

// ---------------------------------------------------------------------------
// The machine
// ---------------------------------------------------------------------------

/// A machine is taken for a VirtualBox machine if either name says so, wherever
/// in it, and not otherwise.
pub proof fn either_name_tells_the_machine(
    host: Seq<char>,
    product: Seq<char>,
    before: Seq<char>,
    after: Seq<char>,
)
    ensures
        host::virtualbox_names(before + "vbox"@ + after, product),
        host::virtualbox_names(host, before + "virtualbox"@ + after),
        host::virtualbox_names(host, product) ==> text::occurs(host, "vbox"@) || text::occurs(
            product,
            "virtualbox"@,
        ),
{
    text_laws::parts_are_found(before, "vbox"@, after);
    text_laws::parts_are_found(before, "virtualbox"@, after);
}

/// The capabilities are read from the line for them, whatever the lines before
/// and after it are: every number reads back from its hexadecimal digits.
pub proof fn capabilities_read_back(
    before: Seq<Seq<char>>,
    gap: Seq<char>,
    capabilities: u64,
    rest: Seq<char>,
    later: Seq<Seq<char>>,
)
    requires
        forall|i: int|
            0 <= i < before.len() ==> !text::begins_with(#[trigger] before[i], "CapEff:"@),
        text_laws::is_gap(gap),
        gap.len() > 0,
    ensures
        host::effective_capabilities(
            before + seq![
                text_laws::spaced(
                    seq!["CapEff:"@, number::hex_digits(capabilities as nat, 16)],
                    gap,
                    rest,
                ),
            ] + later,
        ) == Some(capabilities),
    decreases before.len(),
{
    let fields = seq!["CapEff:"@, number::hex_digits(capabilities as nat, 16)];
    let line = text_laws::spaced(fields, gap, rest);
    let all = before + seq![line] + later;
    if before.len() > 0 {
        let fewer = before.drop_first();
        assert forall|i: int| 0 <= i < fewer.len() implies !text::begins_with(
            #[trigger] fewer[i],
            "CapEff:"@,
        ) by {
            assert(fewer[i] == before[i + 1]);
        }
        assert(all.first() == before[0]);
        assert(all.drop_first() =~= fewer + seq![line] + later);
        capabilities_read_back(fewer, gap, capabilities, rest, later);
    } else {
        reveal_strlit("CapEff:");
        reveal_with_fuel(number::hex_range, 17);
        assert(all.first() == line);
        crate::controller::laws::lemma_hex_ink(capabilities as nat, 16);
        assert(text_laws::is_inked(fields[0]));
        assert(text_laws::is_inked(fields[1]));
        let none = Seq::<char>::empty();
        text_laws::words_read_back(none, fields, gap, rest);
        assert(none + line =~= line);
        assert(text::words(line)[1] == fields[1]);
        number::lemma_hex_read_back(capabilities as nat, 16, u64::MAX as nat);
        reveal_with_fuel(text_laws::spaced, 3);
        assert(line.take("CapEff:"@.len() as int) =~= "CapEff:"@);
    }
}

/// The process may use the network with both capabilities and not with one of
/// them alone: those of bits 12 and 13.
pub proof fn both_capabilities_are_needed(capabilities: u64)
    ensures
        host::network_capable(capabilities) <==> capabilities / 4096 % 2 == 1 && capabilities / 8192
            % 2 == 1,
{
    assert(1u64 << 12u32 == 4096 && 1u64 << 13u32 == 8192) by (bit_vector);
    assert((capabilities & 4096 != 0) <==> capabilities / 4096 % 2 == 1) by (bit_vector);
    assert((capabilities & 8192 != 0) <==> capabilities / 8192 % 2 == 1) by (bit_vector);
}

/// A status that could not be read, or that has no line for the capabilities,
/// gives none.
pub proof fn silent_statuses_give_nothing(status: String)
    requires
        forall|i: int|
            0 <= i < text::lines(status@).len() ==> !text::begins_with(
                #[trigger] text::lines(status@)[i],
                "CapEff:"@,
            ),
    ensures
        !host::status_capable(None),
        !host::status_capable(Some(status)),
{
    lemma_no_line(text::lines(status@));
}

proof fn lemma_no_line(lines: Seq<Seq<char>>)
    requires
        forall|i: int|
            0 <= i < lines.len() ==> !text::begins_with(#[trigger] lines[i], "CapEff:"@),
    ensures
        host::effective_capabilities(lines) is None,
    decreases lines.len(),
{
    if lines.len() > 0 {
        let fewer = lines.drop_first();
        assert(lines.first() == lines[0]);
        assert forall|i: int| 0 <= i < fewer.len() implies !text::begins_with(
            #[trigger] fewer[i],
            "CapEff:"@,
        ) by {
            assert(fewer[i] == lines[i + 1]);
        }
        lemma_no_line(fewer);
    }
}

} // verus!
