//! The process table, the chart and the connection table: what they hold and
//! in which order.

use vstd::prelude::*;

use crate::aggregator;
use crate::aggregator::export;
use crate::aggregator::snapshot;
use crate::aggregator::{
    ConnectionEntry, ConnectionEntryView, InterfaceStats, ProcessRow, ProcessRowView, ThreadKey,
    HISTORY_SLOTS,
};
use crate::number;
use crate::sort;
use crate::sort::SortKey;
use crate::text;
use crate::ui::figures;

verus! {

/// Number of samples that a chart can show.
pub const CHART_HISTORY_SECONDS: usize = 40;

/// Number of seconds that a chart shows at first.
pub const DEFAULT_CHART_WINDOW_SECONDS: usize = 40;

/// Rate above which a row is shown as busy, in bytes per second.
pub const HIGH_TRAFFIC_THRESHOLD_BYTES_PER_SEC: u64 = 1024 * 1024;

/// Rate above which a row is shown as very busy, in bytes per second.
pub const VERY_HIGH_TRAFFIC_THRESHOLD_BYTES_PER_SEC: u64 = 10 * 1024 * 1024;

// ---------------------------------------------------------------------------
// Sorting
// ---------------------------------------------------------------------------

/// A column that rows can be sorted by.
#[derive(Clone, Copy, Debug, PartialEq, Eq, Structural)]
pub enum SortColumn {
    Pid,
    Tid,
    Process,
    Thread,
    User,
    ProtocolMix,
    /// Rate sent over two seconds.
    TxRate,
    /// Rate received over two seconds.
    RxRate,
    /// Rate sent over ten seconds.
    TxSteadyRate,
    /// Rate received over ten seconds.
    RxSteadyRate,
    TxTotal,
    RxTotal,
}

/// How rows are sorted.
#[derive(Clone, Copy, Debug, PartialEq, Eq, Structural)]
pub struct SortState {
    pub column: SortColumn,
    pub ascending: bool,
}

/// How rows are sorted after a click on a column's heading.
pub open spec fn heading_clicked(state: SortState, column: SortColumn) -> SortState {
    SortState { column, ascending: state.column != column || !state.ascending }
}

impl SortState {
    /// Rows are sorted by process id at first.
    pub fn new() -> (state: SortState)
        ensures
            state.column == SortColumn::Pid,
            state.ascending,
    {
        SortState { column: SortColumn::Pid, ascending: true }
    }

    /// Takes in a click on a column's heading: on the column that rows are
    /// already sorted by, it turns the direction; on another one, it sorts by
    /// that one, ascending.
    pub fn set_sort(&mut self, column: SortColumn)
        ensures
            final(self).column == column,
            final(self).ascending == (old(self).column != column || !old(self).ascending),
            *final(self) == heading_clicked(*old(self), column),
    {
        if self.column == column {
            self.ascending = !self.ascending;
        } else {
            self.column = column;
            self.ascending = true;
        }
    }
}

/// What a column holds.
pub enum CellView {
    Number(nat),
    Text(Seq<char>),
}

/// What a column of a row holds.
pub open spec fn cell(row: ProcessRowView, column: SortColumn) -> CellView {
    match column {
        SortColumn::Pid => CellView::Number(row.info.pid as nat),
        SortColumn::Tid => CellView::Number(row.info.tid as nat),
        SortColumn::Process => CellView::Text(row.info.name),
        SortColumn::Thread => CellView::Text(row.info.thread_name),
        SortColumn::User => CellView::Text(row.info.username),
        SortColumn::ProtocolMix => CellView::Text(figures::protocol_mix(row)),
        SortColumn::TxRate => CellView::Number(export::average(row.tx_history, 2)),
        SortColumn::RxRate => CellView::Number(export::average(row.rx_history, 2)),
        SortColumn::TxSteadyRate => CellView::Number(export::average(row.tx_history, 10)),
        SortColumn::RxSteadyRate => CellView::Number(export::average(row.rx_history, 10)),
        SortColumn::TxTotal => CellView::Number(row.tx_bytes as nat),
        SortColumn::RxTotal => CellView::Number(row.rx_bytes as nat),
    }
}

/// One cell ranks before another one of the same column, or equal with it:
/// numbers by value, texts in dictionary order.
pub open spec fn cell_at_most(a: CellView, b: CellView) -> bool {
    match (a, b) {
        (CellView::Number(a), CellView::Number(b)) => a <= b,
        (CellView::Text(a), CellView::Text(b)) => text::text_le(a, b),
        (CellView::Number(_), CellView::Text(_)) => true,
        (CellView::Text(_), CellView::Number(_)) => false,
    }
}

/// The row at `a` ranks before the row at `b`, or equal with it.
pub open spec fn row_ranks(rows: Seq<ProcessRowView>, state: SortState, a: int, b: int) -> bool {
    if state.ascending {
        cell_at_most(cell(rows[a], state.column), cell(rows[b], state.column))
    } else {
        cell_at_most(cell(rows[b], state.column), cell(rows[a], state.column))
    }
}

/// The row at `a` is shown before the row at `b`: it ranks before it, or they
/// rank equal and it was before it already.
pub open spec fn row_goes_before(
    rows: Seq<ProcessRowView>,
    state: SortState,
    a: int,
    b: int,
) -> bool {
    row_ranks(rows, state, a, b) && (row_ranks(rows, state, b, a) ==> a < b)
}

/// `order` lists the positions of all rows in the order in which they are
/// shown.
pub open spec fn shown_order(
    order: Seq<usize>,
    rows: Seq<ProcessRowView>,
    state: SortState,
) -> bool {
    &&& sort::lists_range(order, 0, rows.len() as int)
    &&& forall|i: int, j: int|
        0 <= i < j < order.len() ==> row_goes_before(
            rows,
            state,
            #[trigger] order[i] as int,
            #[trigger] order[j] as int,
        )
}

/// A cell that rows are sorted by.
#[derive(Debug)]
enum Cell {
    Number(u64),
    Text(Vec<char>),
}

impl View for Cell {
    type V = CellView;

    closed spec fn view(&self) -> CellView {
        match *self {
            Cell::Number(n) => CellView::Number(n as nat),
            Cell::Text(chars) => CellView::Text(chars@),
        }
    }
}

impl SortKey for Cell {
    open spec fn at_most(&self, other: &Self) -> bool {
        cell_at_most(self@, other@)
    }

    proof fn lemma_total(a: &Self, b: &Self) {
        if let (CellView::Text(a), CellView::Text(b)) = (a@, b@) {
            text::lemma_text_le_total(a, b);
        }
    }

    proof fn lemma_transitive(a: &Self, b: &Self, c: &Self) {
        if let (CellView::Text(a), CellView::Text(b), CellView::Text(c)) = (a@, b@, c@) {
            text::lemma_text_le_transitive(a, b, c);
        }
    }

    fn ranks_at_most(&self, other: &Self) -> (at_most: bool) {
        match (self, other) {
            (Cell::Number(a), Cell::Number(b)) => *a <= *b,
            (Cell::Text(a), Cell::Text(b)) => text::chars_le(a.as_slice(), b.as_slice()),
            (Cell::Number(_), Cell::Text(_)) => true,
            (Cell::Text(_), Cell::Number(_)) => false,
        }
    }
}

/// Makes up the cell of a row.
fn row_cell(row: &ProcessRow, column: SortColumn) -> (value: Cell)
    ensures
        value@ == cell(row@, column),
{
    match column {
        SortColumn::Pid => Cell::Number(row.info.pid as u64),
        SortColumn::Tid => Cell::Number(row.info.tid as u64),
        SortColumn::Process => Cell::Text(text::chars_of(row.info.name.as_str())),
        SortColumn::Thread => Cell::Text(text::chars_of(row.info.thread_name.as_str())),
        SortColumn::User => Cell::Text(text::chars_of(row.info.username.as_str())),
        SortColumn::ProtocolMix => {
            let summary = figures::protocol_mix_summary(row);
            Cell::Text(text::chars_of(summary.as_str()))
        },
        SortColumn::TxRate => Cell::Number(export::two_second_avg(&row.tx_history)),
        SortColumn::RxRate => Cell::Number(export::two_second_avg(&row.rx_history)),
        SortColumn::TxSteadyRate => Cell::Number(export::ten_second_avg(&row.tx_history)),
        SortColumn::RxSteadyRate => Cell::Number(export::ten_second_avg(&row.rx_history)),
        SortColumn::TxTotal => Cell::Number(row.tx_bytes),
        SortColumn::RxTotal => Cell::Number(row.rx_bytes),
    }
}

/// Sorts rows for display. Rows that rank equal keep their order.
pub fn sorted_rows(rows: Vec<ProcessRow>, state: SortState) -> (sorted: Vec<ProcessRow>)
    ensures
        exists|order: Seq<usize>| #[trigger]
            shown_order(order, aggregator::row_views(rows@), state) && sorted@
                == sort::at_positions(rows@, order),
{
    let ghost views = aggregator::row_views(rows@);
    let mut cells: Vec<Cell> = Vec::new();
    let mut i: usize = 0;
    while i < rows.len()
        invariant
            i <= rows@.len(),
            views == aggregator::row_views(rows@),
            cells@.len() == i,
            forall|j: int|
                0 <= j < i ==> (#[trigger] cells@[j])@ == cell(views[j], state.column),
        decreases rows@.len() - i,
    {
        cells.push(row_cell(&rows[i], state.column));
        i += 1;
    }
    let order = sort::sorted_order(&cells, !state.ascending);
    proof {
        assert forall|i: int, j: int| 0 <= i < j < order@.len() implies row_goes_before(
            views,
            state,
            #[trigger] order@[i] as int,
            #[trigger] order@[j] as int,
        ) by {
            let a = order@[i] as int;
            let b = order@[j] as int;
            assert(sort::goes_before(cells@, !state.ascending, a, b));
            assert(cells@[a]@ == cell(views[a], state.column));
            assert(cells@[b]@ == cell(views[b], state.column));
        }
        assert(shown_order(order@, views, state));
    }
    sort::reorder(rows, &order)
}

// ---------------------------------------------------------------------------
// Rows
// ---------------------------------------------------------------------------

/// How busy a row is.
#[derive(Clone, Copy, Debug, PartialEq, Eq, Structural)]
pub enum Traffic {
    Normal,
    High,
    VeryHigh,
}

/// How busy a thread with the given rates is.
pub open spec fn traffic_of(tx_rate: nat, rx_rate: nat) -> Traffic {
    if tx_rate > VERY_HIGH_TRAFFIC_THRESHOLD_BYTES_PER_SEC || rx_rate
        > VERY_HIGH_TRAFFIC_THRESHOLD_BYTES_PER_SEC {
        Traffic::VeryHigh
    } else if tx_rate > HIGH_TRAFFIC_THRESHOLD_BYTES_PER_SEC || rx_rate
        > HIGH_TRAFFIC_THRESHOLD_BYTES_PER_SEC {
        Traffic::High
    } else {
        Traffic::Normal
    }
}

/// Decides how busy a thread is, by its rates over two seconds.
pub fn row_traffic(row: &ProcessRow) -> (traffic: Traffic)
    ensures
        traffic == traffic_of(export::average(row@.tx_history, 2), export::average(row@.rx_history, 2)),
{
    let tx_rate: u64 = export::two_second_avg(&row.tx_history);
    let rx_rate: u64 = export::two_second_avg(&row.rx_history);
    if tx_rate > VERY_HIGH_TRAFFIC_THRESHOLD_BYTES_PER_SEC || rx_rate
        > VERY_HIGH_TRAFFIC_THRESHOLD_BYTES_PER_SEC {
        Traffic::VeryHigh
    } else if tx_rate > HIGH_TRAFFIC_THRESHOLD_BYTES_PER_SEC || rx_rate
        > HIGH_TRAFFIC_THRESHOLD_BYTES_PER_SEC {
        Traffic::High
    } else {
        Traffic::Normal
    }
}

/// The selection after a click on a row.
pub open spec fn row_clicked(selected: Option<ThreadKey>, clicked: ThreadKey) -> Option<ThreadKey> {
    if selected == Some(clicked) {
        None
    } else {
        Some(clicked)
    }
}

/// Takes in a click on a row: it selects the thread, or lifts the selection if
/// that thread was selected.
pub fn toggle_selection(selected: Option<ThreadKey>, clicked: ThreadKey) -> (after: Option<
    ThreadKey,
>)
    ensures
        after == (if selected == Some(clicked) {
            None::<ThreadKey>
        } else {
            Some(clicked)
        }),
        after == row_clicked(selected, clicked),
{
    match selected {
        Some(key) => if key == clicked {
            None
        } else {
            Some(clicked)
        },
        None => Some(clicked),
    }
}

/// `at` is the position of the first row that shows the thread.
pub open spec fn is_first_row(rows: Seq<ProcessRowView>, key: ThreadKey, at: int) -> bool {
    &&& 0 <= at < rows.len()
    &&& snapshot::row_key(rows[at]) == key
    &&& forall|i: int| 0 <= i < at ==> snapshot::row_key(#[trigger] rows[i]) != key
}

/// No row shows the thread.
pub open spec fn no_row(rows: Seq<ProcessRowView>, key: ThreadKey) -> bool {
    forall|i: int| 0 <= i < rows.len() ==> snapshot::row_key(#[trigger] rows[i]) != key
}

/// Finds the first row that shows a thread.
pub fn find_row(rows: &Vec<ProcessRow>, key: ThreadKey) -> (at: Option<usize>)
    ensures
        match at {
            Some(at) => is_first_row(aggregator::row_views(rows@), key, at as int),
            None => no_row(aggregator::row_views(rows@), key),
        },
{
    let ghost views = aggregator::row_views(rows@);
    let mut i: usize = 0;
    while i < rows.len()
        invariant
            i <= rows@.len(),
            views == aggregator::row_views(rows@),
            forall|j: int| 0 <= j < i ==> snapshot::row_key(#[trigger] views[j]) != key,
        decreases rows@.len() - i,
    {
        if rows[i].info.pid == key.pid && rows[i].info.tid == key.tid {
            return Some(i);
        }
        i += 1;
    }
    None
}

// ---------------------------------------------------------------------------
// Chart
// ---------------------------------------------------------------------------

/// The number nearest to the wish among those of seconds that the chart can
/// show.
pub open spec fn window_of(window_seconds: usize) -> usize {
    if window_seconds < 1 {
        1
    } else if window_seconds > CHART_HISTORY_SECONDS {
        CHART_HISTORY_SECONDS
    } else {
        window_seconds
    }
}

/// Number of seconds that the chart shows: the wish, brought into range.
pub fn chart_window(window_seconds: usize) -> (window: usize)
    ensures
        1 <= window <= CHART_HISTORY_SECONDS,
        window == (if window_seconds < 1 {
            1
        } else if window_seconds > CHART_HISTORY_SECONDS {
            CHART_HISTORY_SECONDS
        } else {
            window_seconds
        }),
        window == window_of(window_seconds),
{
    if window_seconds < 1 {
        1
    } else if window_seconds > CHART_HISTORY_SECONDS {
        CHART_HISTORY_SECONDS
    } else {
        window_seconds
    }
}

/// The samples of all rows at a position, added up.
pub open spec fn sample_total(rows: Seq<ProcessRowView>, sent: bool, at: int) -> u64
    decreases rows.len(),
{
    if rows.len() == 0 {
        0
    } else {
        let row = rows.last();
        sample_total(rows.drop_last(), sent, at).saturating_add(
            if sent {
                row.tx_history[at]
            } else {
                row.rx_history[at]
            },
        )
    }
}

/// The histories of all rows, added up.
pub open spec fn total_history(rows: Seq<ProcessRowView>, sent: bool) -> Seq<u64> {
    Seq::new(HISTORY_SLOTS as nat, |at: int| sample_total(rows, sent, at))
}

/// `tx` and `rx` are the histories that the chart shows: those of the selected
/// thread, nothing if it is not among the rows, and those of all rows without a
/// selection.
pub open spec fn charted(
    rows: Seq<ProcessRowView>,
    selected: Option<ThreadKey>,
    tx: Seq<u64>,
    rx: Seq<u64>,
) -> bool {
    match selected {
        Some(key) => {
            ||| exists|at: int| #[trigger]
                is_first_row(rows, key, at) && tx == rows[at].tx_history && rx
                    == rows[at].rx_history
            ||| no_row(rows, key) && tx == aggregator::quiet_history() && rx
                == aggregator::quiet_history()
        },
        None => tx == total_history(rows, true) && rx == total_history(rows, false),
    }
}

/// Adds the histories of a row to totals.
fn add_history(total: &mut [u64; HISTORY_SLOTS], history: &[u64; HISTORY_SLOTS])
    ensures
        forall|at: int|
            0 <= at < HISTORY_SLOTS ==> #[trigger] final(total)@[at] == old(
                total,
            )@[at].saturating_add(history@[at]),
{
    let ghost before = total@;
    let mut at: usize = 0;
    while at < HISTORY_SLOTS
        invariant
            at <= HISTORY_SLOTS,
            forall|j: int|
                0 <= j < at ==> #[trigger] total@[j] == before[j].saturating_add(history@[j]),
            forall|j: int| at <= j < HISTORY_SLOTS ==> #[trigger] total@[j] == before[j],
        decreases HISTORY_SLOTS - at,
    {
        total[at] = total[at].saturating_add(history[at]);
        at += 1;
    }
}

/// Makes up the histories that the chart shows.
pub fn chart_histories(rows: &Vec<ProcessRow>, selected: Option<ThreadKey>) -> (histories: (
    [u64; HISTORY_SLOTS],
    [u64; HISTORY_SLOTS],
))
    ensures
        charted(aggregator::row_views(rows@), selected, histories.0@, histories.1@),
{
    let ghost views = aggregator::row_views(rows@);
    let mut tx: [u64; HISTORY_SLOTS] = [0;HISTORY_SLOTS];
    let mut rx: [u64; HISTORY_SLOTS] = [0;HISTORY_SLOTS];
    assert(tx@ =~= aggregator::quiet_history());
    assert(rx@ =~= aggregator::quiet_history());
    match selected {
        Some(key) => match find_row(rows, key) {
            Some(at) => {
                assert(is_first_row(views, key, at as int));
                (rows[at].tx_history, rows[at].rx_history)
            },
            None => (tx, rx),
        },
        None => {
            let mut i: usize = 0;
            assert(views.take(0) =~= Seq::empty());
            while i < rows.len()
                invariant
                    i <= rows@.len(),
                    views == aggregator::row_views(rows@),
                    forall|at: int|
                        0 <= at < HISTORY_SLOTS ==> #[trigger] tx@[at] == sample_total(
                            views.take(i as int),
                            true,
                            at,
                        ),
                    forall|at: int|
                        0 <= at < HISTORY_SLOTS ==> #[trigger] rx@[at] == sample_total(
                            views.take(i as int),
                            false,
                            at,
                        ),
                decreases rows@.len() - i,
            {
                assert(views.take(i + 1).drop_last() =~= views.take(i as int));
                assert(views.take(i + 1).last() == rows@[i as int]@);
                add_history(&mut tx, &rows[i].tx_history);
                add_history(&mut rx, &rows[i].rx_history);
                i += 1;
            }
            assert(views.take(views.len() as int) =~= views);
            assert(tx@ =~= total_history(views, true));
            assert(rx@ =~= total_history(views, false));
            (tx, rx)
        },
    }
}

// ---------------------------------------------------------------------------
// Connections
// ---------------------------------------------------------------------------

/// A row's connections are shown: nothing is selected, or the row's thread is.
pub open spec fn row_visible(row: ProcessRowView, selected: Option<ThreadKey>) -> bool {
    match selected {
        Some(key) => snapshot::row_key(row) == key,
        None => true,
    }
}

/// A row's connections, each with whether the row is blocked.
pub open spec fn row_connections(row: ProcessRowView) -> Seq<(bool, ConnectionEntryView)> {
    row.connections.map_values(|c: ConnectionEntryView| (row.is_blocked, c))
}

/// The connections that are shown, row by row.
pub open spec fn visible_connections(
    rows: Seq<ProcessRowView>,
    selected: Option<ThreadKey>,
) -> Seq<(bool, ConnectionEntryView)>
    decreases rows.len(),
{
    if rows.len() == 0 {
        Seq::empty()
    } else {
        let before = visible_connections(rows.drop_last(), selected);
        if row_visible(rows.last(), selected) {
            before + row_connections(rows.last())
        } else {
            before
        }
    }
}

/// Connections, each with a flag, with their texts as characters.
pub open spec fn flagged_views(s: Seq<(bool, ConnectionEntry)>) -> Seq<
    (bool, ConnectionEntryView),
> {
    s.map_values(|pair: (bool, ConnectionEntry)| (pair.0, pair.1@))
}

impl ConnectionEntry {
    /// A second copy of the same values.
    pub fn duplicate(&self) -> (copy: ConnectionEntry)
        ensures
            copy@ == self@,
    {
        ConnectionEntry {
            local_addr: self.local_addr,
            remote_addr: self.remote_addr,
            protocol: self.protocol,
            state: self.state.clone(),
            pid: self.pid,
            tid: self.tid,
            process: self.process.clone(),
            thread_name: self.thread_name.clone(),
            username: self.username.clone(),
            tx_bytes: self.tx_bytes,
            rx_bytes: self.rx_bytes,
        }
    }
}

/// Appends a row's connections.
fn append_connections(visible: &mut Vec<(bool, ConnectionEntry)>, row: &ProcessRow)
    ensures
        flagged_views(final(visible)@) == flagged_views(old(visible)@) + row_connections(row@),
{
    let ghost before = flagged_views(visible@);
    let ghost own = row_connections(row@);
    let mut i: usize = 0;
    assert(before + own.take(0) =~= before);
    while i < row.connections.len()
        invariant
            i <= row.connections@.len(),
            own == row_connections(row@),
            flagged_views(visible@) == before + own.take(i as int),
        decreases row.connections@.len() - i,
    {
        let pair = (row.is_blocked, row.connections[i].duplicate());
        assert(flagged_views(visible@.push(pair)) =~= flagged_views(visible@).push(
            (pair.0, pair.1@),
        ));
        assert(own.take(i + 1) =~= own.take(i as int).push(own[i as int]));
        visible.push(pair);
        assert(flagged_views(visible@) =~= before + own.take(i + 1));
        i += 1;
    }
    assert(own.take(own.len() as int) =~= own);
}

/// Lists the connections that are shown, each with whether its row is blocked.
pub fn collect_visible_connections(
    sorted_rows: &Vec<ProcessRow>,
    selected: Option<ThreadKey>,
) -> (visible: Vec<(bool, ConnectionEntry)>)
    ensures
        flagged_views(visible@) == visible_connections(
            aggregator::row_views(sorted_rows@),
            selected,
        ),
{
    let ghost views = aggregator::row_views(sorted_rows@);
    let mut visible: Vec<(bool, ConnectionEntry)> = Vec::new();
    let mut i: usize = 0;
    assert(views.take(0) =~= Seq::empty());
    assert(flagged_views(visible@) =~= Seq::empty());
    while i < sorted_rows.len()
        invariant
            i <= sorted_rows@.len(),
            views == aggregator::row_views(sorted_rows@),
            flagged_views(visible@) == visible_connections(views.take(i as int), selected),
        decreases sorted_rows@.len() - i,
    {
        let row = &sorted_rows[i];
        assert(views.take(i + 1).drop_last() =~= views.take(i as int));
        assert(views.take(i + 1).last() == row@);
        let shown: bool = match selected {
            Some(key) => key.pid == row.info.pid && key.tid == row.info.tid,
            None => true,
        };
        if shown {
            append_connections(&mut visible, row);
        }
        i += 1;
    }
    assert(views.take(views.len() as int) =~= views);
    visible
}

// ---------------------------------------------------------------------------
// Cells
// ---------------------------------------------------------------------------

/// The columns of the process table from left to right.
pub open spec fn table_columns() -> Seq<SortColumn> {
    seq![
        SortColumn::Pid,
        SortColumn::Process,
        SortColumn::User,
        SortColumn::ProtocolMix,
        SortColumn::TxRate,
        SortColumn::RxRate,
        SortColumn::TxSteadyRate,
        SortColumn::RxSteadyRate,
        SortColumn::TxTotal,
        SortColumn::RxTotal,
        SortColumn::Tid,
        SortColumn::Thread,
    ]
}

/// The heading of a column.
pub open spec fn heading_text(column: SortColumn) -> Seq<char> {
    match column {
        SortColumn::Pid => "PID"@,
        SortColumn::Tid => "TID"@,
        SortColumn::Process => "Process"@,
        SortColumn::Thread => "Thread"@,
        SortColumn::User => "User"@,
        SortColumn::ProtocolMix => "Proto Mix"@,
        SortColumn::TxRate => "TX/s (2s)"@,
        SortColumn::RxRate => "RX/s (2s)"@,
        SortColumn::TxSteadyRate => "TX/s (10s)"@,
        SortColumn::RxSteadyRate => "RX/s (10s)"@,
        SortColumn::TxTotal => "TX Total"@,
        SortColumn::RxTotal => "RX Total"@,
    }
}

/// What a column of a row shows.
pub open spec fn cell_text(row: ProcessRowView, column: SortColumn, show_bits: bool) -> Seq<char> {
    match column {
        SortColumn::Pid => number::decimal(row.info.pid as nat),
        SortColumn::Tid => number::decimal(row.info.tid as nat),
        SortColumn::Process => row.info.name,
        SortColumn::Thread => row.info.thread_name,
        SortColumn::User => row.info.username,
        SortColumn::ProtocolMix => figures::protocol_mix(row),
        SortColumn::TxRate => figures::bandwidth_text(export::average(row.tx_history, 2) as u64),
        SortColumn::RxRate => figures::bandwidth_text(export::average(row.rx_history, 2) as u64),
        SortColumn::TxSteadyRate => figures::bandwidth_text(
            export::average(row.tx_history, 10) as u64,
        ),
        SortColumn::RxSteadyRate => figures::bandwidth_text(
            export::average(row.rx_history, 10) as u64,
        ),
        SortColumn::TxTotal => figures::amount_text(row.tx_bytes, show_bits),
        SortColumn::RxTotal => figures::amount_text(row.rx_bytes, show_bits),
    }
}

/// What a row shows, column by column.
pub open spec fn row_texts(row: ProcessRowView, show_bits: bool) -> Seq<Seq<char>> {
    table_columns().map_values(|column: SortColumn| cell_text(row, column, show_bits))
}

/// Lists the columns of the process table.
pub fn process_columns() -> (columns: Vec<SortColumn>)
    ensures
        columns@ == table_columns(),
{
    let mut columns: Vec<SortColumn> = Vec::new();
    columns.push(SortColumn::Pid);
    columns.push(SortColumn::Process);
    columns.push(SortColumn::User);
    columns.push(SortColumn::ProtocolMix);
    columns.push(SortColumn::TxRate);
    columns.push(SortColumn::RxRate);
    columns.push(SortColumn::TxSteadyRate);
    columns.push(SortColumn::RxSteadyRate);
    columns.push(SortColumn::TxTotal);
    columns.push(SortColumn::RxTotal);
    columns.push(SortColumn::Tid);
    columns.push(SortColumn::Thread);
    assert(columns@ =~= table_columns());
    columns
}

/// Names a column.
pub fn column_heading(column: SortColumn) -> (heading: &'static str)
    ensures
        heading@ == heading_text(column),
{
    match column {
        SortColumn::Pid => "PID",
        SortColumn::Tid => "TID",
        SortColumn::Process => "Process",
        SortColumn::Thread => "Thread",
        SortColumn::User => "User",
        SortColumn::ProtocolMix => "Proto Mix",
        SortColumn::TxRate => "TX/s (2s)",
        SortColumn::RxRate => "RX/s (2s)",
        SortColumn::TxSteadyRate => "TX/s (10s)",
        SortColumn::RxSteadyRate => "RX/s (10s)",
        SortColumn::TxTotal => "TX Total",
        SortColumn::RxTotal => "RX Total",
    }
}

/// Writes what a column of a row shows.
fn write_cell(row: &ProcessRow, column: SortColumn, show_bits: bool) -> (shown: String)
    ensures
        shown@ == cell_text(row@, column, show_bits),
{
    match column {
        SortColumn::Pid => number::decimal_text(row.info.pid as u64),
        SortColumn::Tid => number::decimal_text(row.info.tid as u64),
        SortColumn::Process => row.info.name.clone(),
        SortColumn::Thread => row.info.thread_name.clone(),
        SortColumn::User => row.info.username.clone(),
        SortColumn::ProtocolMix => figures::protocol_mix_summary(row),
        SortColumn::TxRate => figures::format_bandwidth(export::two_second_avg(&row.tx_history)),
        SortColumn::RxRate => figures::format_bandwidth(export::two_second_avg(&row.rx_history)),
        SortColumn::TxSteadyRate => figures::format_bandwidth(
            export::ten_second_avg(&row.tx_history),
        ),
        SortColumn::RxSteadyRate => figures::format_bandwidth(
            export::ten_second_avg(&row.rx_history),
        ),
        SortColumn::TxTotal => figures::format_bytes_or_bits(row.tx_bytes, show_bits),
        SortColumn::RxTotal => figures::format_bytes_or_bits(row.rx_bytes, show_bits),
    }
}

/// Writes what a row shows, column by column.
pub fn process_cells(row: &ProcessRow, show_bits: bool) -> (cells: Vec<String>)
    ensures
        text::string_texts(cells@) == row_texts(row@, show_bits),
{
    let columns = process_columns();
    let mut cells: Vec<String> = Vec::new();
    let mut i: usize = 0;
    while i < columns.len()
        invariant
            i <= columns@.len(),
            columns@ == table_columns(),
            cells@.len() == i,
            forall|j: int|
                0 <= j < i ==> (#[trigger] cells@[j])@ == row_texts(row@, show_bits)[j],
        decreases columns@.len() - i,
    {
        cells.push(write_cell(row, columns[i], show_bits));
        i += 1;
    }
    assert(text::string_texts(cells@) =~= row_texts(row@, show_bits));
    cells
}

/// What a connection shows, column by column. `local` and `remote` are its
/// endpoints as they are written.
pub open spec fn connection_texts(
    connection: ConnectionEntryView,
    local: Seq<char>,
    remote: Seq<char>,
) -> Seq<Seq<char>> {
    seq![
        number::decimal(connection.pid as nat),
        number::decimal(connection.tid as nat),
        connection.thread_name,
        connection.process,
        connection.username,
        local,
        remote,
        figures::protocol_name(connection.protocol),
        connection.state,
        number::decimal(connection.tx_bytes as nat),
        number::decimal(connection.rx_bytes as nat),
    ]
}

/// The headings of the connection table.
pub fn connection_headings() -> (headings: [&'static str; 11])
    ensures
        headings@.map_values(|heading: &str| heading@) == seq![
            "PID"@,
            "TID"@,
            "Thread"@,
            "Process"@,
            "User"@,
            "Local"@,
            "Remote"@,
            "Proto"@,
            "State"@,
            "TX"@,
            "RX"@,
        ],
{
    [
        "PID",
        "TID",
        "Thread",
        "Process",
        "User",
        "Local",
        "Remote",
        "Proto",
        "State",
        "TX",
        "RX",
    ]
}

/// Writes what a connection shows, column by column.
pub fn connection_cells(connection: &ConnectionEntry, local: &str, remote: &str) -> (cells: Vec<
    String,
>)
    ensures
        text::string_texts(cells@) == connection_texts(connection@, local@, remote@),
{
    let mut cells: Vec<String> = Vec::new();
    cells.push(number::decimal_text(connection.pid as u64));
    cells.push(number::decimal_text(connection.tid as u64));
    cells.push(connection.thread_name.clone());
    cells.push(connection.process.clone());
    cells.push(connection.username.clone());
    cells.push(local.to_string());
    cells.push(remote.to_string());
    cells.push(figures::format_protocol(connection.protocol).to_string());
    cells.push(connection.state.clone());
    cells.push(number::decimal_text(connection.tx_bytes));
    cells.push(number::decimal_text(connection.rx_bytes));
    assert(text::string_texts(cells@) =~= connection_texts(connection@, local@, remote@));
    cells
}

// ---------------------------------------------------------------------------
// Labels
// ---------------------------------------------------------------------------

/// The labels of the interface: its totals, its rates, and the filter if one is
/// in force.
pub open spec fn summary_texts(
    stats: InterfaceStats,
    show_bits: bool,
    active_filter: Seq<char>,
) -> Seq<Seq<char>> {
    let figures = seq![
        "TX Total: "@ + figures::amount_text(stats.tx_bytes_total, show_bits),
        "RX Total: "@ + figures::amount_text(stats.rx_bytes_total, show_bits),
        "Current BW: "@ + figures::bandwidth_text(stats.current_bandwidth_bytes_per_sec) + "/s"@,
        "Peak BW: "@ + figures::bandwidth_text(stats.peak_bandwidth_bytes_per_sec) + "/s"@,
    ];
    if active_filter.len() == 0 {
        figures
    } else {
        figures.push("Active Filter: "@ + active_filter)
    }
}

/// Writes the labels of the interface.
pub fn interface_summary(stats: &InterfaceStats, show_bits: bool, active_filter: &str) -> (labels: Vec<
    String,
>)
    ensures
        text::string_texts(labels@) == summary_texts(*stats, show_bits, active_filter@),
{
    let sent = figures::format_bytes_or_bits(stats.tx_bytes_total, show_bits);
    let received = figures::format_bytes_or_bits(stats.rx_bytes_total, show_bits);
    let current = figures::format_bandwidth(stats.current_bandwidth_bytes_per_sec);
    let peak = figures::format_bandwidth(stats.peak_bandwidth_bytes_per_sec);
    let mut labels: Vec<String> = Vec::new();
    labels.push(text::followed_by("TX Total: ", sent.as_str()));
    labels.push(text::followed_by("RX Total: ", received.as_str()));
    let mut current_label = text::followed_by("Current BW: ", current.as_str());
    current_label.append("/s");
    labels.push(current_label);
    let mut peak_label = text::followed_by("Peak BW: ", peak.as_str());
    peak_label.append("/s");
    labels.push(peak_label);
    let filter = text::chars_of(active_filter);
    if filter.len() > 0 {
        labels.push(text::followed_by("Active Filter: ", active_filter));
    }
    assert(text::string_texts(labels@) =~= summary_texts(*stats, show_bits, active_filter@));
    labels
}

/// The label of the selected thread.
pub open spec fn selected_text(row: ProcessRowView) -> Seq<char> {
    "Selected thread: "@ + row.info.name + " / "@ + row.info.thread_name + " (PID "@
        + number::decimal(row.info.pid as nat) + ", TID "@ + number::decimal(row.info.tid as nat)
        + ", user "@ + row.info.username + ")"@
}

/// The label of the connection table.
pub open spec fn owner_text(row: ProcessRowView) -> Seq<char> {
    "Process: "@ + row.info.name + " (PID "@ + number::decimal(row.info.pid as nat) + ") | User: "@
        + row.info.username
}

/// Writes the label of the selected thread.
pub fn selected_label(row: &ProcessRow) -> (label: String)
    ensures
        label@ == selected_text(row@),
{
    let mut label = "Selected thread: ".to_string();
    label.append(row.info.name.as_str());
    label.append(" / ");
    label.append(row.info.thread_name.as_str());
    label.append(" (PID ");
    number::push_decimal(&mut label, row.info.pid as u64);
    label.append(", TID ");
    number::push_decimal(&mut label, row.info.tid as u64);
    label.append(", user ");
    label.append(row.info.username.as_str());
    label.append(")");
    label
}

/// Writes the label of the connection table.
pub fn owner_label(row: &ProcessRow) -> (label: String)
    ensures
        label@ == owner_text(row@),
{
    let mut label = "Process: ".to_string();
    label.append(row.info.name.as_str());
    label.append(" (PID ");
    number::push_decimal(&mut label, row.info.pid as u64);
    label.append(") | User: ");
    label.append(row.info.username.as_str());
    label
}

// ---------------------------------------------------------------------------
// Laws
// ---------------------------------------------------------------------------

/// Sorting loses no row: the order names the position of every one.
pub proof fn sorting_loses_no_row(
    order: Seq<usize>,
    rows: Seq<ProcessRowView>,
    state: SortState,
    at: int,
)
    requires
        shown_order(order, rows, state),
        0 <= at < rows.len(),
    ensures
        exists|i: int| 0 <= i < order.len() && order[i] == at,
{
    sort::lemma_range_contains(order, rows.len() as int, at);
}

/// A selection only hides connections: it never shows more than there are
/// without one.
pub proof fn selection_only_hides(rows: Seq<ProcessRowView>, key: ThreadKey)
    ensures
        visible_connections(rows, Some(key)).len() <= visible_connections(rows, None).len(),
    decreases rows.len(),
{
    if rows.len() > 0 {
        selection_only_hides(rows.drop_last(), key);
    }
}

} // verus!
