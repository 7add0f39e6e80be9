//! Session history as comma-separated text: one row per thread and second.

use vstd::prelude::*;

use crate::aggregator::account::Account;
use crate::aggregator::{ThreadKey, ThreadStatsView, HISTORY_SLOTS};
use crate::collections;
use crate::number;
use crate::sort;
use crate::sort::Triple;
use crate::text;

verus! {

/// Number of columns of a row.
pub const CSV_COLUMNS: usize = 13;

/// The heading above the rows.
pub const CSV_HEADER: &'static str =
    "timestamp,pid,tid,process,thread,user,uid,tx_bytes_total,rx_bytes_total,tx_2s_avg,rx_2s_avg,tx_10s_avg,rx_10s_avg\n";

/// One row of the session history: a thread during one second.
#[derive(Clone, Debug)]
pub struct HistoryCsvRow {
    pub timestamp: u64,
    pub pid: u32,
    pub tid: u32,
    pub process: String,
    pub thread: String,
    pub user: String,
    pub uid: u32,
    pub tx_bytes_total: u64,
    pub rx_bytes_total: u64,
    pub tx_2s_avg: u64,
    pub rx_2s_avg: u64,
    pub tx_10s_avg: u64,
    pub rx_10s_avg: u64,
}

/// A [`HistoryCsvRow`] with its texts as characters.
pub struct HistoryCsvRowView {
    pub timestamp: u64,
    pub pid: u32,
    pub tid: u32,
    pub process: Seq<char>,
    pub thread: Seq<char>,
    pub user: Seq<char>,
    pub uid: u32,
    pub tx_bytes_total: u64,
    pub rx_bytes_total: u64,
    pub tx_2s_avg: u64,
    pub rx_2s_avg: u64,
    pub tx_10s_avg: u64,
    pub rx_10s_avg: u64,
}

impl View for HistoryCsvRow {
    type V = HistoryCsvRowView;

    open spec fn view(&self) -> HistoryCsvRowView {
        HistoryCsvRowView {
            timestamp: self.timestamp,
            pid: self.pid,
            tid: self.tid,
            process: self.process@,
            thread: self.thread@,
            user: self.user@,
            uid: self.uid,
            tx_bytes_total: self.tx_bytes_total,
            rx_bytes_total: self.rx_bytes_total,
            tx_2s_avg: self.tx_2s_avg,
            rx_2s_avg: self.rx_2s_avg,
            tx_10s_avg: self.tx_10s_avg,
            rx_10s_avg: self.rx_10s_avg,
        }
    }
}

/// Rows with their texts as characters.
pub open spec fn csv_row_views(rows: Seq<HistoryCsvRow>) -> Seq<HistoryCsvRowView> {
    rows.map_values(|row: HistoryCsvRow| row@)
}

// ---------------------------------------------------------------------------
// Averages
// ---------------------------------------------------------------------------

/// Sum of the newest `n` samples.
pub open spec fn sample_sum(history: Seq<u64>, n: nat) -> nat
    decreases n,
{
    if n == 0 {
        0
    } else {
        sample_sum(history, (n - 1) as nat) + history[n - 1] as nat
    }
}

/// Average of the newest `n` samples, rounded down.
pub open spec fn average(history: Seq<u64>, n: nat) -> nat {
    sample_sum(history, n) / n
}

/// The sum of samples is at most their number times the largest value.
proof fn lemma_sample_sum_bound(history: Seq<u64>, n: nat)
    ensures
        sample_sum(history, n) <= n * u64::MAX,
    decreases n,
{
    if n > 0 {
        lemma_sample_sum_bound(history, (n - 1) as nat);
    }
}

/// Averages the newest samples.
fn average_of(history: &[u64; HISTORY_SLOTS], n: usize) -> (value: u64)
    requires
        0 < n <= HISTORY_SLOTS,
    ensures
        value == average(history@, n as nat),
{
    let mut sum: u128 = 0;
    let mut i: usize = 0;
    while i < n
        invariant
            i <= n <= HISTORY_SLOTS,
            sum == sample_sum(history@, i as nat),
        decreases n - i,
    {
        proof {
            lemma_sample_sum_bound(history@, (i + 1) as nat);
        }
        sum += history[i] as u128;
        i += 1;
    }
    proof {
        lemma_sample_sum_bound(history@, n as nat);
        assert(sum / (n as u128) <= u64::MAX) by (nonlinear_arith)
            requires
                sum <= n * u64::MAX,
                n > 0,
        ;
    }
    (sum / n as u128) as u64
}

/// Averages the newest two samples.
pub fn two_second_avg(history: &[u64; HISTORY_SLOTS]) -> (value: u64)
    ensures
        value == average(history@, 2),
{
    average_of(history, 2)
}

/// Averages the newest ten samples.
pub fn ten_second_avg(history: &[u64; HISTORY_SLOTS]) -> (value: u64)
    ensures
        value == average(history@, 10),
{
    average_of(history, 10)
}

/// Averages all samples.
pub fn forty_second_avg(history: &[u64; HISTORY_SLOTS]) -> (value: u64)
    ensures
        value == average(history@, history@.len()),
{
    average_of(history, HISTORY_SLOTS)
}

// ---------------------------------------------------------------------------
// Rows
// ---------------------------------------------------------------------------

/// The row of a thread at a point in time.
pub open spec fn csv_row(timestamp: u64, stats: ThreadStatsView) -> HistoryCsvRowView {
    HistoryCsvRowView {
        timestamp,
        pid: stats.info.pid,
        tid: stats.info.tid,
        process: stats.info.name,
        thread: stats.info.thread_name,
        user: stats.info.username,
        uid: stats.info.uid,
        tx_bytes_total: stats.tx_bytes_total,
        rx_bytes_total: stats.rx_bytes_total,
        tx_2s_avg: average(stats.tx_history, 2) as u64,
        rx_2s_avg: average(stats.rx_history, 2) as u64,
        tx_10s_avg: average(stats.tx_history, 10) as u64,
        rx_10s_avg: average(stats.rx_history, 10) as u64,
    }
}

/// The rows of all threads, in the given order.
pub open spec fn csv_rows_in_order(
    order: Seq<ThreadKey>,
    timestamp: u64,
    threads: Map<ThreadKey, ThreadStatsView>,
) -> Seq<HistoryCsvRowView> {
    order.map_values(|key: ThreadKey| csv_row(timestamp, threads[key]))
}

impl Account {
    /// One row for each thread, in the order in which the threads came.
    pub fn history_rows(&self, timestamp: u64) -> (rows: Vec<HistoryCsvRow>)
        requires
            self.well_formed(),
        ensures
            collections::lists_keys(self.thread_order(), self@.threads),
            csv_row_views(rows@) == csv_rows_in_order(
                self.thread_order(),
                timestamp,
                self@.threads,
            ),
    {
        let ghost order = self.thread_order();
        let ghost goal = csv_rows_in_order(order, timestamp, self@.threads);
        let mut rows: Vec<HistoryCsvRow> = Vec::new();
        let count: usize = self.thread_count();
        let mut i: usize = 0;
        while i < count
            invariant
                i <= count,
                count == order.len(),
                self.well_formed(),
                order == self.thread_order(),
                goal == csv_rows_in_order(order, timestamp, self@.threads),
                rows@.len() == i,
                forall|j: int| 0 <= j < i ==> (#[trigger] rows@[j])@ == goal[j],
            decreases count - i,
        {
            let (key, stats) = self.thread_at(i);
            let row = HistoryCsvRow {
                timestamp,
                pid: stats.info.pid,
                tid: stats.info.tid,
                process: stats.info.name.clone(),
                thread: stats.info.thread_name.clone(),
                user: stats.info.username.clone(),
                uid: stats.info.uid,
                tx_bytes_total: stats.tx_bytes_total,
                rx_bytes_total: stats.rx_bytes_total,
                tx_2s_avg: two_second_avg(&stats.tx_history),
                rx_2s_avg: two_second_avg(&stats.rx_history),
                tx_10s_avg: ten_second_avg(&stats.tx_history),
                rx_10s_avg: ten_second_avg(&stats.rx_history),
            };
            assert(row@ == goal[i as int]);
            rows.push(row);
            i += 1;
        }
        proof {
            self.lemma_threads();
            assert(csv_row_views(rows@) =~= goal);
            assert forall|key: ThreadKey|
                order.to_set().contains(key) == self@.threads.dom().contains(key) by {
                assert(self@.threads.contains_key(key) <==> order.contains(key));
            }
            assert(order.to_set() =~= self@.threads.dom());
        }
        rows
    }
}

// ---------------------------------------------------------------------------
// Text
// ---------------------------------------------------------------------------

/// A text that can stand between commas: quotation marks become apostrophes
/// and commas become spaces.
pub open spec fn sanitized(value: Seq<char>) -> Seq<char> {
    text::with_replaced(text::with_replaced(value, '"', '\''), ',', ' ')
}

/// The columns of a row.
pub open spec fn csv_fields(row: HistoryCsvRowView) -> Seq<Seq<char>> {
    seq![
        number::decimal(row.timestamp as nat),
        number::decimal(row.pid as nat),
        number::decimal(row.tid as nat),
        sanitized(row.process),
        sanitized(row.thread),
        sanitized(row.user),
        number::decimal(row.uid as nat),
        number::decimal(row.tx_bytes_total as nat),
        number::decimal(row.rx_bytes_total as nat),
        number::decimal(row.tx_2s_avg as nat),
        number::decimal(row.rx_2s_avg as nat),
        number::decimal(row.tx_10s_avg as nat),
        number::decimal(row.rx_10s_avg as nat),
    ]
}

/// A row as a line of text.
pub open spec fn csv_line(row: HistoryCsvRowView) -> Seq<char> {
    text::joined(csv_fields(row), ","@) + "\n"@
}

/// Makes a text fit to stand between commas.
pub fn sanitize_csv(value: &str) -> (clean: String)
    ensures
        clean@ == sanitized(value@),
{
    let without_quotes = text::replace_char(value, '"', '\'');
    text::replace_char(without_quotes.as_str(), ',', ' ')
}

/// Writes a row as a line of text.
pub fn write_csv_line(row: &HistoryCsvRow) -> (line: String)
    ensures
        line@ == csv_line(row@),
{
    let mut fields: Vec<String> = Vec::new();
    fields.push(number::decimal_text(row.timestamp));
    fields.push(number::decimal_text(row.pid as u64));
    fields.push(number::decimal_text(row.tid as u64));
    fields.push(sanitize_csv(row.process.as_str()));
    fields.push(sanitize_csv(row.thread.as_str()));
    fields.push(sanitize_csv(row.user.as_str()));
    fields.push(number::decimal_text(row.uid as u64));
    fields.push(number::decimal_text(row.tx_bytes_total));
    fields.push(number::decimal_text(row.rx_bytes_total));
    fields.push(number::decimal_text(row.tx_2s_avg));
    fields.push(number::decimal_text(row.rx_2s_avg));
    fields.push(number::decimal_text(row.tx_10s_avg));
    fields.push(number::decimal_text(row.rx_10s_avg));
    assert(text::string_texts(fields@) =~= csv_fields(row@));
    let mut line = text::join_strings(&fields, ",");
    line.append("\n");
    line
}

/// The lines of rows, in the given order of positions.
pub open spec fn csv_lines_in_order(order: Seq<usize>, rows: Seq<HistoryCsvRow>) -> Seq<
    Seq<char>,
> {
    order.map_values(|at: usize| csv_line(rows[at as int]@))
}

/// The key that exported rows are sorted by: time, process id, thread id.
pub open spec fn export_keys(rows: Seq<HistoryCsvRow>) -> Seq<Triple> {
    rows.map_values(
        |row: HistoryCsvRow| Triple { first: row.timestamp, second: row.pid, third: row.tid },
    )
}

/// Writes rows as lines of text, ordered by time, process id and thread id.
pub fn export_lines(rows: &Vec<HistoryCsvRow>) -> (lines: Vec<String>)
    ensures
        exists|order: Seq<usize>| #[trigger]
            sort::is_stable_sort(order, export_keys(rows@), false) && text::string_texts(lines@)
                == csv_lines_in_order(order, rows@),
{
    let mut keys: Vec<Triple> = Vec::new();
    let mut i: usize = 0;
    while i < rows.len()
        invariant
            i <= rows@.len(),
            keys@.len() == i,
            forall|j: int| 0 <= j < i ==> #[trigger] keys@[j] == export_keys(rows@)[j],
        decreases rows@.len() - i,
    {
        keys.push(Triple { first: rows[i].timestamp, second: rows[i].pid, third: rows[i].tid });
        i += 1;
    }
    assert(keys@ =~= export_keys(rows@));
    let order = sort::sorted_order(&keys, false);
    let ghost goal = csv_lines_in_order(order@, rows@);
    let mut lines: Vec<String> = Vec::new();
    let mut n: usize = 0;
    while n < order.len()
        invariant
            n <= order@.len(),
            goal == csv_lines_in_order(order@, rows@),
            sort::lists_range(order@, 0, rows@.len() as int),
            lines@.len() == n,
            forall|j: int| 0 <= j < n ==> (#[trigger] lines@[j])@ == goal[j],
        decreases order@.len() - n,
    {
        lines.push(write_csv_line(&rows[order[n]]));
        n += 1;
    }
    assert(text::string_texts(lines@) =~= goal);
    lines
}

/// The directory that files are written to: the home directory, or `/tmp`
/// where none is known.
pub open spec fn output_dir(home: Option<String>) -> Seq<char> {
    match home {
        Some(home) => home@,
        None => "/tmp"@,
    }
}

/// The path of a file in the output directory: a name made of a prefix, a time
/// and an extension.
pub open spec fn output_path(
    home: Option<String>,
    prefix: Seq<char>,
    timestamp: u64,
    extension: Seq<char>,
) -> Seq<char> {
    output_dir(home) + "/"@ + prefix + number::decimal(timestamp as nat) + extension
}

/// Makes up the path of an output file.
pub fn build_output_path(
    home: &Option<String>,
    prefix: &str,
    timestamp: u64,
    extension: &str,
) -> (path: String)
    ensures
        path@ == output_path(*home, prefix@, timestamp, extension@),
{
    let mut path = match home {
        Some(home) => home.clone(),
        None => "/tmp".to_string(),
    };
    path.append("/");
    path.append(prefix);
    number::push_decimal(&mut path, timestamp);
    path.append(extension);
    path
}

/// Makes up the path of the running session's history file.
pub fn history_path(home: &Option<String>, timestamp: u64) -> (path: String)
    ensures
        path@ == output_path(*home, "netmon_history_"@, timestamp, ".csv"@),
{
    build_output_path(home, "netmon_history_", timestamp, ".csv")
}

// ---------------------------------------------------------------------------
// Laws
// ---------------------------------------------------------------------------

proof fn lemma_decimal_free_of_commas(n: nat)
    ensures
        text::free_of(number::decimal(n), ','),
{
    number::lemma_decimal_digits(n);
}

/// A line holds the columns of its row and no others, whatever the names are:
/// splitting it at commas gives them back.
pub proof fn csv_line_gives_its_fields(row: HistoryCsvRowView)
    ensures
        csv_fields(row).len() == CSV_COLUMNS,
        text::split_on(csv_line(row).drop_last(), ',') == csv_fields(row),
{
    reveal_strlit("\n");
    lemma_decimal_free_of_commas(row.timestamp as nat);
    lemma_decimal_free_of_commas(row.pid as nat);
    lemma_decimal_free_of_commas(row.tid as nat);
    lemma_decimal_free_of_commas(row.uid as nat);
    lemma_decimal_free_of_commas(row.tx_bytes_total as nat);
    lemma_decimal_free_of_commas(row.rx_bytes_total as nat);
    lemma_decimal_free_of_commas(row.tx_2s_avg as nat);
    lemma_decimal_free_of_commas(row.rx_2s_avg as nat);
    lemma_decimal_free_of_commas(row.tx_10s_avg as nat);
    lemma_decimal_free_of_commas(row.rx_10s_avg as nat);
    reveal_strlit(",");
    assert(","@ =~= seq![',']);
    text::joined_fields_split_back(csv_fields(row), ',');
    assert(csv_line(row).drop_last() =~= text::joined(csv_fields(row), ","@));
}

/// The heading names as many columns as a row has.
pub proof fn header_matches_rows(row: HistoryCsvRowView)
    ensures
        text::split_on(CSV_HEADER@.drop_last(), ',').len() == csv_fields(row).len(),
{
    let names = seq![
        "timestamp"@,
        "pid"@,
        "tid"@,
        "process"@,
        "thread"@,
        "user"@,
        "uid"@,
        "tx_bytes_total"@,
        "rx_bytes_total"@,
        "tx_2s_avg"@,
        "rx_2s_avg"@,
        "tx_10s_avg"@,
        "rx_10s_avg"@,
    ];
    reveal_strlit(",");
    reveal_strlit("timestamp");
    reveal_strlit("pid");
    reveal_strlit("tid");
    reveal_strlit("process");
    reveal_strlit("thread");
    reveal_strlit("user");
    reveal_strlit("uid");
    reveal_strlit("tx_bytes_total");
    reveal_strlit("rx_bytes_total");
    reveal_strlit("tx_2s_avg");
    reveal_strlit("rx_2s_avg");
    reveal_strlit("tx_10s_avg");
    reveal_strlit("rx_10s_avg");
    reveal_strlit(
        "timestamp,pid,tid,process,thread,user,uid,tx_bytes_total,rx_bytes_total,tx_2s_avg,rx_2s_avg,tx_10s_avg,rx_10s_avg\n",
    );
    reveal_with_fuel(text::joined, 14);
    assert(","@ =~= seq![',']);
    text::joined_fields_split_back(names, ',');
    assert(CSV_HEADER@.drop_last() =~= text::joined(names, ","@));
}

} // verus!
