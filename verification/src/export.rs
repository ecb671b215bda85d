//! Planning the spreadsheet that exports ping results: which columns, with
//! which headers, and what each target's row holds.

use vstd::prelude::*;

verus! {

/// Which result columns an export holds.
pub struct ExportConfig {
    pub export_ip: bool,
    pub export_hostname: bool,
    pub export_success_count: bool,
    pub export_fail_count: bool,
    pub export_fail_rate: bool,
    pub export_total_sent: bool,
    pub export_last_rtt: bool,
    pub export_max_rtt: bool,
    pub export_min_rtt: bool,
    pub export_avg_rtt: bool,
}

/// A column of the export.
#[derive(Clone, Copy, Debug, PartialEq, Eq, Structural)]
pub enum ExportColumn {
    Ip,
    Hostname,
    SuccessCount,
    FailCount,
    FailRate,
    TotalSent,
    LastRtt,
    MaxRtt,
    MinRtt,
    AvgRtt,
}

/// The ping results of one target, as the export reads them.
pub struct TargetRecord {
    /// The target's address, as text.
    pub ip: String,
    pub hostname: String,
    pub success_count: u64,
    pub fail_count: u64,
    pub total_sent: u64,
    /// The round-trip time of the last reply, in microseconds.
    pub last_rtt_us: Option<u64>,
    pub max_rtt_us: u64,
    pub min_rtt_us: u64,
    pub avg_rtt_us: u64,
}

/// What a cell of a target's row holds.
#[derive(Debug, PartialEq, Eq)]
pub enum CellValue {
    /// Text, written as a string.
    Text(String),
    /// A count, written as a number.
    Count(u64),
    /// A duration in microseconds, written as a number of milliseconds.
    Micros(u64),
    /// The target's failure rate in percent, which its statistics compute.
    FailRate,
}

/// The place of a column in the export: columns come in this order.
pub open spec fn column_rank(c: ExportColumn) -> int {
    match c {
        ExportColumn::Ip => 0,
        ExportColumn::Hostname => 1,
        ExportColumn::SuccessCount => 2,
        ExportColumn::FailCount => 3,
        ExportColumn::FailRate => 4,
        ExportColumn::TotalSent => 5,
        ExportColumn::LastRtt => 6,
        ExportColumn::MaxRtt => 7,
        ExportColumn::MinRtt => 8,
        ExportColumn::AvgRtt => 9,
    }
}

/// Whether `config` asks for the column `c`.
pub open spec fn column_enabled(config: ExportConfig, c: ExportColumn) -> bool {
    match c {
        ExportColumn::Ip => config.export_ip,
        ExportColumn::Hostname => config.export_hostname,
        ExportColumn::SuccessCount => config.export_success_count,
        ExportColumn::FailCount => config.export_fail_count,
        ExportColumn::FailRate => config.export_fail_rate,
        ExportColumn::TotalSent => config.export_total_sent,
        ExportColumn::LastRtt => config.export_last_rtt,
        ExportColumn::MaxRtt => config.export_max_rtt,
        ExportColumn::MinRtt => config.export_min_rtt,
        ExportColumn::AvgRtt => config.export_avg_rtt,
    }
}

/// `seq![c]` when `on`, else nothing.
#[verifier::opaque]
pub open spec fn opt_column(on: bool, c: ExportColumn) -> Seq<ExportColumn> {
    if on {
        seq![c]
    } else {
        Seq::empty()
    }
}

/// The columns that `config` asks for, in the fixed column order.
pub open spec fn spec_export_columns(config: ExportConfig) -> Seq<ExportColumn> {
    opt_column(config.export_ip, ExportColumn::Ip) + opt_column(
        config.export_hostname,
        ExportColumn::Hostname,
    ) + opt_column(config.export_success_count, ExportColumn::SuccessCount) + opt_column(
        config.export_fail_count,
        ExportColumn::FailCount,
    ) + opt_column(config.export_fail_rate, ExportColumn::FailRate) + opt_column(
        config.export_total_sent,
        ExportColumn::TotalSent,
    ) + opt_column(config.export_last_rtt, ExportColumn::LastRtt) + opt_column(
        config.export_max_rtt,
        ExportColumn::MaxRtt,
    ) + opt_column(config.export_min_rtt, ExportColumn::MinRtt) + opt_column(
        config.export_avg_rtt,
        ExportColumn::AvgRtt,
    )
}

/// The header text of a column.
pub open spec fn spec_column_header(c: ExportColumn) -> Seq<char> {
    match c {
        ExportColumn::Ip => "IP"@,
        ExportColumn::Hostname => "主机名"@,
        ExportColumn::SuccessCount => "成功次数"@,
        ExportColumn::FailCount => "失败次数"@,
        ExportColumn::FailRate => "失败率(%)"@,
        ExportColumn::TotalSent => "总发送"@,
        ExportColumn::LastRtt => "延迟(ms)"@,
        ExportColumn::MaxRtt => "最大延迟(ms)"@,
        ExportColumn::MinRtt => "最小延迟(ms)"@,
        ExportColumn::AvgRtt => "平均延迟(ms)"@,
    }
}

/// The cell of column `c` in the row of `t`.
pub open spec fn spec_cell(c: ExportColumn, t: TargetRecord) -> CellValue {
    match c {
        ExportColumn::Ip => CellValue::Text(t.ip),
        ExportColumn::Hostname => CellValue::Text(t.hostname),
        ExportColumn::SuccessCount => CellValue::Count(t.success_count),
        ExportColumn::FailCount => CellValue::Count(t.fail_count),
        ExportColumn::FailRate => CellValue::FailRate,
        ExportColumn::TotalSent => CellValue::Count(t.total_sent),
        ExportColumn::LastRtt => CellValue::Micros(
            match t.last_rtt_us {
                Some(u) => u,
                None => 0,
            },
        ),
        ExportColumn::MaxRtt => CellValue::Micros(t.max_rtt_us),
        ExportColumn::MinRtt => CellValue::Micros(t.min_rtt_us),
        ExportColumn::AvgRtt => CellValue::Micros(t.avg_rtt_us),
    }
}

fn push_if(columns: &mut Vec<ExportColumn>, on: bool, c: ExportColumn)
    ensures
        final(columns)@ == old(columns)@ + opt_column(on, c),
{
    reveal(opt_column);
    if on {
        columns.push(c);
    }
    assert(final(columns)@ =~= old(columns)@ + opt_column(on, c));
}

/// The columns of an export: those that `config` asks for, in the order
/// IP, host name, successes, failures, failure rate, packets sent, last,
/// largest, smallest and mean round-trip time.
pub fn export_columns(config: &ExportConfig) -> (r: Vec<ExportColumn>)
    ensures
        r@ == spec_export_columns(*config),
        r@.len() <= 10,
        forall|i: int, j: int|
            0 <= i < j < r@.len() ==> column_rank(#[trigger] r@[i]) < column_rank(#[trigger] r@[j]),
        forall|c: ExportColumn| r@.contains(c) <==> column_enabled(*config, c),
{
    let mut columns: Vec<ExportColumn> = Vec::new();
    push_if(&mut columns, config.export_ip, ExportColumn::Ip);
    push_if(&mut columns, config.export_hostname, ExportColumn::Hostname);
    push_if(&mut columns, config.export_success_count, ExportColumn::SuccessCount);
    push_if(&mut columns, config.export_fail_count, ExportColumn::FailCount);
    push_if(&mut columns, config.export_fail_rate, ExportColumn::FailRate);
    push_if(&mut columns, config.export_total_sent, ExportColumn::TotalSent);
    push_if(&mut columns, config.export_last_rtt, ExportColumn::LastRtt);
    push_if(&mut columns, config.export_max_rtt, ExportColumn::MaxRtt);
    push_if(&mut columns, config.export_min_rtt, ExportColumn::MinRtt);
    push_if(&mut columns, config.export_avg_rtt, ExportColumn::AvgRtt);
    proof {
        lemma_columns_ordered(*config);
    }
    columns
}

/// `s` lists, in the fixed column order, exactly the columns below rank
/// `bound` that `config` asks for.
#[verifier::opaque]
pub open spec fn columns_below(config: ExportConfig, s: Seq<ExportColumn>, bound: int) -> bool {
    &&& s.len() <= bound
    &&& forall|i: int, j: int|
        0 <= i < j < s.len() ==> column_rank(#[trigger] s[i]) < column_rank(#[trigger] s[j])
    &&& forall|c: ExportColumn|
        s.contains(c) <==> (column_enabled(config, c) && column_rank(c) < bound)
}

proof fn lemma_columns_extend(config: ExportConfig, s: Seq<ExportColumn>, c: ExportColumn)
    requires
        columns_below(config, s, column_rank(c)),
    ensures
        columns_below(config, s + opt_column(column_enabled(config, c), c), column_rank(c) + 1),
{
    reveal(columns_below);
    reveal(opt_column);
    let t = s + opt_column(column_enabled(config, c), c);
    assert forall|i: int| 0 <= i < s.len() implies column_rank(#[trigger] s[i]) < column_rank(c) by {
        assert(s.contains(s[i]));
    }
    assert forall|x: ExportColumn| t.contains(x) <==> (column_enabled(config, x) && column_rank(x)
        < column_rank(c) + 1) by {
        if t.contains(x) {
            let k = choose|k: int| 0 <= k < t.len() && t[k] == x;
            if k >= s.len() {
                assert(x == c);
            } else {
                assert(s.contains(x));
            }
        }
        if column_enabled(config, x) && column_rank(x) < column_rank(c) + 1 {
            if column_rank(x) == column_rank(c) {
                assert(x == c);
                assert(t[s.len() as int] == x);
            } else {
                let k = choose|k: int| 0 <= k < s.len() && s[k] == x;
                assert(t[k] == x);
            }
        }
    }
}

proof fn lemma_columns_below(config: ExportConfig)
    ensures
        columns_below(config, spec_export_columns(config), 10),
{
    let s0 = Seq::<ExportColumn>::empty();
    assert(columns_below(config, s0, 0)) by {
        reveal(columns_below);
    }
    lemma_columns_extend(config, s0, ExportColumn::Ip);
    let s1 = s0 + opt_column(config.export_ip, ExportColumn::Ip);
    lemma_columns_extend(config, s1, ExportColumn::Hostname);
    let s2 = s1 + opt_column(config.export_hostname, ExportColumn::Hostname);
    lemma_columns_extend(config, s2, ExportColumn::SuccessCount);
    let s3 = s2 + opt_column(config.export_success_count, ExportColumn::SuccessCount);
    lemma_columns_extend(config, s3, ExportColumn::FailCount);
    let s4 = s3 + opt_column(config.export_fail_count, ExportColumn::FailCount);
    lemma_columns_extend(config, s4, ExportColumn::FailRate);
    let s5 = s4 + opt_column(config.export_fail_rate, ExportColumn::FailRate);
    lemma_columns_extend(config, s5, ExportColumn::TotalSent);
    let s6 = s5 + opt_column(config.export_total_sent, ExportColumn::TotalSent);
    lemma_columns_extend(config, s6, ExportColumn::LastRtt);
    let s7 = s6 + opt_column(config.export_last_rtt, ExportColumn::LastRtt);
    lemma_columns_extend(config, s7, ExportColumn::MaxRtt);
    let s8 = s7 + opt_column(config.export_max_rtt, ExportColumn::MaxRtt);
    lemma_columns_extend(config, s8, ExportColumn::MinRtt);
    let s9 = s8 + opt_column(config.export_min_rtt, ExportColumn::MinRtt);
    lemma_columns_extend(config, s9, ExportColumn::AvgRtt);
    let s10 = s9 + opt_column(config.export_avg_rtt, ExportColumn::AvgRtt);
    assert(s1 =~= opt_column(config.export_ip, ExportColumn::Ip));
    assert(s10 == spec_export_columns(config));
}

/// The columns of an export are listed each once, in the fixed column order,
/// and are exactly those that the configuration asks for.
pub proof fn lemma_columns_ordered(config: ExportConfig)
    ensures
        spec_export_columns(config).len() <= 10,
        forall|i: int, j: int|
            0 <= i < j < spec_export_columns(config).len() ==> column_rank(
                #[trigger] spec_export_columns(config)[i],
            ) < column_rank(#[trigger] spec_export_columns(config)[j]),
        forall|c: ExportColumn|
            spec_export_columns(config).contains(c) <==> column_enabled(config, c),
{
    lemma_columns_below(config);
    reveal(columns_below);
}

/// The header text of column `c`.
pub fn column_header(c: ExportColumn) -> (r: &'static str)
    ensures
        r@ == spec_column_header(c),
{
    match c {
        ExportColumn::Ip => "IP",
        ExportColumn::Hostname => "主机名",
        ExportColumn::SuccessCount => "成功次数",
        ExportColumn::FailCount => "失败次数",
        ExportColumn::FailRate => "失败率(%)",
        ExportColumn::TotalSent => "总发送",
        ExportColumn::LastRtt => "延迟(ms)",
        ExportColumn::MaxRtt => "最大延迟(ms)",
        ExportColumn::MinRtt => "最小延迟(ms)",
        ExportColumn::AvgRtt => "平均延迟(ms)",
    }
}

/// The cell of column `c` in the row of target `t`.
pub fn export_cell(c: ExportColumn, t: &TargetRecord) -> (r: CellValue)
    ensures
        r == spec_cell(c, *t),
        c == ExportColumn::Ip ==> r == CellValue::Text(t.ip),
        c == ExportColumn::Hostname ==> r == CellValue::Text(t.hostname),
        c == ExportColumn::SuccessCount ==> r == CellValue::Count(t.success_count),
        c == ExportColumn::FailCount ==> r == CellValue::Count(t.fail_count),
        c == ExportColumn::FailRate ==> r == CellValue::FailRate,
        c == ExportColumn::TotalSent ==> r == CellValue::Count(t.total_sent),
        c == ExportColumn::LastRtt ==> (t.last_rtt_us matches Some(u) ==> r == CellValue::Micros(u)),
        c == ExportColumn::LastRtt ==> (t.last_rtt_us is None ==> r == CellValue::Micros(0)),
        c == ExportColumn::MaxRtt ==> r == CellValue::Micros(t.max_rtt_us),
        c == ExportColumn::MinRtt ==> r == CellValue::Micros(t.min_rtt_us),
        c == ExportColumn::AvgRtt ==> r == CellValue::Micros(t.avg_rtt_us),
{
    match c {
        ExportColumn::Ip => CellValue::Text(t.ip.clone()),
        ExportColumn::Hostname => CellValue::Text(t.hostname.clone()),
        ExportColumn::SuccessCount => CellValue::Count(t.success_count),
        ExportColumn::FailCount => CellValue::Count(t.fail_count),
        ExportColumn::FailRate => CellValue::FailRate,
        ExportColumn::TotalSent => CellValue::Count(t.total_sent),
        ExportColumn::LastRtt => CellValue::Micros(
            match t.last_rtt_us {
                Some(u) => u,
                None => 0,
            },
        ),
        ExportColumn::MaxRtt => CellValue::Micros(t.max_rtt_us),
        ExportColumn::MinRtt => CellValue::Micros(t.min_rtt_us),
        ExportColumn::AvgRtt => CellValue::Micros(t.avg_rtt_us),
    }
}

/// Each export cell is the matching field of the target, unchanged: the
/// address and host name as text, the counts as counts, and the round-trip
/// times in microseconds, a missing last reply counting as zero.
pub proof fn lemma_cells_are_fields(t: TargetRecord)
    ensures
        spec_cell(ExportColumn::Ip, t) == CellValue::Text(t.ip),
        spec_cell(ExportColumn::Hostname, t) == CellValue::Text(t.hostname),
        spec_cell(ExportColumn::SuccessCount, t) == CellValue::Count(t.success_count),
        spec_cell(ExportColumn::FailCount, t) == CellValue::Count(t.fail_count),
        spec_cell(ExportColumn::FailRate, t) == CellValue::FailRate,
        spec_cell(ExportColumn::TotalSent, t) == CellValue::Count(t.total_sent),
        t.last_rtt_us matches Some(u) ==> spec_cell(ExportColumn::LastRtt, t) == CellValue::Micros(u),
        t.last_rtt_us is None ==> spec_cell(ExportColumn::LastRtt, t) == CellValue::Micros(0),
        spec_cell(ExportColumn::MaxRtt, t) == CellValue::Micros(t.max_rtt_us),
        spec_cell(ExportColumn::MinRtt, t) == CellValue::Micros(t.min_rtt_us),
        spec_cell(ExportColumn::AvgRtt, t) == CellValue::Micros(t.avg_rtt_us),
{
}

/// The row of target `t`: one cell for each of `columns`, in their order.
pub fn export_row(columns: &Vec<ExportColumn>, t: &TargetRecord) -> (r: Vec<CellValue>)
    ensures
        r@ == columns@.map_values(|c: ExportColumn| spec_cell(c, *t)),
{
    let mut row: Vec<CellValue> = Vec::new();
    for i in 0..columns.len()
        invariant
            row@ == columns@.take(i as int).map_values(|c: ExportColumn| spec_cell(c, *t)),
    {
        row.push(export_cell(columns[i], t));
        assert(columns@.take(i + 1) =~= columns@.take(i as int).push(columns@[i as int]));
        assert(row@ =~= columns@.take(i + 1).map_values(|c: ExportColumn| spec_cell(c, *t)));
    }
    assert(columns@.take(columns@.len() as int) =~= columns@);
    row
}

/// The sheet row that holds the header.
pub const HEADER_ROW: u32 = 0;

/// The sheet row of the `i`-th target: the rows after the header hold the
/// targets in order. Like any row number it is taken modulo 2^32.
pub open spec fn target_row(i: int) -> u32 {
    (i + 1) as u32
}

/// The cells of the row of `t` under `columns`.
pub open spec fn spec_row(columns: Seq<ExportColumn>, t: TargetRecord) -> Seq<CellValue> {
    columns.map_values(|c: ExportColumn| spec_cell(c, t))
}

/// A row of the export sheet: its number and its cells, the `j`-th of which
/// goes in column `j`.
pub struct SheetRow {
    pub row: u32,
    pub cells: Vec<CellValue>,
}

/// The layout of an export sheet: row [`HEADER_ROW`] holds the header of
/// `columns[j]` in column `j`, and `rows` holds the target rows.
pub struct ExportPlan {
    pub columns: Vec<ExportColumn>,
    pub rows: Vec<SheetRow>,
}

/// The layout of the export of `targets`: the columns that `config` asks
/// for, then the `i`-th target's row in sheet row `i + 1`.
pub fn export_plan(config: &ExportConfig, targets: &Vec<TargetRecord>) -> (p: ExportPlan)
    ensures
        p.columns@ == spec_export_columns(*config),
        p.rows@.len() == targets@.len(),
        forall|i: int|
            0 <= i < targets@.len() ==> (#[trigger] p.rows@[i]).row == target_row(i)
                && p.rows@[i].cells@ == spec_row(p.columns@, targets@[i]),
{
    let columns = export_columns(config);
    let mut rows: Vec<SheetRow> = Vec::new();
    for i in 0..targets.len()
        invariant
            columns@ == spec_export_columns(*config),
            rows@.len() == i,
            forall|k: int|
                0 <= k < i ==> (#[trigger] rows@[k]).row == target_row(k) && rows@[k].cells@
                    == spec_row(columns@, targets@[k]),
    {
        let cells = export_row(&columns, &targets[i]);
        let row: u32 = #[verifier::truncate] ((i + 1) as u32);
        rows.push(SheetRow { row, cells });
    }
    ExportPlan { columns, rows }
}

/// Rows follow their targets: exporting the targets in another order moves
/// each target's row with it, unchanged.
pub proof fn lemma_rows_follow_targets(
    columns: Seq<ExportColumn>,
    targets: Seq<TargetRecord>,
    reordered: Seq<TargetRecord>,
    from: spec_fn(int) -> int,
)
    requires
        forall|i: int|
            0 <= i < reordered.len() ==> 0 <= from(i) < targets.len() && #[trigger] reordered[i]
                == targets[from(i)],
    ensures
        forall|i: int|
            0 <= i < reordered.len() ==> #[trigger] spec_row(columns, reordered[i]) == spec_row(
                columns,
                targets[from(i)],
            ),
{
}

} // verus!
