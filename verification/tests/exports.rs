use pingtest::export::{
    column_header, export_cell, export_columns, export_plan, export_row, CellValue, ExportColumn, ExportConfig,
    TargetRecord, HEADER_ROW,
};

fn config(all: bool) -> ExportConfig {
    ExportConfig {
        export_ip: all,
        export_hostname: all,
        export_success_count: all,
        export_fail_count: all,
        export_fail_rate: all,
        export_total_sent: all,
        export_last_rtt: all,
        export_max_rtt: all,
        export_min_rtt: all,
        export_avg_rtt: all,
    }
}

fn record() -> TargetRecord {
    TargetRecord {
        ip: "10.1.2.3".to_string(),
        hostname: "core-switch".to_string(),
        success_count: 9,
        fail_count: 1,
        total_sent: 10,
        last_rtt_us: Some(1500),
        max_rtt_us: 4000,
        min_rtt_us: 800,
        avg_rtt_us: 1200,
    }
}

#[test]
fn all_columns_in_order() {
    assert_eq!(
        export_columns(&config(true)),
        vec![
            ExportColumn::Ip,
            ExportColumn::Hostname,
            ExportColumn::SuccessCount,
            ExportColumn::FailCount,
            ExportColumn::FailRate,
            ExportColumn::TotalSent,
            ExportColumn::LastRtt,
            ExportColumn::MaxRtt,
            ExportColumn::MinRtt,
            ExportColumn::AvgRtt,
        ]
    );
}

#[test]
fn no_columns() {
    assert!(export_columns(&config(false)).is_empty());
}

#[test]
fn some_columns_keep_their_order() {
    let mut c = config(false);
    c.export_avg_rtt = true;
    c.export_ip = true;
    c.export_fail_rate = true;
    assert_eq!(export_columns(&c), vec![ExportColumn::Ip, ExportColumn::FailRate, ExportColumn::AvgRtt]);
}

#[test]
fn headers_of_columns() {
    let headers: Vec<&str> = export_columns(&config(true)).into_iter().map(column_header).collect();
    assert_eq!(
        headers,
        vec!["IP", "主机名", "成功次数", "失败次数", "失败率(%)", "总发送", "延迟(ms)", "最大延迟(ms)", "最小延迟(ms)", "平均延迟(ms)"]
    );
}

#[test]
fn row_follows_the_columns() {
    let row = export_row(&export_columns(&config(true)), &record());
    assert_eq!(
        row,
        vec![
            CellValue::Text("10.1.2.3".to_string()),
            CellValue::Text("core-switch".to_string()),
            CellValue::Count(9),
            CellValue::Count(1),
            CellValue::FailRate,
            CellValue::Count(10),
            CellValue::Micros(1500),
            CellValue::Micros(4000),
            CellValue::Micros(800),
            CellValue::Micros(1200),
        ]
    );
}

#[test]
fn missing_last_reply_is_zero() {
    let mut r = record();
    r.last_rtt_us = None;
    assert_eq!(export_cell(ExportColumn::LastRtt, &r), CellValue::Micros(0));
}

#[test]
fn row_of_no_columns_is_empty() {
    assert!(export_row(&Vec::new(), &record()).is_empty());
}

#[test]
fn plan_puts_target_i_in_row_i_plus_one() {
    let mut second = record();
    second.ip = "10.9.9.9".to_string();
    second.last_rtt_us = None;
    let targets = vec![record(), second];
    let plan = export_plan(&config(true), &targets);
    assert_eq!(HEADER_ROW, 0);
    assert_eq!(plan.columns, export_columns(&config(true)));
    assert_eq!(plan.rows.len(), 2);
    assert_eq!(plan.rows[0].row, 1);
    assert_eq!(plan.rows[1].row, 2);
    assert_eq!(plan.rows[0].cells, export_row(&plan.columns, &targets[0]));
    assert_eq!(plan.rows[1].cells, export_row(&plan.columns, &targets[1]));
    assert_eq!(plan.rows[1].cells[0], CellValue::Text("10.9.9.9".to_string()));
}

#[test]
fn reordered_targets_move_their_rows() {
    let mut second = record();
    second.hostname = "edge".to_string();
    let a = export_plan(&config(true), &vec![record(), second]);
    let mut second = record();
    second.hostname = "edge".to_string();
    let b = export_plan(&config(true), &vec![second, record()]);
    assert_eq!(a.rows[0].cells, b.rows[1].cells);
    assert_eq!(a.rows[1].cells, b.rows[0].cells);
}

#[test]
fn empty_export_has_only_the_header() {
    let plan = export_plan(&config(false), &Vec::new());
    assert!(plan.columns.is_empty());
    assert!(plan.rows.is_empty());
}
