use sentinel_reporter::analyzer::calculator::Statistics;
use sentinel_reporter::analyzer::parser::CsvParser;
use sentinel_reporter::models::metrics::{CsvRow, RecordStatus, TrainingSession};

fn metric(cell: &String) -> Result<f64, String> {
    cell.parse::<f64>().map_err(|e| e.to_string())
}

fn log_row(gen: u32, status: &str, fitness: &str, trades: u32) -> CsvRow {
    let cells = [
        "2024-01-15 10:30:00+0000".to_string(),
        status.to_string(),
        gen.to_string(),
        fitness.to_string(),
        "-1.0".to_string(),
        "50".to_string(),
        "1.1".to_string(),
        "0.2".to_string(),
        "0.1".to_string(),
        trades.to_string(),
        "0.05".to_string(),
        "0.01".to_string(),
        "0.005".to_string(),
        "0.02".to_string(),
        "10".to_string(),
        "0.6".to_string(),
        "3.0".to_string(),
    ];
    CsvRow { raw: cells.to_vec() }
}

fn broken_row() -> CsvRow {
    CsvRow { raw: vec!["2024-01-15 10:30:00+0000".to_string(), "RECORD".to_string()] }
}

fn sample_rows() -> Vec<CsvRow> {
    vec![
        log_row(1, "RECORD", "10.0", 200),
        log_row(2, "UPDATE", "12.0", 180),
        broken_row(),
        log_row(3, "RECORD", "25.5", 150),
        log_row(4, "UPDATE", "26.0", 90),
    ]
}

#[test]
fn parse_rows_builds_session() {
    let (session, errors): (TrainingSession<f64>, _) = CsvParser::parse_rows(&sample_rows(), &metric);
    let gens: Vec<u32> = session.records.iter().map(|r| r.gen).collect();
    assert_eq!(gens, vec![1, 2, 3, 4]);
    assert_eq!(errors.len(), 1);
    assert_eq!(errors[0].message(), "Missing column 2");
    assert_eq!(session.symbol, "BTCUSDT");
    assert_eq!(session.dataset_path, "unknown");
    assert_eq!(session.total_generations, 4);
    assert_eq!(session.population_size, 250);
}

#[test]
fn every_row_is_a_record_or_an_error() {
    let rows = sample_rows();
    let (session, errors): (TrainingSession<f64>, _) = CsvParser::parse_rows(&rows, &metric);
    assert_eq!(session.records.len() + errors.len(), rows.len());
}

#[test]
fn empty_log_gives_empty_session() {
    let (session, errors): (TrainingSession<f64>, _) = CsvParser::parse_rows(&Vec::new(), &metric);
    assert!(session.records.is_empty());
    assert!(errors.is_empty());
    assert_eq!(session.total_generations, 0);
    assert!(session.latest().is_none());
}

#[test]
fn total_generations_is_last_generation() {
    let rows = vec![log_row(7, "RECORD", "1", 1), log_row(3, "RECORD", "1", 1)];
    let (session, _): (TrainingSession<f64>, _) = CsvParser::parse_rows(&rows, &metric);
    assert_eq!(session.total_generations, 3);
}

#[test]
fn incremental_keeps_newer_records() {
    let recs = CsvParser::parse_incremental_rows::<f64, _>(&sample_rows(), 2, &metric);
    let gens: Vec<u32> = recs.iter().map(|r| r.gen).collect();
    assert_eq!(gens, vec![3, 4]);
}

#[test]
fn incremental_is_the_newer_part_of_a_full_read() {
    let rows = sample_rows();
    let (session, _): (TrainingSession<f64>, _) = CsvParser::parse_rows(&rows, &metric);
    for last in 0..6u32 {
        let incremental = CsvParser::parse_incremental_rows::<f64, _>(&rows, last, &metric);
        let from_full: Vec<u32> =
            session.records.iter().filter(|r| r.gen > last).map(|r| r.gen).collect();
        let got: Vec<u32> = incremental.iter().map(|r| r.gen).collect();
        assert_eq!(got, from_full);
    }
}

#[test]
fn record_entries_keep_record_rows_in_order() {
    let (session, _): (TrainingSession<f64>, _) = CsvParser::parse_rows(&sample_rows(), &metric);
    let entries = session.record_entries();
    let gens: Vec<u32> = entries.iter().map(|r| r.gen).collect();
    assert_eq!(gens, vec![1, 3]);
    assert!(entries.iter().all(|r| r.status == RecordStatus::Record));
}

#[test]
fn latest_is_last_record() {
    let (session, _): (TrainingSession<f64>, _) = CsvParser::parse_rows(&sample_rows(), &metric);
    let latest = session.latest().unwrap();
    assert_eq!(latest.gen, 4);
    assert_eq!(latest.fitness, 26.0);
}

#[test]
fn trade_delta_first_to_last() {
    let (session, _): (TrainingSession<f64>, _) = CsvParser::parse_rows(&sample_rows(), &metric);
    assert_eq!(Statistics::trade_count_delta(&session), 90 - 200);
    let rows = vec![log_row(1, "RECORD", "1", 5), log_row(2, "RECORD", "1", 12)];
    let (session, _): (TrainingSession<f64>, _) = CsvParser::parse_rows(&rows, &metric);
    assert_eq!(Statistics::trade_count_delta(&session), 7);
}

#[test]
fn trade_delta_needs_two_records() {
    let rows = vec![log_row(1, "RECORD", "1", 5)];
    let (session, _): (TrainingSession<f64>, _) = CsvParser::parse_rows(&rows, &metric);
    assert_eq!(Statistics::trade_count_delta(&session), 0);
}

#[test]
fn default_session_is_empty() {
    let session: TrainingSession<f64> = TrainingSession::default();
    assert!(session.records.is_empty());
    assert_eq!(session.symbol, "");
    assert_eq!(session.dataset_path, "");
    assert_eq!(session.total_generations, 0);
    assert_eq!(session.population_size, 0);
    assert!(session.record_entries().is_empty());
}

const HEADER: &str = "timestamp,status,gen,fitness,pnl,win_rate,profit_factor,sharpe,max_drawdown,trades,mutation_rate,tp,sl,risk,cooldown,confidence,time_sec\n";

fn log_line(gen: u32, status: &str, trades: u32) -> String {
    format!(
        "2024-01-15 10:30:00+0000,{},{},{}.5,-1.0,50,1.1,0.2,0.1,{},0.05,0.01,0.005,0.02,10,0.6,3.0\n",
        status, gen, gen * 10, trades
    )
}

#[test]
fn parse_log_skips_header_and_reads_rows() {
    let data = format!("{}{}{}", HEADER, log_line(1, "RECORD", 200), log_line(2, "UPDATE", 150));
    let (session, errors): (TrainingSession<f64>, _) =
        CsvParser::parse_log(data.as_bytes(), &metric).unwrap();
    assert!(errors.is_empty());
    let gens: Vec<u32> = session.records.iter().map(|r| r.gen).collect();
    assert_eq!(gens, vec![1, 2]);
    assert_eq!(session.records[0].fitness, 10.5);
    assert_eq!(session.records[1].status, RecordStatus::Update);
    assert_eq!(session.total_generations, 2);
}

#[test]
fn parse_log_header_only_is_empty() {
    let (session, errors): (TrainingSession<f64>, _) =
        CsvParser::parse_log(HEADER.as_bytes(), &metric).unwrap();
    assert!(session.records.is_empty());
    assert!(errors.is_empty());
    let (session, _): (TrainingSession<f64>, _) = CsvParser::parse_log(b"", &metric).unwrap();
    assert!(session.records.is_empty());
}

#[test]
fn parse_log_rejects_ragged_rows() {
    let data = format!("{}{}1,2,3\n", HEADER, log_line(1, "RECORD", 200));
    let r = CsvParser::parse_log::<f64, _>(data.as_bytes(), &metric);
    assert!(r.is_err());
    let r = CsvParser::parse_log_incremental::<f64, _>(data.as_bytes(), 0, &metric);
    assert!(r.is_err());
}

#[test]
fn parse_log_reports_bad_cells() {
    let bad = log_line(3, "RECORD", 10).replacen("30.5", "oops", 1);
    let data = format!("{}{}{}", HEADER, log_line(1, "RECORD", 200), bad);
    let (session, errors): (TrainingSession<f64>, _) =
        CsvParser::parse_log(data.as_bytes(), &metric).unwrap();
    assert_eq!(session.records.len(), 1);
    assert_eq!(errors.len(), 1);
    assert_eq!(errors[0].message(), "Parse error at column 3: invalid float literal");
}

#[test]
fn parse_log_incremental_agrees_with_full_read() {
    let data = format!(
        "{}{}{}{}{}",
        HEADER,
        log_line(1, "RECORD", 200),
        log_line(2, "UPDATE", 180),
        log_line(3, "RECORD", 150),
        log_line(5, "UPDATE", 90)
    );
    let (session, _): (TrainingSession<f64>, _) =
        CsvParser::parse_log(data.as_bytes(), &metric).unwrap();
    for last in 0..7u32 {
        let recs = CsvParser::parse_log_incremental::<f64, _>(data.as_bytes(), last, &metric).unwrap();
        let from_full: Vec<(u32, f64, u32)> = session
            .records
            .iter()
            .filter(|r| r.gen > last)
            .map(|r| (r.gen, r.fitness, r.trades))
            .collect();
        let got: Vec<(u32, f64, u32)> = recs.iter().map(|r| (r.gen, r.fitness, r.trades)).collect();
        assert_eq!(got, from_full);
        assert!(recs.iter().all(|r| r.gen > last));
    }
}
