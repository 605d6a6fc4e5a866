use sentinel_reporter::models::metrics::{
    CsvRow, GenerationRecord, RecordError, RecordStatus, Timestamp,
};
use sentinel_reporter::text::{parse_u32, push_decimal, IntErrorKind};

fn metric(cell: &String) -> Result<f64, String> {
    cell.parse::<f64>().map_err(|e| e.to_string())
}

fn row(cells: &[&str]) -> CsvRow {
    CsvRow { raw: cells.iter().map(|c| c.to_string()).collect() }
}

const GOOD: [&str; 17] = [
    "2024-01-15 10:30:00+0000",
    "RECORD",
    "12",
    "150.5",
    "-3.25",
    "48.5",
    "0.9",
    "-1.5",
    "0.3",
    "240",
    "0.05",
    "0.012",
    "0.006",
    "0.02",
    "30",
    "0.65",
    "12.5",
];

#[test]
fn parse_u32_accepts_plain_and_plus() {
    assert_eq!(parse_u32("42"), Ok(42));
    assert_eq!(parse_u32("+42"), Ok(42));
    assert_eq!(parse_u32("007"), Ok(7));
    assert_eq!(parse_u32("4294967295"), Ok(u32::MAX));
}

#[test]
fn parse_u32_errors_match_std() {
    for text in ["", "+", "-", "-5", "12a", "4294967296", "99999999999x", "1 2", " 1", "٣"] {
        let expected = text.parse::<u32>().map_err(|e| e.to_string());
        let got = parse_u32(text).map_err(|k| k.description().to_string());
        assert_eq!(got, expected, "{:?}", text);
    }
}

#[test]
fn parse_u32_error_kinds() {
    assert_eq!(parse_u32(""), Err(IntErrorKind::Empty));
    assert_eq!(parse_u32("+"), Err(IntErrorKind::InvalidDigit));
    assert_eq!(parse_u32("-1"), Err(IntErrorKind::InvalidDigit));
    assert_eq!(parse_u32("4294967296"), Err(IntErrorKind::PosOverflow));
    assert_eq!(parse_u32("99999999999x"), Err(IntErrorKind::PosOverflow));
}

#[test]
fn decimal_writing() {
    let mut s = String::from("n=");
    push_decimal(&mut s, 0);
    assert_eq!(s, "n=0");
    let mut s = String::new();
    push_decimal(&mut s, 1234567890123);
    assert_eq!(s, "1234567890123");
}

#[test]
fn status_labels() {
    assert_eq!(RecordStatus::from_label("UPDATE"), RecordStatus::Update);
    assert_eq!(RecordStatus::from_label("update"), RecordStatus::Update);
    assert_eq!(RecordStatus::from_label("UpDaTe"), RecordStatus::Update);
    assert_eq!(RecordStatus::from_label("RECORD"), RecordStatus::Record);
    assert_eq!(RecordStatus::from_label("UPDATES"), RecordStatus::Record);
    assert_eq!(RecordStatus::from_label(""), RecordStatus::Record);
}

#[test]
fn full_row_reads() {
    let rec: GenerationRecord<f64> = GenerationRecord::from_csv_row(&row(&GOOD), &metric).unwrap();
    assert_eq!(rec.status, RecordStatus::Record);
    assert_eq!(rec.timestamp, Timestamp { secs: 1705314600, nanos: 0 });
    assert_eq!(rec.gen, 12);
    assert_eq!(rec.fitness, 150.5);
    assert_eq!(rec.pnl, -3.25);
    assert_eq!(rec.win_rate, 48.5);
    assert_eq!(rec.profit_factor, 0.9);
    assert_eq!(rec.sharpe, -1.5);
    assert_eq!(rec.max_drawdown, 0.3);
    assert_eq!(rec.trades, 240);
    assert_eq!(rec.mutation_rate, 0.05);
    assert_eq!(rec.tp, 0.012);
    assert_eq!(rec.sl, 0.006);
    assert_eq!(rec.risk, 0.02);
    assert_eq!(rec.cooldown, 30);
    assert_eq!(rec.confidence, 0.65);
    assert_eq!(rec.time_sec, 12.5);
}

#[test]
fn timestamp_with_fraction_and_offset() {
    let mut cells = GOOD;
    cells[0] = "2024-01-15 13:30:00.250+0300";
    let rec: GenerationRecord<f64> = GenerationRecord::from_csv_row(&row(&cells), &metric).unwrap();
    assert_eq!(rec.timestamp, Timestamp { secs: 1705314600, nanos: 250_000_000 });
}

#[test]
fn timestamp_parse_layouts() {
    assert_eq!(
        Timestamp::parse_or_now("2024-01-15 10:30:00+0000"),
        Timestamp { secs: 1705314600, nanos: 0 }
    );
    assert_eq!(
        Timestamp::parse_or_now("2024-01-15 10:30:01.5-0100"),
        Timestamp { secs: 1705314600 + 3600 + 1, nanos: 500_000_000 }
    );
}

#[test]
fn unreadable_timestamp_falls_back_to_now() {
    let before = chrono::Utc::now().timestamp();
    let t = Timestamp::parse_or_now("yesterday");
    let after = chrono::Utc::now().timestamp();
    assert!(before <= t.secs && t.secs <= after);
}

#[test]
fn update_status_any_case() {
    let mut cells = GOOD;
    cells[1] = "update";
    let rec: GenerationRecord<f64> = GenerationRecord::from_csv_row(&row(&cells), &metric).unwrap();
    assert_eq!(rec.status, RecordStatus::Update);
}

#[test]
fn short_row_reports_first_missing_column() {
    let err = GenerationRecord::<f64>::from_csv_row(&row(&GOOD[..5]), &metric).unwrap_err();
    assert_eq!(err.column(), 5);
    assert!(matches!(err, RecordError::MissingColumn(5)));
    assert_eq!(err.message(), "Missing column 5");
}

#[test]
fn row_without_counts_misses_column_two() {
    let err = GenerationRecord::<f64>::from_csv_row(&row(&GOOD[..1]), &metric).unwrap_err();
    assert!(matches!(err, RecordError::MissingColumn(2)));
    let err = GenerationRecord::<f64>::from_csv_row(&row(&[]), &metric).unwrap_err();
    assert!(matches!(err, RecordError::MissingColumn(2)));
}

#[test]
fn bad_integer_cell() {
    let mut cells = GOOD;
    cells[9] = "12.5";
    let err = GenerationRecord::<f64>::from_csv_row(&row(&cells), &metric).unwrap_err();
    assert!(matches!(err, RecordError::InvalidInteger(9, IntErrorKind::InvalidDigit)));
    assert_eq!(err.message(), "Parse error at column 9: invalid digit found in string");
}

#[test]
fn empty_integer_cell() {
    let mut cells = GOOD;
    cells[14] = "";
    let err = GenerationRecord::<f64>::from_csv_row(&row(&cells), &metric).unwrap_err();
    assert_eq!(err.message(), "Parse error at column 14: cannot parse integer from empty string");
}

#[test]
fn bad_metric_cell() {
    let mut cells = GOOD;
    cells[7] = "abc";
    let err = GenerationRecord::<f64>::from_csv_row(&row(&cells), &metric).unwrap_err();
    assert!(matches!(err, RecordError::InvalidNumber(7, _)));
    assert_eq!(err.message(), "Parse error at column 7: invalid float literal");
}

#[test]
fn first_bad_column_wins() {
    let mut cells = GOOD;
    cells[3] = "";
    cells[9] = "x";
    let err = GenerationRecord::<f64>::from_csv_row(&row(&cells), &metric).unwrap_err();
    assert_eq!(err.column(), 3);
    assert_eq!(err.message(), "Parse error at column 3: cannot parse float from empty string");
}

#[test]
fn overflowing_generation() {
    let mut cells = GOOD;
    cells[2] = "4294967296";
    let err = GenerationRecord::<f64>::from_csv_row(&row(&cells), &metric).unwrap_err();
    assert_eq!(err.message(), "Parse error at column 2: number too large to fit in target type");
}

#[test]
fn status_label_agrees_with_uppercasing() {
    let labels = [
        "UPDATE", "update", "Update", "updatE", "RECORD", "", "UPDAT", "UPDATEE", "ııupdate",
        "upd\u{131}te", "ﬅupdate", "ɐpdate", "üpdate", "UPDATE ", " UPDATE", "u\u{17f}date",
    ];
    for label in labels {
        let expected = if label.to_uppercase() == "UPDATE" {
            RecordStatus::Update
        } else {
            RecordStatus::Record
        };
        assert_eq!(RecordStatus::from_label(label), expected, "{:?}", label);
    }
}
