//! Training-log records, their decoding from CSV rows, and the session that
//! collects them.
use vstd::prelude::*;
use crate::text::{IntErrorKind, parse_u32, parse_u32_spec, push_decimal, decimal};

verus! {

/// Kind of a log row: a new best genome (`RECORD`) or a progress line (`UPDATE`).
#[derive(Debug, Clone, Copy, PartialEq, Eq, Structural)]
pub enum RecordStatus {
    Record,
    Update,
}

/// Direction in which a metric moved over a session.
#[derive(Debug, Clone, Copy, PartialEq, Eq, Structural)]
pub enum Trend {
    Improving,
    Declining,
    Flat,
}

/// `c` is the letter `upper` in either ASCII case.
pub open spec fn same_letter(c: char, upper: char) -> bool {
    c == upper || c as int == upper as int + 32
}

/// The status label reads `UPDATE`, whatever the case of its letters.
pub open spec fn is_update_label(s: Seq<char>) -> bool {
    &&& s.len() == 6
    &&& same_letter(s[0], 'U')
    &&& same_letter(s[1], 'P')
    &&& same_letter(s[2], 'D')
    &&& same_letter(s[3], 'A')
    &&& same_letter(s[4], 'T')
    &&& same_letter(s[5], 'E')
}

pub open spec fn status_of_label(s: Seq<char>) -> RecordStatus {
    if is_update_label(s) {
        RecordStatus::Update
    } else {
        RecordStatus::Record
    }
}

fn letter_matches(c: char, upper: char) -> (r: bool)
    requires
        'A' <= upper <= 'Z',
    ensures
        r == same_letter(c, upper),
{
    c == upper || (c as u32) == (upper as u32) + 32
}

impl RecordStatus {
    /// Reads a status cell: `UPDATE` in any letter case is an update, anything
    /// else a record. (No character outside ASCII upper-cases to one of these
    /// letters, so this agrees with comparing the upper-cased cell.)
    pub fn from_label(label: &str) -> (r: RecordStatus)
        ensures
            r == status_of_label(label@),
    {
        if label.unicode_len() != 6 {
            return RecordStatus::Record;
        }
        if letter_matches(label.get_char(0), 'U') && letter_matches(label.get_char(1), 'P')
            && letter_matches(label.get_char(2), 'D') && letter_matches(label.get_char(3), 'A')
            && letter_matches(label.get_char(4), 'T') && letter_matches(label.get_char(5), 'E') {
            RecordStatus::Update
        } else {
            RecordStatus::Record
        }
    }
}

/// An instant in UTC: whole seconds since the Unix epoch and the nanoseconds
/// past that second.
#[derive(Debug, Clone, Copy, PartialEq, Eq, Structural)]
pub struct Timestamp {
    pub secs: i64,
    pub nanos: u32,
}

/// What chrono's `DateTime::parse_from_str(s, fmt)` yields, as the UTC instant
/// (seconds, subsecond nanoseconds), or `None` where it reports an error.
pub uninterp spec fn datetime_parse_utc(s: Seq<char>, fmt: Seq<char>) -> Option<(i64, u32)>;

/// Calls chrono's `DateTime::parse_from_str(s, fmt)` and, on success, reads the
/// instant back in UTC (`with_timezone(&Utc)`, then `timestamp()` and
/// `timestamp_subsec_nanos()`). Claimed: the result depends on `s` and `fmt`
/// alone, and is `None` exactly where chrono reports an error.
#[verifier::external_body]
fn parse_datetime_utc(s: &str, fmt: &str) -> (r: Option<(i64, u32)>)
    ensures
        r == datetime_parse_utc(s@, fmt@),
{
    match chrono::DateTime::parse_from_str(s, fmt) {
        Ok(d) => {
            let u = d.with_timezone(&chrono::Utc);
            Some((u.timestamp(), u.timestamp_subsec_nanos()))
        },
        Err(_) => None,
    }
}

/// Reads the clock through chrono's `Utc::now()`. Nothing is claimed of the
/// instant it returns.
#[verifier::external_body]
fn utc_now() -> (r: (i64, u32)) {
    let u = chrono::Utc::now();
    (u.timestamp(), u.timestamp_subsec_nanos())
}

/// The instant that the first of the three accepted layouts gives for `text`:
/// with fractional seconds and offset, with offset, then without offset.
pub open spec fn timestamp_of_text(text: Seq<char>) -> Option<(i64, u32)> {
    match datetime_parse_utc(text, "%Y-%m-%d %H:%M:%S%.f%z"@) {
        Some(t) => Some(t),
        None => match datetime_parse_utc(text, "%Y-%m-%d %H:%M:%S%z"@) {
            Some(t) => Some(t),
            None => datetime_parse_utc(text, "%Y-%m-%d %H:%M:%S"@),
        },
    }
}

impl Timestamp {
    /// Reads a log timestamp, trying the accepted layouts in order; where none
    /// fits, the current time is taken.
    pub fn parse_or_now(text: &str) -> (r: Timestamp)
        ensures
            timestamp_of_text(text@) matches Some(t) ==> r.secs == t.0 && r.nanos == t.1,
    {
        let first = parse_datetime_utc(text, "%Y-%m-%d %H:%M:%S%.f%z");
        let t = match first {
            Some(t) => t,
            None => {
                let second = parse_datetime_utc(text, "%Y-%m-%d %H:%M:%S%z");
                match second {
                    Some(t) => t,
                    None => {
                        let third = parse_datetime_utc(text, "%Y-%m-%d %H:%M:%S");
                        match third {
                            Some(t) => t,
                            None => utc_now(),
                        }
                    },
                }
            },
        };
        Timestamp { secs: t.0, nanos: t.1 }
    }
}

/// One row of the training log, as its cells of text.
#[derive(Debug, Clone)]
pub struct CsvRow {
    pub raw: Vec<String>,
}

/// Why a log row could not be read; each names the zero-based column.
#[derive(Debug, Clone)]
pub enum RecordError {
    /// The row ends before this column.
    MissingColumn(usize),
    /// The cell of an integer column is not a `u32`.
    InvalidInteger(usize, IntErrorKind),
    /// The metric reader refused the cell, with its message.
    InvalidNumber(usize, String),
}

pub open spec fn error_column(e: RecordError) -> int {
    match e {
        RecordError::MissingColumn(c) => c as int,
        RecordError::InvalidInteger(c, _) => c as int,
        RecordError::InvalidNumber(c, _) => c as int,
    }
}

pub open spec fn int_error_text(k: IntErrorKind) -> Seq<char> {
    match k {
        IntErrorKind::Empty => "cannot parse integer from empty string"@,
        IntErrorKind::InvalidDigit => "invalid digit found in string"@,
        IntErrorKind::PosOverflow => "number too large to fit in target type"@,
    }
}

pub open spec fn error_message(e: RecordError) -> Seq<char> {
    match e {
        RecordError::MissingColumn(c) => "Missing column "@ + decimal(c as nat),
        RecordError::InvalidInteger(c, k) => "Parse error at column "@ + decimal(c as nat) + ": "@
            + int_error_text(k),
        RecordError::InvalidNumber(c, m) => "Parse error at column "@ + decimal(c as nat) + ": "@
            + m@,
    }
}

impl RecordError {
    /// The column that the error is about.
    pub fn column(&self) -> (r: usize)
        ensures
            r == error_column(*self),
    {
        match self {
            RecordError::MissingColumn(c) => *c,
            RecordError::InvalidInteger(c, _) => *c,
            RecordError::InvalidNumber(c, _) => *c,
        }
    }

    /// The text that reports the error.
    pub fn message(&self) -> (r: String)
        ensures
            r@ == error_message(*self),
    {
        let mut out = String::new();
        match self {
            RecordError::MissingColumn(c) => {
                out.append("Missing column ");
                push_decimal(&mut out, *c as u64);
            },
            RecordError::InvalidInteger(c, k) => {
                out.append("Parse error at column ");
                push_decimal(&mut out, *c as u64);
                out.append(": ");
                out.append(k.description());
            },
            RecordError::InvalidNumber(c, m) => {
                out.append("Parse error at column ");
                push_decimal(&mut out, *c as u64);
                out.append(": ");
                out.append(m.as_str());
            },
        }
        assert(out@ =~= error_message(*self));
        out
    }
}

/// One generation of the optimizer, as logged. `F` is the type that carries
/// the real-valued metrics; this library moves such values but never computes
/// with them.
#[derive(Debug, Clone)]
pub struct GenerationRecord<F> {
    pub timestamp: Timestamp,
    pub status: RecordStatus,
    pub gen: u32,
    pub fitness: F,
    pub pnl: F,
    pub win_rate: F,
    pub profit_factor: F,
    pub sharpe: F,
    pub max_drawdown: F,
    pub trades: u32,
    pub mutation_rate: F,
    pub tp: F,
    pub sl: F,
    pub risk: F,
    pub cooldown: u32,
    pub confidence: F,
    pub time_sec: F,
}

/// Number of cells a complete log row has.
pub const ROW_COLUMNS: usize = 17;

/// The three columns that hold counts: generation, trades and cooldown.
pub open spec fn is_integer_column(i: int) -> bool {
    i == 2 || i == 9 || i == 14
}

/// The metric reader turned cell `i` into `v`.
pub open spec fn metric_read<F, P: Fn(&String) -> Result<F, String>>(
    row: CsvRow,
    parse: P,
    i: int,
    v: F,
) -> bool {
    call_ensures(parse, (&row.raw@[i],), Ok::<F, String>(v))
}

/// Column `i` is present and its cell reads as what the column holds.
pub open spec fn column_reads<F, P: Fn(&String) -> Result<F, String>>(
    row: CsvRow,
    parse: P,
    i: int,
) -> bool {
    &&& i < row.raw@.len()
    &&& if is_integer_column(i) {
        parse_u32_spec(row.raw@[i]@) is Ok
    } else {
        exists|v: F| #[trigger] metric_read(row, parse, i, v)
    }
}

/// The count that integer column `i` holds.
pub open spec fn count_in(row: CsvRow, i: int) -> nat {
    match parse_u32_spec(row.raw@[i]@) {
        Ok(v) => v,
        Err(_) => 0,
    }
}

/// The status that a row declares; a row without a status cell is a record.
pub open spec fn row_status(row: CsvRow) -> RecordStatus {
    if row.raw@.len() > 1 {
        status_of_label(row.raw@[1]@)
    } else {
        RecordStatus::Record
    }
}

/// The timestamp text of a row; empty where the row has no cells.
pub open spec fn row_time_text(row: CsvRow) -> Seq<char> {
    if row.raw@.len() > 0 {
        row.raw@[0]@
    } else {
        Seq::empty()
    }
}

/// The row's cell at the column of `e` is missing or unreadable, for the reason
/// that `e` gives.
pub open spec fn fails_at<F, P: Fn(&String) -> Result<F, String>>(
    row: CsvRow,
    parse: P,
    e: RecordError,
) -> bool {
    let c = error_column(e);
    match e {
        RecordError::MissingColumn(_) => c >= row.raw@.len(),
        RecordError::InvalidInteger(_, k) => {
            &&& c < row.raw@.len()
            &&& is_integer_column(c)
            &&& parse_u32_spec(row.raw@[c]@) == Err::<nat, IntErrorKind>(k)
        },
        RecordError::InvalidNumber(_, m) => {
            &&& c < row.raw@.len()
            &&& !is_integer_column(c)
            &&& call_ensures(parse, (&row.raw@[c],), Err::<F, String>(m))
        },
    }
}

/// What reading `row` with the metric reader `parse` may give. Columns 2 to 16
/// are read in order and the first that is missing or unreadable decides the
/// error; otherwise every field holds what its column reads as.
pub open spec fn row_reads_as<F, P: Fn(&String) -> Result<F, String>>(
    row: CsvRow,
    parse: P,
    r: Result<GenerationRecord<F>, RecordError>,
) -> bool {
    match r {
        Ok(rec) => {
            &&& row.raw@.len() >= ROW_COLUMNS
            &&& forall|i: int| 2 <= i < 17 && is_integer_column(i) ==> parse_u32_spec(
                #[trigger] row.raw@[i]@,
            ) is Ok
            &&& rec.status == row_status(row)
            &&& (timestamp_of_text(row_time_text(row)) matches Some(t) ==> rec.timestamp.secs
                == t.0 && rec.timestamp.nanos == t.1)
            &&& rec.gen == count_in(row, 2)
            &&& rec.trades == count_in(row, 9)
            &&& rec.cooldown == count_in(row, 14)
            &&& metric_read(row, parse, 3, rec.fitness)
            &&& metric_read(row, parse, 4, rec.pnl)
            &&& metric_read(row, parse, 5, rec.win_rate)
            &&& metric_read(row, parse, 6, rec.profit_factor)
            &&& metric_read(row, parse, 7, rec.sharpe)
            &&& metric_read(row, parse, 8, rec.max_drawdown)
            &&& metric_read(row, parse, 10, rec.mutation_rate)
            &&& metric_read(row, parse, 11, rec.tp)
            &&& metric_read(row, parse, 12, rec.sl)
            &&& metric_read(row, parse, 13, rec.risk)
            &&& metric_read(row, parse, 15, rec.confidence)
            &&& metric_read(row, parse, 16, rec.time_sec)
        },
        Err(e) => {
            let c = error_column(e);
            &&& 2 <= c < 17
            &&& forall|j: int| 2 <= j < c ==> #[trigger] column_reads(row, parse, j)
            &&& fails_at(row, parse, e)
        },
    }
}

/// The metric reader's outcome depends on the cell's text alone.
pub open spec fn reads_text_only<F, P: Fn(&String) -> Result<F, String>>(parse: P) -> bool {
    forall|s1: &String, s2: &String, a: Result<F, String>, b: Result<F, String>|
        #![trigger call_ensures(parse, (s1,), a), call_ensures(parse, (s2,), b)]
        s1@ == s2@ && call_ensures(parse, (s1,), a) && call_ensures(parse, (s2,), b) ==> a == b
}

/// Two records agree in every field, the timestamp aside.
pub open spec fn same_but_clock<F>(a: GenerationRecord<F>, b: GenerationRecord<F>) -> bool {
    a == GenerationRecord { timestamp: a.timestamp, ..b }
}

/// Two outcomes of reading a row agree: the same error, or records that agree
/// in every field, the timestamp aside.
pub open spec fn same_outcome<F>(
    r1: Result<GenerationRecord<F>, RecordError>,
    r2: Result<GenerationRecord<F>, RecordError>,
) -> bool {
    match r1 {
        Ok(a) => match r2 {
            Ok(b) => same_but_clock(a, b),
            Err(_) => false,
        },
        Err(e) => r2 == Err::<GenerationRecord<F>, RecordError>(e),
    }
}

/// The texts of a row's cells.
pub open spec fn row_cells(row: CsvRow) -> Seq<Seq<char>> {
    row.raw@.map_values(|c: String| c@)
}

/// The two rows hold the same cell texts.
pub open spec fn same_cells(row1: CsvRow, row2: CsvRow) -> bool {
    row_cells(row1) == row_cells(row2)
}

proof fn lemma_same_cells_pointwise(row1: CsvRow, row2: CsvRow)
    requires
        same_cells(row1, row2),
    ensures
        row1.raw@.len() == row2.raw@.len(),
        forall|i: int| 0 <= i < row1.raw@.len() ==> #[trigger] row1.raw@[i]@ == row2.raw@[i]@,
{
    assert(row_cells(row1).len() == row_cells(row2).len());
    assert forall|i: int| 0 <= i < row1.raw@.len() implies #[trigger] row1.raw@[i]@ == row2.raw@[i]@ by {
        assert(row_cells(row1)[i] == row_cells(row2)[i]);
    }
}

proof fn lemma_record_reads_all_columns<F, P: Fn(&String) -> Result<F, String>>(
    row: CsvRow,
    parse: P,
    rec: GenerationRecord<F>,
)
    requires
        row_reads_as(row, parse, Ok::<GenerationRecord<F>, RecordError>(rec)),
    ensures
        forall|j: int| 2 <= j < 17 ==> #[trigger] column_reads(row, parse, j),
{
    assert(parse_u32_spec(row.raw@[2]@) is Ok);
    assert(parse_u32_spec(row.raw@[9]@) is Ok);
    assert(parse_u32_spec(row.raw@[14]@) is Ok);
    assert(column_reads(row, parse, 2));
    assert(column_reads(row, parse, 3));
    assert(column_reads(row, parse, 4));
    assert(column_reads(row, parse, 5));
    assert(column_reads(row, parse, 6));
    assert(column_reads(row, parse, 7));
    assert(column_reads(row, parse, 8));
    assert(column_reads(row, parse, 9));
    assert(column_reads(row, parse, 10));
    assert(column_reads(row, parse, 11));
    assert(column_reads(row, parse, 12));
    assert(column_reads(row, parse, 13));
    assert(column_reads(row, parse, 14));
    assert(column_reads(row, parse, 15));
    assert(column_reads(row, parse, 16));
    assert forall|j: int| 2 <= j < 17 implies #[trigger] column_reads(row, parse, j) by {
        assert(j == 2 || j == 3 || j == 4 || j == 5 || j == 6 || j == 7 || j == 8 || j == 9 || j
            == 10 || j == 11 || j == 12 || j == 13 || j == 14 || j == 15 || j == 16);
    }
}

proof fn lemma_failing_column_reads_nowhere<F, P: Fn(&String) -> Result<F, String>>(
    row1: CsvRow,
    row2: CsvRow,
    parse: P,
    e: RecordError,
)
    requires
        same_cells(row1, row2),
        reads_text_only(parse),
        fails_at(row1, parse, e),
    ensures
        !column_reads(row2, parse, error_column(e)),
{
    lemma_same_cells_pointwise(row1, row2);
    let c = error_column(e);
    match e {
        RecordError::MissingColumn(_) => {},
        RecordError::InvalidInteger(_, k) => {
            assert(row1.raw@[c]@ == row2.raw@[c]@);
        },
        RecordError::InvalidNumber(_, m) => {
            if column_reads(row2, parse, c) {
                let v = choose|v: F| #[trigger] metric_read(row2, parse, c, v);
                assert(row1.raw@[c]@ == row2.raw@[c]@);
                assert(call_ensures(parse, (&row2.raw@[c],), Ok::<F, String>(v)));
                assert(call_ensures(parse, (&row1.raw@[c],), Err::<F, String>(m)));
                assert(Err::<F, String>(m) == Ok::<F, String>(v));
            }
        },
    }
}

/// Reading two rows with the same cells, with a metric reader that depends on
/// the text alone, gives the same outcome: the same error, or records that
/// agree in every field but possibly the timestamp (which reads the clock
/// where no layout fits).
pub proof fn lemma_row_reading_determined<F, P: Fn(&String) -> Result<F, String>>(
    row1: CsvRow,
    row2: CsvRow,
    parse: P,
    r1: Result<GenerationRecord<F>, RecordError>,
    r2: Result<GenerationRecord<F>, RecordError>,
)
    requires
        same_cells(row1, row2),
        reads_text_only(parse),
        row_reads_as(row1, parse, r1),
        row_reads_as(row2, parse, r2),
    ensures
        same_outcome(r1, r2),
{
    lemma_same_cells_pointwise(row1, row2);
    lemma_same_cells_pointwise(row2, row1);
    assert(same_cells(row2, row1));
    match r1 {
        Ok(a) => match r2 {
            Ok(b) => {
                assert(row1.raw@[1]@ == row2.raw@[1]@);
                assert(row1.raw@[2]@ == row2.raw@[2]@);
                assert(row1.raw@[9]@ == row2.raw@[9]@);
                assert(row1.raw@[14]@ == row2.raw@[14]@);
                assert(row1.raw@[3]@ == row2.raw@[3]@);
                assert(row1.raw@[4]@ == row2.raw@[4]@);
                assert(row1.raw@[5]@ == row2.raw@[5]@);
                assert(row1.raw@[6]@ == row2.raw@[6]@);
                assert(row1.raw@[7]@ == row2.raw@[7]@);
                assert(row1.raw@[8]@ == row2.raw@[8]@);
                assert(row1.raw@[10]@ == row2.raw@[10]@);
                assert(row1.raw@[11]@ == row2.raw@[11]@);
                assert(row1.raw@[12]@ == row2.raw@[12]@);
                assert(row1.raw@[13]@ == row2.raw@[13]@);
                assert(row1.raw@[15]@ == row2.raw@[15]@);
                assert(row1.raw@[16]@ == row2.raw@[16]@);
                assert(same_but_clock(a, b));
            },
            Err(e2) => {
                lemma_record_reads_all_columns(row1, parse, a);
                lemma_failing_column_reads_nowhere(row2, row1, parse, e2);
            },
        },
        Err(e1) => match r2 {
            Ok(b) => {
                lemma_record_reads_all_columns(row2, parse, b);
                lemma_failing_column_reads_nowhere(row1, row2, parse, e1);
            },
            Err(e2) => {
                let c1 = error_column(e1);
                let c2 = error_column(e2);
                if c1 < c2 {
                    assert(column_reads(row2, parse, c1));
                    lemma_failing_column_reads_nowhere(row1, row2, parse, e1);
                } else if c2 < c1 {
                    assert(column_reads(row1, parse, c2));
                    lemma_failing_column_reads_nowhere(row2, row1, parse, e2);
                } else {
                    match e1 {
                        RecordError::MissingColumn(_) => {},
                        RecordError::InvalidInteger(_, _) => {
                            assert(row1.raw@[c1]@ == row2.raw@[c1]@);
                        },
                        RecordError::InvalidNumber(_, m1) => {
                            assert(row1.raw@[c1]@ == row2.raw@[c1]@);
                            match e2 {
                                RecordError::InvalidNumber(_, m2) => {
                                    assert(call_ensures(parse, (&row1.raw@[c1],), Err::<F, String>(m1)));
                                    assert(call_ensures(parse, (&row2.raw@[c1],), Err::<F, String>(m2)));
                                    assert(Err::<F, String>(m1) == Err::<F, String>(m2));
                                },
                                _ => {},
                            }
                        },
                    }
                }
            },
        },
    }
}

impl CsvRow {
    fn count_column(&self, i: usize) -> (r: Result<u32, RecordError>)
        requires
            is_integer_column(i as int),
        ensures
            match r {
                Ok(v) => i < self.raw@.len() && parse_u32_spec(self.raw@[i as int]@) == Ok::<
                    nat,
                    IntErrorKind,
                >(v as nat),
                Err(RecordError::MissingColumn(c)) => c == i && i >= self.raw@.len(),
                Err(RecordError::InvalidInteger(c, k)) => c == i && i < self.raw@.len()
                    && parse_u32_spec(self.raw@[i as int]@) == Err::<nat, IntErrorKind>(k),
                Err(RecordError::InvalidNumber(_, _)) => false,
            },
    {
        if i >= self.raw.len() {
            return Err(RecordError::MissingColumn(i));
        }
        match parse_u32(self.raw[i].as_str()) {
            Ok(v) => Ok(v),
            Err(k) => Err(RecordError::InvalidInteger(i, k)),
        }
    }

    fn metric_column<F, P: Fn(&String) -> Result<F, String>>(&self, i: usize, parse: &P) -> (r:
        Result<F, RecordError>)
        requires
            !is_integer_column(i as int),
            forall|s: &String| call_requires(*parse, (s,)),
        ensures
            match r {
                Ok(v) => i < self.raw@.len() && metric_read(*self, *parse, i as int, v),
                Err(RecordError::MissingColumn(c)) => c == i && i >= self.raw@.len(),
                Err(RecordError::InvalidNumber(c, m)) => c == i && i < self.raw@.len()
                    && call_ensures(*parse, (&self.raw@[i as int],), Err::<F, String>(m)),
                Err(RecordError::InvalidInteger(_, _)) => false,
            },
    {
        if i >= self.raw.len() {
            return Err(RecordError::MissingColumn(i));
        }
        match parse(&self.raw[i]) {
            Ok(v) => Ok(v),
            Err(m) => Err(RecordError::InvalidNumber(i, m)),
        }
    }
}

impl<F> GenerationRecord<F> {
    /// Reads a log row. Cells 0 and 1 hold the timestamp and the status; cells
    /// 2 to 16 hold, in order, generation, fitness, pnl, win rate, profit
    /// factor, Sharpe ratio, maximum drawdown, trades, mutation rate, take
    /// profit, stop loss, risk, cooldown, confidence and seconds taken. Count
    /// columns are read as `u32`; the other columns go through `parse_metric`.
    pub fn from_csv_row<P: Fn(&String) -> Result<F, String>>(row: &CsvRow, parse_metric: &P) -> (r:
        Result<GenerationRecord<F>, RecordError>)
        requires
            forall|s: &String| call_requires(*parse_metric, (s,)),
        ensures
            row_reads_as(*row, *parse_metric, r),
    {
        proof {
            reveal_strlit("");
        }
        let status = if row.raw.len() > 1 {
            RecordStatus::from_label(row.raw[1].as_str())
        } else {
            RecordStatus::Record
        };
        let timestamp = if row.raw.len() > 0 {
            Timestamp::parse_or_now(row.raw[0].as_str())
        } else {
            Timestamp::parse_or_now("")
        };
        let gen = match row.count_column(2) {
            Ok(v) => v,
            Err(e) => return Err(e),
        };
        assert(column_reads(*row, *parse_metric, 2));
        let fitness = match row.metric_column(3, parse_metric) {
            Ok(v) => v,
            Err(e) => return Err(e),
        };
        assert(column_reads(*row, *parse_metric, 3));
        let pnl = match row.metric_column(4, parse_metric) {
            Ok(v) => v,
            Err(e) => return Err(e),
        };
        assert(column_reads(*row, *parse_metric, 4));
        let win_rate = match row.metric_column(5, parse_metric) {
            Ok(v) => v,
            Err(e) => return Err(e),
        };
        assert(column_reads(*row, *parse_metric, 5));
        let profit_factor = match row.metric_column(6, parse_metric) {
            Ok(v) => v,
            Err(e) => return Err(e),
        };
        assert(column_reads(*row, *parse_metric, 6));
        let sharpe = match row.metric_column(7, parse_metric) {
            Ok(v) => v,
            Err(e) => return Err(e),
        };
        assert(column_reads(*row, *parse_metric, 7));
        let max_drawdown = match row.metric_column(8, parse_metric) {
            Ok(v) => v,
            Err(e) => return Err(e),
        };
        assert(column_reads(*row, *parse_metric, 8));
        let trades = match row.count_column(9) {
            Ok(v) => v,
            Err(e) => return Err(e),
        };
        assert(column_reads(*row, *parse_metric, 9));
        let mutation_rate = match row.metric_column(10, parse_metric) {
            Ok(v) => v,
            Err(e) => return Err(e),
        };
        assert(column_reads(*row, *parse_metric, 10));
        let tp = match row.metric_column(11, parse_metric) {
            Ok(v) => v,
            Err(e) => return Err(e),
        };
        assert(column_reads(*row, *parse_metric, 11));
        let sl = match row.metric_column(12, parse_metric) {
            Ok(v) => v,
            Err(e) => return Err(e),
        };
        assert(column_reads(*row, *parse_metric, 12));
        let risk = match row.metric_column(13, parse_metric) {
            Ok(v) => v,
            Err(e) => return Err(e),
        };
        assert(column_reads(*row, *parse_metric, 13));
        let cooldown = match row.count_column(14) {
            Ok(v) => v,
            Err(e) => return Err(e),
        };
        assert(column_reads(*row, *parse_metric, 14));
        let confidence = match row.metric_column(15, parse_metric) {
            Ok(v) => v,
            Err(e) => return Err(e),
        };
        assert(column_reads(*row, *parse_metric, 15));
        let time_sec = match row.metric_column(16, parse_metric) {
            Ok(v) => v,
            Err(e) => return Err(e),
        };
        assert(column_reads(*row, *parse_metric, 16));
        Ok(GenerationRecord {
            timestamp,
            status,
            gen,
            fitness,
            pnl,
            win_rate,
            profit_factor,
            sharpe,
            max_drawdown,
            trades,
            mutation_rate,
            tp,
            sl,
            risk,
            cooldown,
            confidence,
            time_sec,
        })
    }
}

/// The records of `s` whose status is `Record`, in their order.
pub open spec fn record_entries_of<F>(s: Seq<GenerationRecord<F>>) -> Seq<GenerationRecord<F>>
    decreases s.len(),
{
    if s.len() == 0 {
        Seq::empty()
    } else {
        let before = record_entries_of(s.drop_last());
        if s.last().status == RecordStatus::Record {
            before.push(s.last())
        } else {
            before
        }
    }
}

/// How many records of `s` have the status `Record`.
pub open spec fn count_record_entries<F>(s: Seq<GenerationRecord<F>>) -> nat
    decreases s.len(),
{
    if s.len() == 0 {
        0
    } else {
        count_record_entries(s.drop_last()) + if s.last().status == RecordStatus::Record {
            1nat
        } else {
            0nat
        }
    }
}

/// The record entries are exactly the records whose status is `Record`,
/// unchanged and in log order: there are as many as such records, each has
/// that status, and record `i`, when it has it, stands at the place given by
/// the number of such records before it.
#[verifier::spinoff_prover]
#[verifier::rlimit(40)]
pub proof fn lemma_record_entries_are_record_rows<F>(s: Seq<GenerationRecord<F>>)
    ensures
        record_entries_of(s).len() == count_record_entries(s),
        forall|k: int|
            0 <= k < record_entries_of(s).len() ==> #[trigger] record_entries_of(s)[k].status
                == RecordStatus::Record,
        forall|i: int|
            0 <= i < s.len() && #[trigger] s[i].status == RecordStatus::Record ==> count_record_entries(
                s.take(i),
            ) < count_record_entries(s) && record_entries_of(s)[count_record_entries(s.take(i)) as int]
                == s[i],
    decreases s.len(),
{
    if s.len() > 0 {
        let p = s.drop_last();
        lemma_record_entries_are_record_rows(p);
        let n = s.len() - 1;
        assert(s.take(n) =~= p);
        assert forall|k: int|
            0 <= k < record_entries_of(s).len() implies #[trigger] record_entries_of(s)[k].status
                == RecordStatus::Record by {
            if k < record_entries_of(p).len() {
                assert(record_entries_of(s)[k] == record_entries_of(p)[k]);
            }
        }
        assert forall|i: int|
            0 <= i < s.len() && #[trigger] s[i].status == RecordStatus::Record implies count_record_entries(
                s.take(i),
            ) < count_record_entries(s) && record_entries_of(s)[count_record_entries(s.take(i)) as int]
                == s[i] by {
            if i < n {
                assert(s.take(i) =~= p.take(i));
                assert(s[i] == p[i]);
            }
        }
    }
}

/// Every record of one training run, in log order, with what is known of the run.
#[derive(Debug, Clone)]
pub struct TrainingSession<F> {
    pub records: Vec<GenerationRecord<F>>,
    pub symbol: String,
    pub dataset_path: String,
    pub total_generations: u32,
    pub population_size: u32,
}

impl<F> Default for TrainingSession<F> {
    /// A session with no record, empty names and zero counts.
    fn default() -> (r: TrainingSession<F>)
        ensures
            r.records@.len() == 0,
            r.symbol@ == Seq::<char>::empty(),
            r.dataset_path@ == Seq::<char>::empty(),
            r.total_generations == 0,
            r.population_size == 0,
    {
        TrainingSession {
            records: Vec::new(),
            symbol: String::new(),
            dataset_path: String::new(),
            total_generations: 0,
            population_size: 0,
        }
    }
}

impl<F> TrainingSession<F> {
    /// The last record of the session, if there is one.
    pub fn latest(&self) -> (r: Option<&GenerationRecord<F>>)
        ensures
            match r {
                Some(x) => self.records@.len() > 0 && *x == self.records@.last(),
                None => self.records@.len() == 0,
            },
    {
        if self.records.len() == 0 {
            None
        } else {
            Some(&self.records[self.records.len() - 1])
        }
    }

    /// The records whose status is `Record`, in log order.
    pub fn record_entries(&self) -> (r: Vec<&GenerationRecord<F>>)
        ensures
            r@.len() == record_entries_of(self.records@).len(),
            forall|i: int| 0 <= i < r@.len() ==> *r@[i] == record_entries_of(self.records@)[i],
    {
        let mut out: Vec<&GenerationRecord<F>> = Vec::new();
        let mut i: usize = 0;
        while i < self.records.len()
            invariant
                i <= self.records@.len(),
                out@.len() == record_entries_of(self.records@.subrange(0, i as int)).len(),
                forall|k: int|
                    0 <= k < out@.len() ==> *out@[k] == record_entries_of(
                        self.records@.subrange(0, i as int),
                    )[k],
            decreases self.records@.len() - i,
        {
            let ghost before = self.records@.subrange(0, i as int);
            let ghost after = self.records@.subrange(0, i + 1);
            assert(after.drop_last() =~= before);
            assert(after.last() == self.records@[i as int]);
            if self.records[i].status == RecordStatus::Record {
                out.push(&self.records[i]);
            }
            i = i + 1;
        }
        assert(self.records@.subrange(0, self.records@.len() as int) =~= self.records@);
        out
    }
}

} // verus!
