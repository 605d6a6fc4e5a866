//! Turning the rows of a training log into a session.
use vstd::prelude::*;
use crate::models::metrics::{
    CsvRow, GenerationRecord, RecordError, TrainingSession, lemma_row_reading_determined,
    reads_text_only, row_cells, row_reads_as, same_but_clock, same_cells, same_outcome,
};

verus! {

/// The records among the outcomes of reading rows, in row order.
pub open spec fn read_records<F>(outs: Seq<Result<GenerationRecord<F>, RecordError>>) -> Seq<
    GenerationRecord<F>,
>
    decreases outs.len(),
{
    if outs.len() == 0 {
        Seq::empty()
    } else {
        let before = read_records(outs.drop_last());
        match outs.last() {
            Ok(rec) => before.push(rec),
            Err(_) => before,
        }
    }
}

/// The errors among the outcomes of reading rows, in row order.
pub open spec fn read_errors<F>(outs: Seq<Result<GenerationRecord<F>, RecordError>>) -> Seq<
    RecordError,
>
    decreases outs.len(),
{
    if outs.len() == 0 {
        Seq::empty()
    } else {
        let before = read_errors(outs.drop_last());
        match outs.last() {
            Ok(_) => before,
            Err(e) => before.push(e),
        }
    }
}

/// The records among the outcomes whose generation is past `last_known_gen`.
pub open spec fn read_newer_records<F>(
    outs: Seq<Result<GenerationRecord<F>, RecordError>>,
    last_known_gen: u32,
) -> Seq<GenerationRecord<F>>
    decreases outs.len(),
{
    if outs.len() == 0 {
        Seq::empty()
    } else {
        let before = read_newer_records(outs.drop_last(), last_known_gen);
        match outs.last() {
            Ok(rec) => if rec.gen > last_known_gen {
                before.push(rec)
            } else {
                before
            },
            Err(_) => before,
        }
    }
}

/// The records of `s` whose generation is past `g`, in order.
pub open spec fn newer_than<F>(s: Seq<GenerationRecord<F>>, g: u32) -> Seq<GenerationRecord<F>>
    decreases s.len(),
{
    if s.len() == 0 {
        Seq::empty()
    } else {
        let before = newer_than(s.drop_last(), g);
        if s.last().gen > g {
            before.push(s.last())
        } else {
            before
        }
    }
}

/// `outs[i]` is what reading `rows[i]` with `parse` gave, for every row.
pub open spec fn rows_read_as<F, P: Fn(&String) -> Result<F, String>>(
    rows: Seq<CsvRow>,
    parse: P,
    outs: Seq<Result<GenerationRecord<F>, RecordError>>,
) -> bool {
    &&& outs.len() == rows.len()
    &&& forall|i: int| 0 <= i < rows.len() ==> row_reads_as(rows[i], parse, #[trigger] outs[i])
}

/// The generation of the last record, or 0 where there is none.
pub open spec fn last_generation<F>(records: Seq<GenerationRecord<F>>) -> u32 {
    if records.len() == 0 {
        0
    } else {
        records.last().gen
    }
}

/// Reads training-log rows into sessions.
pub struct CsvParser;

impl CsvParser {
    /// Reads every row of a log (header excluded). Rows that cannot be read are
    /// left out of the session, and their errors are returned beside it in row
    /// order. The session is for the `BTCUSDT` symbol, with dataset path
    /// `unknown`, a population of 250, and as total generations the
    /// generation of its last record (0 where it has none).
    pub fn parse_rows<F, P: Fn(&String) -> Result<F, String>>(rows: &Vec<CsvRow>, parse_metric: &P) -> (r: (
        TrainingSession<F>,
        Vec<RecordError>,
    ))
        requires
            forall|s: &String| call_requires(*parse_metric, (s,)),
        ensures
            exists|outs: Seq<Result<GenerationRecord<F>, RecordError>>|
                {
                    &&& #[trigger] rows_read_as(rows@, *parse_metric, outs)
                    &&& r.0.records@ == read_records(outs)
                    &&& r.1@ == read_errors(outs)
                },
            r.0.symbol@ == "BTCUSDT"@,
            r.0.dataset_path@ == "unknown"@,
            r.0.total_generations == last_generation(r.0.records@),
            r.0.population_size == 250,
    {
        let mut records: Vec<GenerationRecord<F>> = Vec::new();
        let mut errors: Vec<RecordError> = Vec::new();
        let ghost mut outs: Seq<Result<GenerationRecord<F>, RecordError>> = Seq::empty();
        let mut i: usize = 0;
        while i < rows.len()
            invariant
                i <= rows@.len(),
                forall|s: &String| call_requires(*parse_metric, (s,)),
                rows_read_as(rows@.subrange(0, i as int), *parse_metric, outs),
                records@ == read_records(outs),
                errors@ == read_errors(outs),
            decreases rows@.len() - i,
        {
            let out = GenerationRecord::from_csv_row(&rows[i], parse_metric);
            let ghost prev = outs;
            proof {
                outs = outs.push(out);
                assert(outs.drop_last() =~= prev);
                assert forall|k: int| 0 <= k < i + 1 implies row_reads_as(
                    rows@.subrange(0, i + 1)[k],
                    *parse_metric,
                    #[trigger] outs[k],
                ) by {
                    if k < i {
                        assert(rows@.subrange(0, i as int)[k] == rows@.subrange(0, i + 1)[k]);
                        assert(prev[k] == outs[k]);
                    }
                }
            }
            match out {
                Ok(rec) => records.push(rec),
                Err(e) => errors.push(e),
            }
            i = i + 1;
        }
        assert(rows@.subrange(0, rows@.len() as int) =~= rows@);
        let total_generations = if records.len() == 0 {
            0
        } else {
            records[records.len() - 1].gen
        };
        let session = TrainingSession {
            records,
            symbol: String::from_str("BTCUSDT"),
            dataset_path: String::from_str("unknown"),
            total_generations,
            population_size: 250,
        };
        (session, errors)
    }

    /// Reads the rows of a log (header excluded) and keeps only the records
    /// whose generation is past `last_known_gen`; unreadable rows are skipped.
    pub fn parse_incremental_rows<F, P: Fn(&String) -> Result<F, String>>(
        rows: &Vec<CsvRow>,
        last_known_gen: u32,
        parse_metric: &P,
    ) -> (r: Vec<GenerationRecord<F>>)
        requires
            forall|s: &String| call_requires(*parse_metric, (s,)),
        ensures
            exists|outs: Seq<Result<GenerationRecord<F>, RecordError>>|
                {
                    &&& #[trigger] rows_read_as(rows@, *parse_metric, outs)
                    &&& r@ == read_newer_records(outs, last_known_gen)
                },
    {
        let mut records: Vec<GenerationRecord<F>> = Vec::new();
        let ghost mut outs: Seq<Result<GenerationRecord<F>, RecordError>> = Seq::empty();
        let mut i: usize = 0;
        while i < rows.len()
            invariant
                i <= rows@.len(),
                forall|s: &String| call_requires(*parse_metric, (s,)),
                rows_read_as(rows@.subrange(0, i as int), *parse_metric, outs),
                records@ == read_newer_records(outs, last_known_gen),
            decreases rows@.len() - i,
        {
            let out = GenerationRecord::from_csv_row(&rows[i], parse_metric);
            let ghost prev = outs;
            proof {
                outs = outs.push(out);
                assert(outs.drop_last() =~= prev);
                assert forall|k: int| 0 <= k < i + 1 implies row_reads_as(
                    rows@.subrange(0, i + 1)[k],
                    *parse_metric,
                    #[trigger] outs[k],
                ) by {
                    if k < i {
                        assert(rows@.subrange(0, i as int)[k] == rows@.subrange(0, i + 1)[k]);
                        assert(prev[k] == outs[k]);
                    }
                }
            }
            match out {
                Ok(rec) => {
                    if rec.gen > last_known_gen {
                        records.push(rec);
                    }
                },
                Err(_) => {},
            }
            i = i + 1;
        }
        assert(rows@.subrange(0, rows@.len() as int) =~= rows@);
        records
    }
}

/// Reading a log incrementally keeps exactly the records of a full read whose
/// generation is past the last known one, in the same order.
pub proof fn lemma_incremental_read_is_newer_part<F>(
    outs: Seq<Result<GenerationRecord<F>, RecordError>>,
    last_known_gen: u32,
)
    ensures
        read_newer_records(outs, last_known_gen) == newer_than(read_records(outs), last_known_gen),
    decreases outs.len(),
{
    if outs.len() > 0 {
        lemma_incremental_read_is_newer_part(outs.drop_last(), last_known_gen);
        let before = read_records(outs.drop_last());
        match outs.last() {
            Ok(rec) => {
                assert(read_records(outs).drop_last() =~= before);
            },
            Err(_) => {},
        }
    }
}

/// How many of the outcomes are records.
pub open spec fn count_ok<F>(outs: Seq<Result<GenerationRecord<F>, RecordError>>) -> nat
    decreases outs.len(),
{
    if outs.len() == 0 {
        0
    } else {
        count_ok(outs.drop_last()) + if outs.last() is Ok {
            1nat
        } else {
            0nat
        }
    }
}

/// The records read are exactly the records of the readable rows, unchanged
/// and in row order: there are as many as readable rows, and the record that
/// row `i` gave stands at the place given by the number of readable rows
/// before it.
#[verifier::spinoff_prover]
#[verifier::rlimit(40)]
pub proof fn lemma_read_records_are_row_records<F>(outs: Seq<Result<GenerationRecord<F>, RecordError>>)
    ensures
        read_records(outs).len() == count_ok(outs),
        forall|i: int|
            0 <= i < outs.len() ==> match #[trigger] outs[i] {
                Ok(rec) => count_ok(outs.take(i)) < count_ok(outs) && read_records(outs)[count_ok(
                    outs.take(i),
                ) as int] == rec,
                Err(_) => true,
            },
    decreases outs.len(),
{
    if outs.len() > 0 {
        let p = outs.drop_last();
        lemma_read_records_are_row_records(p);
        let n = outs.len() - 1;
        assert(outs.take(n) =~= p);
        assert forall|i: int|
            0 <= i < outs.len() implies match #[trigger] outs[i] {
                Ok(rec) => count_ok(outs.take(i)) < count_ok(outs) && read_records(outs)[count_ok(
                    outs.take(i),
                ) as int] == rec,
                Err(_) => true,
            } by {
            if i < n {
                assert(outs.take(i) =~= p.take(i));
                assert(outs[i] == p[i]);
            }
        }
    }
}

/// How many of the outcomes are errors.
pub open spec fn count_err<F>(outs: Seq<Result<GenerationRecord<F>, RecordError>>) -> nat
    decreases outs.len(),
{
    if outs.len() == 0 {
        0
    } else {
        count_err(outs.drop_last()) + if outs.last() is Err {
            1nat
        } else {
            0nat
        }
    }
}

/// The errors reported are exactly those of the unreadable rows, in row order:
/// there are as many as unreadable rows, and the error of row `i` stands at
/// the place given by the number of unreadable rows before it.
#[verifier::spinoff_prover]
#[verifier::rlimit(40)]
pub proof fn lemma_read_errors_are_row_errors<F>(outs: Seq<Result<GenerationRecord<F>, RecordError>>)
    ensures
        read_errors(outs).len() == count_err(outs),
        forall|i: int|
            0 <= i < outs.len() ==> match #[trigger] outs[i] {
                Err(e) => count_err(outs.take(i)) < count_err(outs) && read_errors(outs)[count_err(
                    outs.take(i),
                ) as int] == e,
                Ok(_) => true,
            },
    decreases outs.len(),
{
    if outs.len() > 0 {
        let p = outs.drop_last();
        lemma_read_errors_are_row_errors(p);
        let n = outs.len() - 1;
        assert(outs.take(n) =~= p);
        assert forall|i: int|
            0 <= i < outs.len() implies match #[trigger] outs[i] {
                Err(e) => count_err(outs.take(i)) < count_err(outs) && read_errors(outs)[count_err(
                    outs.take(i),
                ) as int] == e,
                Ok(_) => true,
            } by {
            if i < n {
                assert(outs.take(i) =~= p.take(i));
                assert(outs[i] == p[i]);
            }
        }
    }
}

/// How many records of `s` are past generation `g`.
pub open spec fn count_newer<F>(s: Seq<GenerationRecord<F>>, g: u32) -> nat
    decreases s.len(),
{
    if s.len() == 0 {
        0
    } else {
        count_newer(s.drop_last(), g) + if s.last().gen > g {
            1nat
        } else {
            0nat
        }
    }
}

/// Keeping the records past generation `g` keeps each of them unchanged, in
/// order, and nothing else: there are as many as records past `g`, each is past
/// `g`, and record `i`, when past `g`, stands at the place given by the number
/// of such records before it.
#[verifier::spinoff_prover]
#[verifier::rlimit(40)]
pub proof fn lemma_newer_than_keeps_newer_records<F>(s: Seq<GenerationRecord<F>>, g: u32)
    ensures
        newer_than(s, g).len() == count_newer(s, g),
        forall|k: int| 0 <= k < newer_than(s, g).len() ==> #[trigger] newer_than(s, g)[k].gen > g,
        forall|i: int|
            0 <= i < s.len() && #[trigger] s[i].gen > g ==> count_newer(s.take(i), g) < count_newer(
                s,
                g,
            ) && newer_than(s, g)[count_newer(s.take(i), g) as int] == s[i],
    decreases s.len(),
{
    lemma_newer_than_is_newer(s, g);
    if s.len() > 0 {
        let p = s.drop_last();
        lemma_newer_than_keeps_newer_records(p, g);
        let n = s.len() - 1;
        assert(s.take(n) =~= p);
        assert forall|i: int|
            0 <= i < s.len() && #[trigger] s[i].gen > g implies count_newer(s.take(i), g)
                < count_newer(s, g) && newer_than(s, g)[count_newer(s.take(i), g) as int] == s[i] by {
            if i < n {
                assert(s.take(i) =~= p.take(i));
                assert(s[i] == p[i]);
            }
        }
    }
}

/// Every row read ends up either as a record or as an error, never both and
/// never neither.
pub proof fn lemma_every_row_accounted<F>(outs: Seq<Result<GenerationRecord<F>, RecordError>>)
    ensures
        read_records(outs).len() + read_errors(outs).len() == outs.len(),
    decreases outs.len(),
{
    if outs.len() > 0 {
        lemma_every_row_accounted(outs.drop_last());
    }
}

/// The data rows that the csv crate's reader yields for `data` (first row taken
/// as the header, default settings), each as its cells; `None` where the reader
/// reports an error.
pub uninterp spec fn csv_data_rows(data: Seq<u8>) -> Option<Seq<Seq<Seq<char>>>>;

/// The cells of rows, as text.
pub open spec fn cells_of(rows: Seq<CsvRow>) -> Seq<Seq<Seq<char>>> {
    rows.map_values(|w: CsvRow| row_cells(w))
}

/// Decodes CSV bytes with the csv crate: `ReaderBuilder::new().has_headers(true)`,
/// then `from_reader` and `records()`, each `StringRecord` turned into its
/// cells. Claimed: the rows depend on `data` alone, are those the reader
/// yields, and the call fails exactly where the reader reports an error (a row
/// whose length differs from the header's, bytes that are not UTF-8); the
/// error's text is its `Display`, of which nothing is claimed.
#[verifier::external_body]
pub(crate) fn decode_csv(data: &[u8]) -> (r: Result<Vec<CsvRow>, String>)
    ensures
        r is Ok <==> csv_data_rows(data@) is Some,
        r matches Ok(rows) ==> csv_data_rows(data@) == Some(cells_of(rows@)),
{
    let mut reader = csv::ReaderBuilder::new().has_headers(true).from_reader(data);
    let mut rows = Vec::new();
    for result in reader.records() {
        match result {
            Ok(rec) => rows.push(CsvRow { raw: rec.iter().map(|c| c.to_string()).collect() }),
            Err(e) => return Err(e.to_string()),
        }
    }
    Ok(rows)
}

/// What reading the log bytes `data` with the metric reader `parse` may give:
/// an error exactly where the bytes are not valid CSV; otherwise the session
/// and row errors that `parse_rows` gives for its data rows.
pub open spec fn log_reads_as<F, P: Fn(&String) -> Result<F, String>>(
    data: Seq<u8>,
    parse: P,
    r: Result<(TrainingSession<F>, Vec<RecordError>), String>,
) -> bool {
    match r {
        Err(_) => csv_data_rows(data) is None,
        Ok(res) => {
            &&& csv_data_rows(data) is Some
            &&& exists|rows: Seq<CsvRow>, outs: Seq<Result<GenerationRecord<F>, RecordError>>|
                #![trigger rows_read_as(rows, parse, outs)]
                {
                    &&& csv_data_rows(data) == Some(cells_of(rows))
                    &&& rows_read_as(rows, parse, outs)
                    &&& res.0.records@ == read_records(outs)
                    &&& res.1@ == read_errors(outs)
                }
            &&& res.0.symbol@ == "BTCUSDT"@
            &&& res.0.dataset_path@ == "unknown"@
            &&& res.0.total_generations == last_generation(res.0.records@)
            &&& res.0.population_size == 250
        },
    }
}

/// What reading the log bytes `data` for records past `last_known_gen` may
/// give: an error exactly where the bytes are not valid CSV; otherwise what
/// `parse_incremental_rows` gives for its data rows.
pub open spec fn log_reads_newer_as<F, P: Fn(&String) -> Result<F, String>>(
    data: Seq<u8>,
    parse: P,
    last_known_gen: u32,
    r: Result<Vec<GenerationRecord<F>>, String>,
) -> bool {
    match r {
        Err(_) => csv_data_rows(data) is None,
        Ok(recs) => {
            &&& csv_data_rows(data) is Some
            &&& exists|rows: Seq<CsvRow>, outs: Seq<Result<GenerationRecord<F>, RecordError>>|
                #![trigger rows_read_as(rows, parse, outs)]
                {
                    &&& csv_data_rows(data) == Some(cells_of(rows))
                    &&& rows_read_as(rows, parse, outs)
                    &&& recs@ == read_newer_records(outs, last_known_gen)
                }
        },
    }
}

impl CsvParser {
    /// Reads a whole training log from its bytes: decodes them as CSV (the
    /// first row is the header) and reads the data rows as `parse_rows` does.
    pub fn parse_log<F, P: Fn(&String) -> Result<F, String>>(data: &[u8], parse_metric: &P) -> (r:
        Result<(TrainingSession<F>, Vec<RecordError>), String>)
        requires
            forall|s: &String| call_requires(*parse_metric, (s,)),
        ensures
            log_reads_as(data@, *parse_metric, r),
    {
        let rows = match decode_csv(data) {
            Ok(rows) => rows,
            Err(e) => return Err(e),
        };
        let res = Self::parse_rows(&rows, parse_metric);
        let ghost outs = choose|outs: Seq<Result<GenerationRecord<F>, RecordError>>|
            {
                &&& #[trigger] rows_read_as(rows@, *parse_metric, outs)
                &&& res.0.records@ == read_records(outs)
                &&& res.1@ == read_errors(outs)
            };
        assert(rows_read_as(rows@, *parse_metric, outs));
        Ok(res)
    }

    /// Reads a training log from its bytes and keeps the records whose
    /// generation is past `last_known_gen`, as `parse_incremental_rows` does.
    pub fn parse_log_incremental<F, P: Fn(&String) -> Result<F, String>>(
        data: &[u8],
        last_known_gen: u32,
        parse_metric: &P,
    ) -> (r: Result<Vec<GenerationRecord<F>>, String>)
        requires
            forall|s: &String| call_requires(*parse_metric, (s,)),
        ensures
            log_reads_newer_as(data@, *parse_metric, last_known_gen, r),
    {
        let rows = match decode_csv(data) {
            Ok(rows) => rows,
            Err(e) => return Err(e),
        };
        let recs = Self::parse_incremental_rows(&rows, last_known_gen, parse_metric);
        let ghost outs = choose|outs: Seq<Result<GenerationRecord<F>, RecordError>>|
            {
                &&& #[trigger] rows_read_as(rows@, *parse_metric, outs)
                &&& recs@ == read_newer_records(outs, last_known_gen)
            };
        assert(rows_read_as(rows@, *parse_metric, outs));
        Ok(recs)
    }
}

/// Two record sequences agree entry by entry, timestamps aside.
pub open spec fn agree_but_clock<F>(s1: Seq<GenerationRecord<F>>, s2: Seq<GenerationRecord<F>>) -> bool {
    &&& s1.len() == s2.len()
    &&& forall|i: int| 0 <= i < s1.len() ==> same_but_clock(#[trigger] s1[i], s2[i])
}

proof fn lemma_outcomes_agree<F, P: Fn(&String) -> Result<F, String>>(
    rows1: Seq<CsvRow>,
    rows2: Seq<CsvRow>,
    parse: P,
    outs1: Seq<Result<GenerationRecord<F>, RecordError>>,
    outs2: Seq<Result<GenerationRecord<F>, RecordError>>,
)
    requires
        cells_of(rows1) == cells_of(rows2),
        reads_text_only(parse),
        rows_read_as(rows1, parse, outs1),
        rows_read_as(rows2, parse, outs2),
    ensures
        outs1.len() == outs2.len(),
        forall|i: int| 0 <= i < outs1.len() ==> same_outcome(#[trigger] outs1[i], outs2[i]),
{
    assert(cells_of(rows1).len() == rows1.len());
    assert(cells_of(rows2).len() == rows2.len());
    assert forall|i: int| 0 <= i < outs1.len() implies same_outcome(#[trigger] outs1[i], outs2[i]) by {
        assert(cells_of(rows1)[i] == cells_of(rows2)[i]);
        assert(same_cells(rows1[i], rows2[i]));
        lemma_row_reading_determined(rows1[i], rows2[i], parse, outs1[i], outs2[i]);
    }
}

proof fn lemma_newer_records_agree<F>(
    outs1: Seq<Result<GenerationRecord<F>, RecordError>>,
    outs2: Seq<Result<GenerationRecord<F>, RecordError>>,
    g: u32,
)
    requires
        outs1.len() == outs2.len(),
        forall|i: int| 0 <= i < outs1.len() ==> same_outcome(#[trigger] outs1[i], outs2[i]),
    ensures
        agree_but_clock(read_newer_records(outs1, g), read_newer_records(outs2, g)),
    decreases outs1.len(),
{
    if outs1.len() > 0 {
        let p1 = outs1.drop_last();
        let p2 = outs2.drop_last();
        assert forall|i: int| 0 <= i < p1.len() implies same_outcome(#[trigger] p1[i], p2[i]) by {
            assert(p1[i] == outs1[i] && p2[i] == outs2[i]);
        }
        lemma_newer_records_agree(p1, p2, g);
        assert(same_outcome(outs1[outs1.len() - 1], outs2[outs2.len() - 1]));
        let a1 = read_newer_records(p1, g);
        let a2 = read_newer_records(p2, g);
        let n1 = read_newer_records(outs1, g);
        let n2 = read_newer_records(outs2, g);
        assert forall|i: int| 0 <= i < n1.len() implies same_but_clock(#[trigger] n1[i], n2[i]) by {
            if i < a1.len() {
                assert(n1[i] == a1[i] && n2[i] == a2[i]);
            }
        }
    }
}

proof fn lemma_newer_than_is_newer<F>(s: Seq<GenerationRecord<F>>, g: u32)
    ensures
        forall|i: int| 0 <= i < newer_than(s, g).len() ==> #[trigger] newer_than(s, g)[i].gen > g,
    decreases s.len(),
{
    if s.len() > 0 {
        lemma_newer_than_is_newer(s.drop_last(), g);
    }
}

/// Reading a log incrementally agrees with a full read of the same bytes: both
/// fail, or both succeed and the incremental read gives the full read's
/// records whose generation is past the last known one, in order, each equal
/// in every field but the timestamp (a timestamp that fits no layout reads the
/// clock); every record it gives is past the last known generation. This
/// holds for a metric reader whose outcome depends on the cell's text alone.
pub proof fn lemma_incremental_read_agrees_with_full_read<F, P: Fn(&String) -> Result<F, String>>(
    data: Seq<u8>,
    parse: P,
    last_known_gen: u32,
    full: Result<(TrainingSession<F>, Vec<RecordError>), String>,
    incremental: Result<Vec<GenerationRecord<F>>, String>,
)
    requires
        reads_text_only(parse),
        log_reads_as(data, parse, full),
        log_reads_newer_as(data, parse, last_known_gen, incremental),
    ensures
        (full is Ok) == (incremental is Ok),
        match (full, incremental) {
            (Ok(res), Ok(recs)) => {
                &&& agree_but_clock(newer_than(res.0.records@, last_known_gen), recs@)
                &&& forall|i: int| 0 <= i < recs@.len() ==> #[trigger] recs@[i].gen > last_known_gen
            },
            _ => true,
        },
{
    match (full, incremental) {
        (Ok(res), Ok(recs)) => {
            let (rows1, outs1) = choose|rows: Seq<CsvRow>, outs: Seq<Result<GenerationRecord<F>, RecordError>>|
                #![trigger rows_read_as(rows, parse, outs)]
                {
                    &&& csv_data_rows(data) == Some(cells_of(rows))
                    &&& rows_read_as(rows, parse, outs)
                    &&& res.0.records@ == read_records(outs)
                    &&& res.1@ == read_errors(outs)
                };
            let (rows2, outs2) = choose|rows: Seq<CsvRow>, outs: Seq<Result<GenerationRecord<F>, RecordError>>|
                #![trigger rows_read_as(rows, parse, outs)]
                {
                    &&& csv_data_rows(data) == Some(cells_of(rows))
                    &&& rows_read_as(rows, parse, outs)
                    &&& recs@ == read_newer_records(outs, last_known_gen)
                };
            lemma_outcomes_agree(rows1, rows2, parse, outs1, outs2);
            lemma_newer_records_agree(outs1, outs2, last_known_gen);
            lemma_incremental_read_is_newer_part(outs1, last_known_gen);
            let full_newer = newer_than(res.0.records@, last_known_gen);
            lemma_newer_than_is_newer(res.0.records@, last_known_gen);
            assert forall|i: int| 0 <= i < recs@.len() implies #[trigger] recs@[i].gen > last_known_gen by {
                assert(same_but_clock(full_newer[i], recs@[i]));
                assert(full_newer[i].gen > last_known_gen);
            }
        },
        _ => {},
    }
}

} // verus!
