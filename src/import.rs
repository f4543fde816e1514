//! A whole import run: which records are sent, in which order, and what each
//! delivery's outcome means for the rest of the run.

use vstd::prelude::*;
use crate::error::ImportError;
use crate::line::{encoded_row, has_column, is_first_position, texts, LineEncoder};
use crate::table::{row_texts, Table};

verus! {

/// The records of the rows in row order; a row without fields gives none.
pub open spec fn lines_of_rows(
    measurement: Seq<char>,
    header: Seq<Seq<char>>,
    rows: Seq<Seq<Seq<char>>>,
    tag: int,
) -> Seq<Seq<char>>
    decreases rows.len(),
{
    if rows.len() == 0 {
        Seq::empty()
    } else {
        let before = lines_of_rows(measurement, header, rows.drop_last(), tag);
        match encoded_row(measurement, header, rows.last(), tag) {
            Some(line) => before.push(line),
            None => before,
        }
    }
}

/// The first position of a column that the header has.
pub open spec fn first_position(header: Seq<Seq<char>>, name: Seq<char>) -> int {
    choose|i: int| is_first_position(header, name, i)
}

/// A header and rows that line up with it.
pub open spec fn table_shape_ok(header: Seq<Seq<char>>, rows: Seq<Seq<Seq<char>>>) -> bool {
    header.len() > 0 && forall|k: int| 0 <= k < rows.len() ==> #[trigger] rows[k].len() == header.len()
}

/// What a run sends, or why it sends nothing at all.
pub open spec fn import_plan(
    measurement: Seq<char>,
    header: Seq<Seq<char>>,
    rows: Seq<Seq<Seq<char>>>,
    tag: Seq<char>,
) -> Result<Seq<Seq<char>>, ImportError> {
    if !table_shape_ok(header, rows) {
        Err(ImportError::MalformedInput)
    } else if !has_column(header, tag) {
        Err(ImportError::TagColumnNotFound)
    } else {
        Ok(lines_of_rows(measurement, header, rows, first_position(header, tag)))
    }
}

/// The text of each record of a result.
pub open spec fn result_texts(r: Result<Vec<String>, ImportError>) -> Result<Seq<Seq<char>>, ImportError> {
    match r {
        Ok(lines) => Ok(texts(lines@)),
        Err(e) => Err(e),
    }
}

proof fn lemma_first_position_unique(header: Seq<Seq<char>>, name: Seq<char>, i: int)
    requires
        is_first_position(header, name, i),
    ensures
        first_position(header, name) == i,
{
    let j = first_position(header, name);
    assert(is_first_position(header, name, j));
    if j < i {
        assert(header[j] != name);
    } else if i < j {
        assert(header[i] != name);
    }
}

/// Checks the table, resolves the tag column, and encodes every row: the
/// records to send, in row order, or the error that stops the run before
/// anything is sent.
pub fn plan_import(header: Vec<String>, rows: Vec<Vec<String>>, tag: &str, measurement: &str) -> (r: Result<Vec<String>, ImportError>)
    ensures
        result_texts(r) == import_plan(measurement@, texts(header@), row_texts(rows@), tag@),
{
    let ghost h = texts(header@);
    let ghost rs = row_texts(rows@);
    assert(table_shape_ok(h, rs) <==> crate::table::well_formed(header.len() as int, rows@)) by {
        if crate::table::well_formed(header.len() as int, rows@) {
            assert forall|k: int| 0 <= k < rs.len() implies #[trigger] rs[k].len() == h.len() by {
                assert(rows@[k].len() == header.len());
            }
        }
        if table_shape_ok(h, rs) {
            assert forall|k: int| 0 <= k < rows@.len() implies #[trigger] rows@[k].len() == header.len() by {
                assert(rs[k].len() == h.len());
            }
        }
    }
    let table = match Table::new(header, rows) {
        Ok(t) => t,
        Err(e) => return Err(e),
    };
    let encoder = match LineEncoder::new(table.header().clone(), tag, measurement) {
        Ok(enc) => enc,
        Err(e) => return Err(e),
    };
    proof {
        lemma_first_position_unique(h, tag@, encoder.tag_position());
    }
    let all_rows = table.rows();
    let mut lines: Vec<String> = Vec::new();
    let mut k: usize = 0;
    while k < all_rows.len()
        invariant
            encoder.wf(),
            encoder.header_view() == h,
            encoder.measurement_view() == measurement@,
            encoder.tag_position() == first_position(h, tag@),
            row_texts(all_rows@) == rs,
            table_shape_ok(h, rs),
            k <= all_rows.len(),
            texts(lines@) == lines_of_rows(measurement@, h, rs.subrange(0, k as int), encoder.tag_position()),
        decreases all_rows.len() - k,
    {
        let ghost t = encoder.tag_position();
        assert(rs[k as int].len() == h.len());
        let encoded = encoder.encode(&all_rows[k]);
        proof {
            let sub = rs.subrange(0, k as int + 1);
            assert(sub.drop_last() =~= rs.subrange(0, k as int));
            assert(sub.last() == texts(all_rows@[k as int]@));
        }
        match encoded {
            Some(line) => {
                lines.push(line);
                assert(texts(lines@) =~= lines_of_rows(measurement@, h, rs.subrange(0, k as int), t).push(
                    texts(lines@).last(),
                ));
            },
            None => {},
        }
        k = k + 1;
    }
    assert(rs.subrange(0, all_rows.len() as int) =~= rs);
    Ok(lines)
}

/// A row that holds only the tag column gives no record, and a table whose
/// header is the tag column alone sends nothing.
pub proof fn lemma_tag_only_rows_skipped(measurement: Seq<char>, header: Seq<Seq<char>>, rows: Seq<Seq<Seq<char>>>)
    requires
        header.len() == 1,
    ensures
        forall|row: Seq<Seq<char>>| #[trigger] encoded_row(measurement, header, row, 0) is None,
        lines_of_rows(measurement, header, rows, 0).len() == 0,
    decreases rows.len(),
{
    assert forall|row: Seq<Seq<char>>| #[trigger] encoded_row(measurement, header, row, 0) is None by {
        assert(crate::line::field_pairs(header, row, 0, 0).len() == 0);
    }
    if rows.len() > 0 {
        lemma_tag_only_rows_skipped(measurement, header, rows.drop_last());
    }
}

/// A data row with another number of cells than the header stops the run
/// before any record is sent, whatever the other rows hold.
pub proof fn lemma_malformed_row_sends_nothing(
    measurement: Seq<char>,
    header: Seq<Seq<char>>,
    rows: Seq<Seq<Seq<char>>>,
    tag: Seq<char>,
    k: int,
)
    requires
        0 <= k < rows.len(),
        rows[k].len() != header.len(),
    ensures
        import_plan(measurement, header, rows, tag) == Err::<Seq<Seq<char>>, ImportError>(ImportError::MalformedInput),
{
}

/// A tag column that the header lacks stops the run before any row is
/// encoded or sent.
pub proof fn lemma_missing_tag_sends_nothing(
    measurement: Seq<char>,
    header: Seq<Seq<char>>,
    rows: Seq<Seq<Seq<char>>>,
    tag: Seq<char>,
)
    requires
        table_shape_ok(header, rows),
        !has_column(header, tag),
    ensures
        import_plan(measurement, header, rows, tag) == Err::<Seq<Seq<char>>, ImportError>(ImportError::TagColumnNotFound),
{
}

/// Two runs over the same input send the same records in the same order.
pub proof fn lemma_runs_agree(
    measurement: Seq<char>,
    header: Seq<Seq<char>>,
    rows: Seq<Seq<Seq<char>>>,
    tag: Seq<char>,
    first: Result<Vec<String>, ImportError>,
    second: Result<Vec<String>, ImportError>,
)
    requires
        result_texts(first) == import_plan(measurement, header, rows, tag),
        result_texts(second) == import_plan(measurement, header, rows, tag),
    ensures
        result_texts(first) == result_texts(second),
{
}

/// What came of handing one record to the destination.
#[derive(Clone, Copy, Debug, PartialEq, Eq)]
pub enum Delivery {
    /// The destination answered with a success status.
    Accepted,
    /// The destination answered with another status: this record is lost, the run goes on.
    Rejected,
    /// The destination could not be reached: the run stops.
    Unreachable,
}

/// What the run does next.
#[derive(Clone, Copy, Debug, PartialEq, Eq)]
pub enum Step {
    /// Send the record at this position.
    Send(usize),
    /// Every record was handed over.
    Finished,
    /// A delivery could not reach the destination; nothing more is sent.
    Aborted,
}

/// Progress of a run over a fixed number of records, one delivery at a time.
#[derive(Clone, Copy, Debug, PartialEq, Eq)]
pub struct ImportRun {
    pub total: usize,
    pub next: usize,
    pub rejected: usize,
    pub aborted: bool,
}

impl ImportRun {
    pub open spec fn wf(&self) -> bool {
        self.rejected <= self.next <= self.total
    }

    pub open spec fn step_spec(&self) -> Step {
        if self.aborted {
            Step::Aborted
        } else if self.next < self.total {
            Step::Send(self.next)
        } else {
            Step::Finished
        }
    }

    /// A run that has sent nothing yet.
    pub fn new(total: usize) -> (r: ImportRun)
        ensures
            r.wf(),
            r == (ImportRun { total, next: 0, rejected: 0, aborted: false }),
    {
        ImportRun { total, next: 0, rejected: 0, aborted: false }
    }

    /// The next thing to do.
    pub fn step(&self) -> (r: Step)
        ensures
            r == self.step_spec(),
    {
        if self.aborted {
            Step::Aborted
        } else if self.next < self.total {
            Step::Send(self.next)
        } else {
            Step::Finished
        }
    }

    /// Takes in the outcome of sending the record at `next`: a rejection is
    /// counted and the run moves on, an unreachable destination ends it.
    pub fn record(&mut self, outcome: Delivery)
        requires
            old(self).wf(),
            !old(self).aborted,
            old(self).next < old(self).total,
        ensures
            final(self).wf(),
            *final(self) == (match outcome {
                Delivery::Accepted => ImportRun { next: (old(self).next + 1) as usize, ..*old(self) },
                Delivery::Rejected => ImportRun {
                    next: (old(self).next + 1) as usize,
                    rejected: (old(self).rejected + 1) as usize,
                    ..*old(self)
                },
                Delivery::Unreachable => ImportRun { aborted: true, ..*old(self) },
            }),
    {
        match outcome {
            Delivery::Accepted => {
                self.next = self.next + 1;
            },
            Delivery::Rejected => {
                self.next = self.next + 1;
                self.rejected = self.rejected + 1;
            },
            Delivery::Unreachable => {
                self.aborted = true;
            },
        }
    }
}

} // verus!
