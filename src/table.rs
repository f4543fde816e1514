//! A parsed CSV table whose rows all line up with its header.

use vstd::prelude::*;
use crate::error::ImportError;
use crate::line::texts;

verus! {

/// Every row has one cell per header column.
pub open spec fn rows_aligned(header_len: int, rows: Seq<Vec<String>>) -> bool {
    forall|k: int| 0 <= k < rows.len() ==> #[trigger] rows[k].len() == header_len
}

/// A table is well formed when it has a header and every row lines up with it.
pub open spec fn well_formed(header_len: int, rows: Seq<Vec<String>>) -> bool {
    header_len > 0 && rows_aligned(header_len, rows)
}

/// The rows of a table as text, row by row and cell by cell.
pub open spec fn row_texts(rows: Seq<Vec<String>>) -> Seq<Seq<Seq<char>>> {
    rows.map_values(|r: Vec<String>| texts(r@))
}

pub struct Table {
    header: Vec<String>,
    rows: Vec<Vec<String>>,
}

impl Table {
    pub closed spec fn header_view(&self) -> Seq<Seq<char>> {
        texts(self.header@)
    }

    pub closed spec fn rows_view(&self) -> Seq<Seq<Seq<char>>> {
        row_texts(self.rows@)
    }

    pub closed spec fn wf(&self) -> bool {
        well_formed(self.header.len() as int, self.rows@)
    }

    /// Takes a header and the data rows in file order; a missing header or a
    /// row of another length than the header makes the input malformed.
    pub fn new(header: Vec<String>, rows: Vec<Vec<String>>) -> (r: Result<Table, ImportError>)
        ensures
            r is Err <==> !well_formed(header.len() as int, rows@),
            r matches Err(e) ==> e == ImportError::MalformedInput,
            r matches Ok(t) ==> {
                &&& t.wf()
                &&& t.header_view() == texts(header@)
                &&& t.rows_view() == row_texts(rows@)
            },
    {
        if header.len() == 0 {
            return Err(ImportError::MalformedInput);
        }
        let mut k: usize = 0;
        while k < rows.len()
            invariant
                k <= rows.len(),
                rows_aligned(header.len() as int, rows@.subrange(0, k as int)),
            decreases rows.len() - k,
        {
            if rows[k].len() != header.len() {
                assert(rows@[k as int].len() != header.len());
                return Err(ImportError::MalformedInput);
            }
            assert(rows_aligned(header.len() as int, rows@.subrange(0, k as int + 1))) by {
                assert forall|j: int| 0 <= j < k + 1 implies #[trigger] rows@.subrange(0, k as int + 1)[j].len()
                    == header.len() by {
                    if j < k {
                        assert(rows@.subrange(0, k as int + 1)[j] == rows@.subrange(0, k as int)[j]);
                    }
                }
            }
            k = k + 1;
        }
        assert(rows@.subrange(0, rows.len() as int) =~= rows@);
        Ok(Table { header, rows })
    }

    pub fn header(&self) -> (r: &Vec<String>)
        ensures
            texts(r@) == self.header_view(),
    {
        &self.header
    }

    pub fn rows(&self) -> (r: &Vec<Vec<String>>)
        ensures
            row_texts(r@) == self.rows_view(),
            self.wf() ==> well_formed(self.header_view().len() as int, r@),
    {
        &self.rows
    }

    pub fn row_count(&self) -> (r: usize)
        ensures
            r == self.rows_view().len(),
    {
        self.rows.len()
    }
}

} // verus!
