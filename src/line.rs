//! Building one line-protocol record from one row.

use vstd::prelude::*;
use crate::error::ImportError;
use crate::escape::{escape_identifier, identifier_escaped, push_escaped, quoted_escaped, EscapeRule};

verus! {

/// The text of each string of a vector.
pub open spec fn texts(v: Seq<String>) -> Seq<Seq<char>> {
    v.map_values(|s: String| s@)
}

/// Whether `name` is one of the header's column names.
pub open spec fn has_column(header: Seq<Seq<char>>, name: Seq<char>) -> bool {
    exists|i: int| 0 <= i < header.len() && header[i] == name
}

/// `i` is the first position of `name` in the header.
pub open spec fn is_first_position(header: Seq<Seq<char>>, name: Seq<char>, i: int) -> bool {
    &&& 0 <= i < header.len()
    &&& header[i] == name
    &&& forall|j: int| 0 <= j < i ==> header[j] != name
}

/// `key="value"`, the key escaped as an identifier, the value as a quoted string.
pub open spec fn field_pair(key: Seq<char>, value: Seq<char>) -> Seq<char> {
    identifier_escaped(key) + seq!['=', '"'] + quoted_escaped(value) + seq!['"']
}

/// The field pairs of the first `n` columns, the tag column left out, in header order.
pub open spec fn field_pairs(header: Seq<Seq<char>>, row: Seq<Seq<char>>, tag: int, n: int) -> Seq<Seq<char>>
    decreases n,
{
    if n <= 0 {
        Seq::empty()
    } else {
        let before = field_pairs(header, row, tag, n - 1);
        if n - 1 == tag {
            before
        } else {
            before.push(field_pair(header[n - 1], row[n - 1]))
        }
    }
}

/// The parts with a comma between each two.
pub open spec fn comma_joined(parts: Seq<Seq<char>>) -> Seq<char>
    decreases parts.len(),
{
    if parts.len() == 0 {
        Seq::empty()
    } else if parts.len() == 1 {
        parts[0]
    } else {
        comma_joined(parts.drop_last()) + seq![','] + parts.last()
    }
}

/// `<measurement>,<tag key>=<tag value> <field>,<field>,...`; the tag key is
/// escaped as an identifier, as the field keys are.
pub open spec fn line_of(measurement: Seq<char>, header: Seq<Seq<char>>, row: Seq<Seq<char>>, tag: int) -> Seq<char> {
    identifier_escaped(measurement) + seq![','] + identifier_escaped(header[tag]) + seq!['=']
        + identifier_escaped(row[tag]) + seq![' '] + comma_joined(field_pairs(header, row, tag, header.len() as int))
}

/// The record for a row, or nothing where the row has no field besides the tag.
pub open spec fn encoded_row(measurement: Seq<char>, header: Seq<Seq<char>>, row: Seq<Seq<char>>, tag: int) -> Option<Seq<char>> {
    if field_pairs(header, row, tag, header.len() as int).len() == 0 {
        None
    } else {
        Some(line_of(measurement, header, row, tag))
    }
}

/// The position of the first column named `tag`.
pub fn find_tag_index(header: &Vec<String>, tag: &str) -> (r: Option<usize>)
    ensures
        r is None <==> !has_column(texts(header@), tag@),
        r matches Some(i) ==> is_first_position(texts(header@), tag@, i as int),
{
    let name = tag.to_owned();
    let mut i: usize = 0;
    while i < header.len()
        invariant
            i <= header.len(),
            name@ == tag@,
            forall|j: int| 0 <= j < i ==> texts(header@)[j] != tag@,
        decreases header.len() - i,
    {
        if header[i] == name {
            assert(texts(header@)[i as int] == tag@);
            return Some(i);
        }
        i = i + 1;
    }
    None
}

/// Encodes rows of one table: the header, the tag column's position and the
/// escaped measurement name are fixed once for the whole run.
pub struct LineEncoder {
    header: Vec<String>,
    tag_index: usize,
    measurement: String,
    measurement_escaped: String,
}

impl LineEncoder {
    pub closed spec fn header_view(&self) -> Seq<Seq<char>> {
        texts(self.header@)
    }

    pub closed spec fn tag_position(&self) -> int {
        self.tag_index as int
    }

    pub closed spec fn measurement_view(&self) -> Seq<char> {
        self.measurement@
    }

    pub closed spec fn wf(&self) -> bool {
        &&& self.tag_index < self.header.len()
        &&& self.measurement_escaped@ == identifier_escaped(self.measurement@)
    }

    /// Resolves the tag column once; fails when the header has no such column.
    pub fn new(header: Vec<String>, tag: &str, measurement: &str) -> (r: Result<LineEncoder, ImportError>)
        ensures
            r is Err <==> !has_column(texts(header@), tag@),
            r matches Err(e) ==> e == ImportError::TagColumnNotFound,
            r matches Ok(enc) ==> {
                &&& enc.wf()
                &&& enc.header_view() == texts(header@)
                &&& is_first_position(texts(header@), tag@, enc.tag_position())
                &&& enc.measurement_view() == measurement@
            },
    {
        match find_tag_index(&header, tag) {
            None => Err(ImportError::TagColumnNotFound),
            Some(tag_index) => {
                let measurement_escaped = escape_identifier(measurement);
                Ok(LineEncoder { header, tag_index, measurement: measurement.to_owned(), measurement_escaped })
            },
        }
    }

    pub fn header(&self) -> (r: &Vec<String>)
        ensures
            texts(r@) == self.header_view(),
    {
        &self.header
    }

    pub fn tag_index(&self) -> (r: usize)
        ensures
            r as int == self.tag_position(),
    {
        self.tag_index
    }

    /// The record for `row`, or `None` where the row has no field besides the tag.
    pub fn encode(&self, row: &Vec<String>) -> (r: Option<String>)
        requires
            self.wf(),
            row.len() == self.header_view().len(),
        ensures
            r matches Some(s) ==> encoded_row(self.measurement_view(), self.header_view(), texts(row@), self.tag_position()) == Some(s@),
            r is None ==> encoded_row(self.measurement_view(), self.header_view(), texts(row@), self.tag_position()) is None,
    {
        let ghost h = self.header_view();
        let ghost cells = texts(row@);
        let ghost t = self.tag_position();
        let mut fields = String::new();
        let mut count: usize = 0;
        let mut i: usize = 0;
        while i < self.header.len()
            invariant
                self.wf(),
                h == self.header_view(),
                cells == texts(row@),
                t == self.tag_position(),
                row.len() == h.len(),
                i <= h.len(),
                count as int == field_pairs(h, cells, t, i as int).len(),
                count <= i,
                fields@ == comma_joined(field_pairs(h, cells, t, i as int)),
            decreases h.len() - i,
        {
            let ghost before = field_pairs(h, cells, t, i as int);
            if i != self.tag_index {
                if count > 0 {
                    fields.append(",");
                }
                push_escaped(&mut fields, self.header[i].as_str(), EscapeRule::Identifier);
                fields.append("=\"");
                push_escaped(&mut fields, row[i].as_str(), EscapeRule::QuotedString);
                fields.append("\"");
                count = count + 1;
                proof {
                    let after = field_pairs(h, cells, t, i as int + 1);
                    assert(after == before.push(field_pair(h[i as int], cells[i as int])));
                    assert(after.drop_last() =~= before);
                    reveal_strlit(",");
                    reveal_strlit("=\"");
                    reveal_strlit("\"");
                    assert(fields@ =~= comma_joined(after));
                }
            }
            i = i + 1;
        }
        if count == 0 {
            None
        } else {
            let mut line = String::new();
            line.append(self.measurement_escaped.as_str());
            line.append(",");
            push_escaped(&mut line, self.header[self.tag_index].as_str(), EscapeRule::Identifier);
            line.append("=");
            push_escaped(&mut line, row[self.tag_index].as_str(), EscapeRule::Identifier);
            line.append(" ");
            line.append(fields.as_str());
            proof {
                reveal_strlit(",");
                reveal_strlit("=");
                reveal_strlit(" ");
                assert(line@ =~= line_of(self.measurement_view(), h, cells, t));
            }
            Some(line)
        }
    }
}

} // verus!
