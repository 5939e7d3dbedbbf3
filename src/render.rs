//! Type-dispatched rendering of columnar cells to text records.
use vstd::prelude::*;
use crate::columnar::{Batch, Column, ColumnData};
use crate::decimal::{decimal_of, format_i32, format_i64, lemma_decimal_round_trip, parse_decimal};
use crate::error::CoreError;

verus! {

/// The kinds that have a text rendering.
pub open spec fn is_supported(d: ColumnData) -> bool {
    match d {
        ColumnData::Utf8(_) => true,
        ColumnData::Int32(_) => true,
        ColumnData::Int64(_) => true,
        ColumnData::Float64(_) => true,
        ColumnData::Timestamp(_, _) => true,
        _ => false,
    }
}

/// The type name reported for a kind without a text rendering.
pub open spec fn kind_name(d: ColumnData) -> Seq<char> {
    match d {
        ColumnData::List(_, _) => "List"@,
        ColumnData::Struct(_) => "Struct"@,
        ColumnData::Other(n) => n@,
        _ => Seq::empty(),
    }
}

/// The text of the value at `row` of a supported column: text verbatim,
/// integers and timestamp ticks in decimal, floats as their decimal text.
pub open spec fn value_text(d: ColumnData, row: int) -> Seq<char> {
    match d {
        ColumnData::Utf8(v) => v@[row]@,
        ColumnData::Int32(v) => decimal_of(v@[row] as int),
        ColumnData::Int64(v) => decimal_of(v@[row] as int),
        ColumnData::Float64(v) => v@[row]@,
        ColumnData::Timestamp(_, v) => decimal_of(v@[row] as int),
        _ => Seq::empty(),
    }
}

/// The rendering of cell `row` of `c`: the empty text for a null, checked
/// first; else the value's text, or the kind's name when it has no rendering.
pub open spec fn cell_spec(c: Column, row: int) -> Result<Seq<char>, Seq<char>> {
    if !c.valid@[row] {
        Ok(Seq::empty())
    } else if is_supported(c.data) {
        Ok(value_text(c.data, row))
    } else {
        Err(kind_name(c.data))
    }
}

/// `e` is the unsupported-type error for the kind named `kind`.
pub open spec fn reports_kind(e: CoreError, kind: Seq<char>) -> bool {
    match e {
        CoreError::UnsupportedType { kind: k } => k@ == kind,
        _ => false,
    }
}

/// `r` is the outcome that `s` describes.
pub open spec fn renders(r: Result<String, CoreError>, s: Result<Seq<char>, Seq<char>>) -> bool {
    match r {
        Ok(t) => s == Ok::<Seq<char>, Seq<char>>(t@),
        Err(e) => s is Err && reports_kind(e, s->Err_0),
    }
}

fn unsupported(kind: &str) -> (e: CoreError)
    ensures
        reports_kind(e, kind@),
{
    CoreError::UnsupportedType { kind: kind.to_owned() }
}

/// Renders cell `row` of `col`.
pub fn render_cell(col: &Column, row: usize) -> (r: Result<String, CoreError>)
    requires
        row < col.len(),
        col.buffers_agree(),
    ensures
        renders(r, cell_spec(*col, row as int)),
{
    if !col.valid[row] {
        return Ok(String::new());
    }
    match &col.data {
        ColumnData::Utf8(v) => Ok(v[row].clone()),
        ColumnData::Int32(v) => Ok(format_i32(v[row])),
        ColumnData::Int64(v) => Ok(format_i64(v[row])),
        ColumnData::Float64(v) => Ok(v[row].clone()),
        ColumnData::Timestamp(_, v) => Ok(format_i64(v[row])),
        ColumnData::List(_, _) => Err(unsupported("List")),
        ColumnData::Struct(_) => Err(unsupported("Struct")),
        ColumnData::Other(name) => Err(CoreError::UnsupportedType { kind: name.clone() }),
    }
}

/// Every cell of row `row` of `b` has a rendering.
pub open spec fn row_ok(b: Batch, row: int) -> bool {
    forall|i: int| 0 <= i < b.columns@.len() ==> (#[trigger] cell_spec(b.columns@[i], row)) is Ok
}

/// `rec` holds the renderings of the cells of row `row` of `b`, in column order.
pub open spec fn is_row_record(b: Batch, row: int, rec: Seq<String>) -> bool {
    &&& rec.len() == b.columns@.len()
    &&& forall|i: int|
        0 <= i < rec.len() ==> #[trigger] cell_spec(b.columns@[i], row) == Ok::<
            Seq<char>,
            Seq<char>,
        >(rec[i]@)
}

/// `e` is the error of the first cell of row `row` of `b` without a rendering.
pub open spec fn first_row_error(b: Batch, row: int, e: CoreError) -> bool {
    exists|i: int|
        0 <= i < b.columns@.len() && (forall|j: int|
            0 <= j < i ==> (#[trigger] cell_spec(b.columns@[j], row)) is Ok) && #[trigger] cell_spec(
            b.columns@[i],
            row,
        ) is Err && reports_kind(e, cell_spec(b.columns@[i], row)->Err_0)
}

/// Renders every cell of row `row`, in column order; fails on the first
/// cell whose kind has no rendering.
pub fn render_row(b: &Batch, row: usize) -> (r: Result<Vec<String>, CoreError>)
    requires
        b.wf(),
        row < b.num_rows,
    ensures
        match r {
            Ok(rec) => row_ok(*b, row as int) && is_row_record(*b, row as int, rec@),
            Err(e) => first_row_error(*b, row as int, e),
        },
{
    let mut rec: Vec<String> = Vec::new();
    let mut i: usize = 0;
    while i < b.columns.len()
        invariant
            b.wf(),
            row < b.num_rows,
            i <= b.columns@.len(),
            rec@.len() == i,
            forall|j: int|
                0 <= j < i ==> #[trigger] cell_spec(b.columns@[j], row as int) == Ok::<
                    Seq<char>,
                    Seq<char>,
                >(rec@[j]@),
        decreases b.columns@.len() - i,
    {
        assert(b.columns@[i as int].len() == b.num_rows);
        match render_cell(&b.columns[i], row) {
            Ok(t) => rec.push(t),
            Err(e) => {
                assert(first_row_error(*b, row as int, e)) by {
                    assert forall|j: int| 0 <= j < i implies (#[trigger] cell_spec(
                        b.columns@[j],
                        row as int,
                    )) is Ok by {
                        assert(cell_spec(b.columns@[j], row as int) == Ok::<Seq<char>, Seq<char>>(
                            rec@[j]@,
                        ));
                    }
                }
                return Err(e);
            },
        }
        i = i + 1;
    }
    proof {
        assert forall|j: int| 0 <= j < b.columns@.len() implies (#[trigger] cell_spec(
            b.columns@[j],
            row as int,
        )) is Ok by {
            assert(cell_spec(b.columns@[j], row as int) == Ok::<Seq<char>, Seq<char>>(rec@[j]@));
        }
    }
    Ok(rec)
}

/// The column names of `b`, in schema order.
pub fn header_record(b: &Batch) -> (h: Vec<String>)
    ensures
        h@.len() == b.columns@.len(),
        forall|i: int| 0 <= i < h@.len() ==> #[trigger] h@[i]@ == b.columns@[i].name@,
{
    let mut h: Vec<String> = Vec::new();
    let mut i: usize = 0;
    while i < b.columns.len()
        invariant
            i <= b.columns@.len(),
            h@.len() == i,
            forall|j: int| 0 <= j < i ==> #[trigger] h@[j]@ == b.columns@[j].name@,
        decreases b.columns@.len() - i,
    {
        h.push(b.columns[i].name.clone());
        i = i + 1;
    }
    h
}

/// All batches are well formed.
pub open spec fn all_wf(bs: Seq<Batch>) -> bool {
    forall|i: int| 0 <= i < bs.len() ==> (#[trigger] bs[i]).wf()
}

/// Every cell of every batch has a rendering.
pub open spec fn all_rows_ok(bs: Seq<Batch>) -> bool {
    forall|bi: int, row: int|
        0 <= bi < bs.len() && 0 <= row < bs[bi].num_rows ==> #[trigger] row_ok(bs[bi], row)
}

/// The text of a record.
pub open spec fn rec_text(rec: Vec<String>) -> Seq<Seq<char>> {
    rec@.map_values(|s: String| s@)
}

/// The text of a sequence of records.
pub open spec fn recs_text(recs: Seq<Vec<String>>) -> Seq<Seq<Seq<char>>> {
    recs.map_values(|r: Vec<String>| rec_text(r))
}

/// The rendered cells of row `row` of `b`, where they all have a rendering.
pub open spec fn row_text(b: Batch, row: int) -> Seq<Seq<char>> {
    Seq::new(b.columns@.len(), |i: int| cell_spec(b.columns@[i], row)->Ok_0)
}

/// The rendered records of the first `n` rows of `b`.
pub open spec fn batch_text(b: Batch, n: nat) -> Seq<Seq<Seq<char>>> {
    Seq::new(n, |row: int| row_text(b, row))
}

/// The rendered records of all rows of all batches, batch after batch.
pub open spec fn data_text(bs: Seq<Batch>) -> Seq<Seq<Seq<char>>>
    decreases bs.len(),
{
    if bs.len() == 0 {
        Seq::empty()
    } else {
        data_text(bs.drop_last()) + batch_text(bs.last(), bs.last().num_rows as nat)
    }
}

/// Every row of the batches before `bi`, and every row of batch `bi` before
/// `row`, has a rendering.
pub open spec fn rows_ok_before(bs: Seq<Batch>, bi: int, row: int) -> bool {
    &&& forall|c: int, rw: int|
        0 <= c < bi && 0 <= rw < bs[c].num_rows ==> #[trigger] row_ok(bs[c], rw)
    &&& forall|rw: int| 0 <= rw < row ==> #[trigger] row_ok(bs[bi], rw)
}

/// Row `row` of batch `bi` is the first row, in batch and row order, with a
/// cell without a rendering, and `e` is the error of its first such cell.
pub open spec fn fails_first_at(bs: Seq<Batch>, bi: int, row: int, e: CoreError) -> bool {
    &&& 0 <= bi < bs.len()
    &&& 0 <= row < bs[bi].num_rows
    &&& rows_ok_before(bs, bi, row)
    &&& first_row_error(bs[bi], row, e)
}

/// Renders a query result: the header record `header` (the result's column
/// names), always and first, then the records of all rows of all batches in
/// order. On the first row with a cell without a rendering it stops: the
/// records returned are the header and those of the rows before, and the
/// outcome is that cell's error.
pub fn render_records(header: Vec<String>, batches: &Vec<Batch>) -> (r: (
    Vec<Vec<String>>,
    Result<(), CoreError>,
))
    requires
        all_wf(batches@),
    ensures
        r.0@.len() > 0,
        r.0@[0] == header,
        match r.1 {
            Ok(_) => all_rows_ok(batches@) && recs_text(r.0@) == seq![rec_text(header)] + data_text(
                batches@,
            ),
            Err(e) => exists|bi: int, row: int|
                #[trigger] fails_first_at(batches@, bi, row, e) && recs_text(r.0@) == seq![
                    rec_text(header),
                ] + data_text(batches@.take(bi)) + batch_text(batches@[bi], row as nat),
        },
{
    let ghost head = seq![rec_text(header)];
    let mut recs: Vec<Vec<String>> = Vec::new();
    recs.push(header);
    proof {
        assert(recs_text(recs@) =~= head);
        assert(batches@.take(0) =~= Seq::<Batch>::empty());
        assert(head + data_text(batches@.take(0)) =~= head);
    }
    let mut bi: usize = 0;
    while bi < batches.len()
        invariant
            all_wf(batches@),
            bi <= batches@.len(),
            recs@.len() > 0,
            recs@[0] == header,
            head == seq![rec_text(header)],
            recs_text(recs@) == head + data_text(batches@.take(bi as int)),
            forall|c: int, rw: int|
                0 <= c < bi && 0 <= rw < batches@[c].num_rows ==> #[trigger] row_ok(
                    batches@[c],
                    rw,
                ),
        decreases batches@.len() - bi,
    {
        let b = &batches[bi];
        assert(b.wf());
        let ghost before = head + data_text(batches@.take(bi as int));
        let mut row: usize = 0;
        proof {
            assert(batch_text(*b, 0) =~= Seq::<Seq<Seq<char>>>::empty());
            assert(before + batch_text(*b, 0) =~= before);
        }
        while row < b.num_rows
            invariant
                b.wf(),
                *b == batches@[bi as int],
                bi < batches@.len(),
                row <= b.num_rows,
                recs@.len() > 0,
                recs@[0] == header,
                head == seq![rec_text(header)],
                before == head + data_text(batches@.take(bi as int)),
                recs_text(recs@) == before + batch_text(*b, row as nat),
                forall|c: int, rw: int|
                    0 <= c < bi && 0 <= rw < batches@[c].num_rows ==> #[trigger] row_ok(
                        batches@[c],
                        rw,
                    ),
                forall|rw: int| 0 <= rw < row ==> #[trigger] row_ok(*b, rw),
            decreases b.num_rows - row,
        {
            match render_row(b, row) {
                Ok(rec) => {
                    proof {
                        assert(rec_text(rec) =~= row_text(*b, row as int));
                        assert(batch_text(*b, (row + 1) as nat) =~= batch_text(
                            *b,
                            row as nat,
                        ).push(row_text(*b, row as int)));
                    }
                    let ghost old_recs = recs@;
                    recs.push(rec);
                    proof {
                        assert(recs_text(recs@) =~= recs_text(old_recs).push(rec_text(rec)));
                        assert(recs_text(recs@) =~= before + batch_text(*b, (row + 1) as nat));
                    }
                },
                Err(e) => {
                    assert(fails_first_at(batches@, bi as int, row as int, e));
                    return (recs, Err(e));
                },
            }
            row = row + 1;
        }
        proof {
            let s = batches@.take(bi + 1);
            assert(s.drop_last() =~= batches@.take(bi as int));
            assert(s.last() == *b);
            assert(data_text(s) == data_text(batches@.take(bi as int)) + batch_text(
                *b,
                b.num_rows as nat,
            ));
            assert(recs_text(recs@) =~= head + data_text(s));
            assert forall|c: int, rw: int|
                0 <= c < bi + 1 && 0 <= rw < batches@[c].num_rows implies #[trigger] row_ok(
                batches@[c],
                rw,
            ) by {
                if c == bi {
                    assert(row_ok(*b, rw));
                }
            }
        }
        bi = bi + 1;
    }
    proof {
        assert(batches@.take(batches@.len() as int) =~= batches@);
    }
    (recs, Ok(()))
}

/// A null cell renders as the empty text, whatever the column's kind.
pub proof fn lemma_null_renders_empty(c: Column, row: int)
    requires
        0 <= row < c.len(),
        !c.valid@[row],
    ensures
        cell_spec(c, row) == Ok::<Seq<char>, Seq<char>>(Seq::empty()),
{
}

/// A non-null cell of a supported kind always has a rendering; one of any
/// other kind always fails with that kind's name.
pub proof fn lemma_dispatch_total(c: Column, row: int)
    requires
        0 <= row < c.len(),
        c.valid@[row],
    ensures
        is_supported(c.data) ==> cell_spec(c, row) is Ok,
        !is_supported(c.data) ==> cell_spec(c, row) == Err::<Seq<char>, Seq<char>>(
            kind_name(c.data),
        ),
{
}

/// The value of a non-null integer or timestamp cell is read back from its
/// rendering.
pub proof fn lemma_integer_cell_round_trip(c: Column, row: int)
    requires
        0 <= row < c.len(),
        c.valid@[row],
        c.buffers_agree(),
    ensures
        match c.data {
            ColumnData::Int32(v) => parse_decimal(cell_spec(c, row)->Ok_0) == v@[row] as int,
            ColumnData::Int64(v) => parse_decimal(cell_spec(c, row)->Ok_0) == v@[row] as int,
            ColumnData::Timestamp(_, v) => parse_decimal(cell_spec(c, row)->Ok_0) == v@[row] as int,
            _ => true,
        },
{
    match c.data {
        ColumnData::Int32(v) => lemma_decimal_round_trip(v@[row] as int),
        ColumnData::Int64(v) => lemma_decimal_round_trip(v@[row] as int),
        ColumnData::Timestamp(_, v) => lemma_decimal_round_trip(v@[row] as int),
        _ => {},
    }
}

} // verus!
