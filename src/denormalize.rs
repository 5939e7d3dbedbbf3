//! Expansion of `continent` / `country { name, city: list }` batches into one
//! flat row per city.
use vstd::prelude::*;
use crate::columnar::{Batch, Column, ColumnData, find_column, lookup};
use crate::error::{CoreError, ShapeProblem};

verus! {

/// A flat row: (continent, country name, city).
pub type FlatRow = (Seq<char>, Seq<char>, Seq<char>);

/// The text values of a column, when it is a text column.
pub open spec fn text_values(c: Option<Column>) -> Seq<String> {
    match c {
        Some(c) => match c.data {
            ColumnData::Utf8(v) => v@,
            _ => Seq::empty(),
        },
        None => Seq::empty(),
    }
}

/// What is wrong, if anything, with a text field expected to have `n` rows.
pub open spec fn text_field_error(c: Option<Column>, field: Seq<char>, n: nat) -> Option<
    (Seq<char>, ShapeProblem),
> {
    match c {
        None => Some((field, ShapeProblem::Missing)),
        Some(c) => match c.data {
            ColumnData::Utf8(v) => if v@.len() == n {
                None
            } else {
                Some((field, ShapeProblem::BadLength))
            },
            _ => Some((field, ShapeProblem::WrongKind)),
        },
    }
}

/// List offsets describe `n` rows, each a slice of `len` child values.
pub open spec fn offsets_ok(offsets: Seq<usize>, n: nat, len: nat) -> bool {
    &&& offsets.len() == n + 1
    &&& forall|r: int| 0 <= r < n ==> offsets[r] <= #[trigger] offsets[r + 1] <= len
}

/// The fields of the `country` record column.
pub open spec fn country_fields(b: Batch) -> Seq<Column> {
    match lookup(b.columns@, "country"@) {
        Some(c) => match c.data {
            ColumnData::Struct(f) => f@,
            _ => Seq::empty(),
        },
        None => Seq::empty(),
    }
}

pub open spec fn continents(b: Batch) -> Seq<String> {
    text_values(lookup(b.columns@, "continent"@))
}

pub open spec fn country_names(b: Batch) -> Seq<String> {
    text_values(lookup(country_fields(b), "name"@))
}

/// The list offsets of `country.city`.
pub open spec fn city_offsets(b: Batch) -> Seq<usize> {
    match lookup(country_fields(b), "city"@) {
        Some(c) => match c.data {
            ColumnData::List(offsets, _) => offsets@,
            _ => Seq::empty(),
        },
        None => Seq::empty(),
    }
}

/// The child text values of `country.city`.
pub open spec fn city_values(b: Batch) -> Seq<String> {
    match lookup(country_fields(b), "city"@) {
        Some(c) => match c.data {
            ColumnData::List(_, child) => match child.data {
                ColumnData::Utf8(v) => v@,
                _ => Seq::empty(),
            },
            _ => Seq::empty(),
        },
        None => Seq::empty(),
    }
}

/// What is wrong with `country.city`, if anything.
pub open spec fn city_error(c: Option<Column>, n: nat) -> Option<(Seq<char>, ShapeProblem)> {
    match c {
        None => Some(("country.city"@, ShapeProblem::Missing)),
        Some(c) => match c.data {
            ColumnData::List(offsets, child) => match child.data {
                ColumnData::Utf8(v) => if offsets_ok(offsets@, n, v@.len()) {
                    None
                } else {
                    Some(("country.city"@, ShapeProblem::BadLength))
                },
                _ => Some(("country.city"@, ShapeProblem::WrongKind)),
            },
            _ => Some(("country.city"@, ShapeProblem::WrongKind)),
        },
    }
}

/// The first problem with the nested shape of `b`, in the order continent,
/// country, country.name, country.city; `None` when the shape is sound.
pub open spec fn shape_error(b: Batch) -> Option<(Seq<char>, ShapeProblem)> {
    let n = b.num_rows as nat;
    let country = lookup(b.columns@, "country"@);
    if text_field_error(lookup(b.columns@, "continent"@), "continent"@, n) is Some {
        text_field_error(lookup(b.columns@, "continent"@), "continent"@, n)
    } else if country is None {
        Some(("country"@, ShapeProblem::Missing))
    } else if !(country->Some_0.data is Struct) {
        Some(("country"@, ShapeProblem::WrongKind))
    } else if text_field_error(lookup(country_fields(b), "name"@), "country.name"@, n) is Some {
        text_field_error(lookup(country_fields(b), "name"@), "country.name"@, n)
    } else {
        city_error(lookup(country_fields(b), "city"@), n)
    }
}

/// The cities of row `r`, in list order.
pub open spec fn cities_at(b: Batch, r: int) -> Seq<Seq<char>> {
    city_values(b).subrange(city_offsets(b)[r] as int, city_offsets(b)[r + 1] as int).map_values(
        |s: String| s@,
    )
}

/// The flat rows of row `r`: one per city, sharing the row's continent and
/// country name.
pub open spec fn fan_out(b: Batch, r: int) -> Seq<FlatRow> {
    cities_at(b, r).map_values(|c: Seq<char>| (continents(b)[r]@, country_names(b)[r]@, c))
}

/// The flat rows of the first `n` rows of `b`, in row order.
pub open spec fn batch_rows(b: Batch, n: nat) -> Seq<FlatRow>
    decreases n,
{
    if n == 0 {
        Seq::empty()
    } else {
        batch_rows(b, (n - 1) as nat) + fan_out(b, n - 1)
    }
}

/// The flat rows of a sequence of batches, batch after batch.
pub open spec fn flat_rows(bs: Seq<Batch>) -> Seq<FlatRow>
    decreases bs.len(),
{
    if bs.len() == 0 {
        Seq::empty()
    } else {
        flat_rows(bs.drop_last()) + batch_rows(bs.last(), bs.last().num_rows as nat)
    }
}

/// A text column named `name` of non-null values equal to `vals`.
pub open spec fn is_text_column(c: Column, name: Seq<char>, vals: Seq<Seq<char>>) -> bool {
    &&& c.name@ == name
    &&& c.valid@.len() == vals.len()
    &&& forall|k: int| 0 <= k < vals.len() ==> #[trigger] c.valid@[k]
    &&& match c.data {
        ColumnData::Utf8(v) => v@.len() == vals.len() && forall|k: int|
            0 <= k < vals.len() ==> #[trigger] v@[k]@ == vals[k],
        _ => false,
    }
}

/// `out` is the flat table of `rows`: columns continent, country_name, city.
pub open spec fn is_flat_table(out: Batch, rows: Seq<FlatRow>) -> bool {
    &&& out.num_rows == rows.len()
    &&& out.columns@.len() == 3
    &&& is_text_column(out.columns@[0], "continent"@, rows.map_values(|t: FlatRow| t.0))
    &&& is_text_column(out.columns@[1], "country_name"@, rows.map_values(|t: FlatRow| t.1))
    &&& is_text_column(out.columns@[2], "city"@, rows.map_values(|t: FlatRow| t.2))
}

/// Typed, shape-checked access to the rows of one nested batch.
pub struct NestedView<'a> {
    continents: &'a Vec<String>,
    names: &'a Vec<String>,
    offsets: &'a Vec<usize>,
    cities: &'a Vec<String>,
    num_rows: usize,
}

fn mismatch(field: &str, problem: ShapeProblem) -> (e: CoreError)
    ensures
        e matches CoreError::SchemaMismatch { field: f, problem: p } && f@ == field@ && p
            == problem,
{
    CoreError::SchemaMismatch { field: field.to_owned(), problem }
}

/// The values of a text column expected to have `n` rows.
fn text_field<'a>(cols: &'a Vec<Column>, name: &str, field: &str, n: usize) -> (r: Result<
    &'a Vec<String>,
    CoreError,
>)
    ensures
        match r {
            Ok(v) => text_field_error(lookup(cols@, name@), field@, n as nat) is None && v@
                == text_values(lookup(cols@, name@)),
            Err(e) => e matches CoreError::SchemaMismatch { field: f, problem: p } && text_field_error(
                lookup(cols@, name@),
                field@,
                n as nat,
            ) == Some((f@, p)),
        },
{
    match find_column(cols, name) {
        None => Err(mismatch(field, ShapeProblem::Missing)),
        Some(i) => match &cols[i].data {
            ColumnData::Utf8(v) => if v.len() == n {
                Ok(v)
            } else {
                Err(mismatch(field, ShapeProblem::BadLength))
            },
            _ => Err(mismatch(field, ShapeProblem::WrongKind)),
        },
    }
}

fn check_offsets(offsets: &Vec<usize>, n: usize, len: usize) -> (r: bool)
    ensures
        r == offsets_ok(offsets@, n as nat, len as nat),
{
    if offsets.len() == 0 || offsets.len() - 1 != n {
        return false;
    }
    let mut r: usize = 0;
    while r < n
        invariant
            offsets@.len() == n + 1,
            r <= n,
            forall|j: int| 0 <= j < r ==> offsets@[j] <= #[trigger] offsets@[j + 1] <= len,
        decreases n - r,
    {
        if offsets[r] > offsets[r + 1] || offsets[r + 1] > len {
            assert(!(offsets@[r as int] <= offsets@[r + 1] <= len));
            return false;
        }
        r = r + 1;
    }
    true
}

impl<'a> NestedView<'a> {
    pub closed spec fn spec_continents(&self) -> Seq<String> {
        self.continents@
    }

    pub closed spec fn spec_names(&self) -> Seq<String> {
        self.names@
    }

    pub closed spec fn spec_offsets(&self) -> Seq<usize> {
        self.offsets@
    }

    pub closed spec fn spec_cities(&self) -> Seq<String> {
        self.cities@
    }

    pub closed spec fn spec_num_rows(&self) -> usize {
        self.num_rows
    }

    /// The view reads `b` exactly.
    pub open spec fn reads(&self, b: Batch) -> bool {
        &&& self.spec_num_rows() == b.num_rows
        &&& self.spec_continents() == continents(b)
        &&& self.spec_names() == country_names(b)
        &&& self.spec_offsets() == city_offsets(b)
        &&& self.spec_cities() == city_values(b)
        &&& offsets_ok(city_offsets(b), b.num_rows as nat, city_values(b).len())
        &&& continents(b).len() == b.num_rows
        &&& country_names(b).len() == b.num_rows
    }

    /// Validates the nested shape of `b` once; fails on the first field
    /// that is absent or malformed.
    pub fn try_new(b: &'a Batch) -> (r: Result<NestedView<'a>, CoreError>)
        ensures
            match r {
                Ok(v) => shape_error(*b) is None && v.reads(*b),
                Err(e) => e matches CoreError::SchemaMismatch { field: f, problem: p }
                    && shape_error(*b) == Some((f@, p)),
            },
    {
        let n = b.num_rows;
        let continents = text_field(&b.columns, "continent", "continent", n)?;
        let country = match find_column(&b.columns, "country") {
            None => return Err(mismatch("country", ShapeProblem::Missing)),
            Some(i) => &b.columns[i],
        };
        let fields = match &country.data {
            ColumnData::Struct(f) => f,
            _ => return Err(mismatch("country", ShapeProblem::WrongKind)),
        };
        let names = text_field(fields, "name", "country.name", n)?;
        let city = match find_column(fields, "city") {
            None => return Err(mismatch("country.city", ShapeProblem::Missing)),
            Some(i) => &fields[i],
        };
        let (offsets, child) = match &city.data {
            ColumnData::List(o, c) => (o, c),
            _ => return Err(mismatch("country.city", ShapeProblem::WrongKind)),
        };
        let cities = match &child.data {
            ColumnData::Utf8(v) => v,
            _ => return Err(mismatch("country.city", ShapeProblem::WrongKind)),
        };
        if !check_offsets(offsets, n, cities.len()) {
            return Err(mismatch("country.city", ShapeProblem::BadLength));
        }
        Ok(NestedView { continents, names, offsets, cities, num_rows: n })
    }

    pub fn num_rows(&self) -> (n: usize)
        ensures
            n == self.spec_num_rows(),
    {
        self.num_rows
    }

    pub fn continent_at(&self, r: usize) -> (s: &'a String)
        requires
            r < self.spec_continents().len(),
        ensures
            *s == self.spec_continents()[r as int],
    {
        &self.continents[r]
    }

    pub fn country_name_at(&self, r: usize) -> (s: &'a String)
        requires
            r < self.spec_names().len(),
        ensures
            *s == self.spec_names()[r as int],
    {
        &self.names[r]
    }

    /// The child positions `start .. end` of the cities of row `r`.
    pub fn city_range(&self, r: usize) -> (se: (usize, usize))
        requires
            r + 1 < self.spec_offsets().len(),
        ensures
            se.0 == self.spec_offsets()[r as int],
            se.1 == self.spec_offsets()[r + 1],
    {
        let len = self.offsets.len();
        assert(r + 1 < len);
        (self.offsets[r], self.offsets[r + 1])
    }

    pub fn city_at(&self, k: usize) -> (s: &'a String)
        requires
            k < self.spec_cities().len(),
        ensures
            *s == self.spec_cities()[k as int],
    {
        &self.cities[k]
    }
}

/// Batch `i` is the first of `bs` whose nested shape is unsound.
pub open spec fn first_unsound(bs: Seq<Batch>, i: int) -> bool {
    &&& 0 <= i < bs.len()
    &&& shape_error(bs[i]) is Some
    &&& forall|j: int| 0 <= j < i ==> shape_error(#[trigger] bs[j]) is None
}

/// `e` reports the shape problem `s`.
pub open spec fn reports_shape(e: CoreError, s: Option<(Seq<char>, ShapeProblem)>) -> bool {
    match e {
        CoreError::SchemaMismatch { field, problem } => s == Some((field@, problem)),
        _ => false,
    }
}

/// Three text columns hold, position for position, the parts of `rows`.
pub open spec fn columns_hold(
    c: Seq<String>,
    n: Seq<String>,
    y: Seq<String>,
    rows: Seq<FlatRow>,
) -> bool {
    &&& c.len() == rows.len()
    &&& n.len() == rows.len()
    &&& y.len() == rows.len()
    &&& forall|k: int|
        0 <= k < rows.len() ==> (#[trigger] rows[k]) == (c[k]@, n[k]@, y[k]@)
}

fn all_valid(n: usize) -> (v: Vec<bool>)
    ensures
        v@.len() == n,
        forall|k: int| 0 <= k < n ==> #[trigger] v@[k],
{
    let mut v: Vec<bool> = Vec::new();
    let mut i: usize = 0;
    while i < n
        invariant
            i <= n,
            v@.len() == i,
            forall|k: int| 0 <= k < i ==> #[trigger] v@[k],
        decreases n - i,
    {
        v.push(true);
        i = i + 1;
    }
    v
}

fn text_column(name: &str, vals: Vec<String>, Ghost(parts): Ghost<Seq<Seq<char>>>) -> (c: Column)
    requires
        vals@.len() == parts.len(),
        forall|k: int| 0 <= k < parts.len() ==> #[trigger] vals@[k]@ == parts[k],
    ensures
        is_text_column(c, name@, parts),
{
    let valid = all_valid(vals.len());
    Column { name: name.to_owned(), valid, data: ColumnData::Utf8(vals) }
}

/// Flattens the batches into one table with a row (continent, country_name,
/// city) per city of every input row, in batch, row and list order. Fails
/// with the shape problem of the first batch whose nested shape is unsound.
/// Null flags of the input are not consulted: each slot's stored value is read.
pub fn denormalize(batches: &Vec<Batch>) -> (r: Result<Batch, CoreError>)
    ensures
        match r {
            Ok(out) => (forall|i: int| 0 <= i < batches@.len() ==> (shape_error(
                #[trigger] batches@[i],
            ) is None)) && is_flat_table(out, flat_rows(batches@)),
            Err(e) => exists|i: int|
                #[trigger] first_unsound(batches@, i) && reports_shape(e, shape_error(batches@[i])),
        },
{
    let mut out_c: Vec<String> = Vec::new();
    let mut out_n: Vec<String> = Vec::new();
    let mut out_y: Vec<String> = Vec::new();
    let mut bi: usize = 0;
    while bi < batches.len()
        invariant
            bi <= batches@.len(),
            forall|j: int| 0 <= j < bi ==> shape_error(#[trigger] batches@[j]) is None,
            columns_hold(out_c@, out_n@, out_y@, flat_rows(batches@.take(bi as int))),
        decreases batches@.len() - bi,
    {
        let b = &batches[bi];
        let view = match NestedView::try_new(b) {
            Ok(v) => v,
            Err(e) => {
                assert(first_unsound(batches@, bi as int));
                return Err(e);
            },
        };
        let ghost done = flat_rows(batches@.take(bi as int));
        let mut r: usize = 0;
        while r < view.num_rows()
            invariant
                view.reads(*b),
                r <= b.num_rows,
                columns_hold(out_c@, out_n@, out_y@, done + batch_rows(*b, r as nat)),
            decreases b.num_rows - r,
        {
            let (start, end) = view.city_range(r);
            let continent = view.continent_at(r);
            let name = view.country_name_at(r);
            let ghost before = done + batch_rows(*b, r as nat);
            let mut k: usize = start;
            while k < end
                invariant
                    view.reads(*b),
                    r < b.num_rows,
                    start == city_offsets(*b)[r as int],
                    end == city_offsets(*b)[r + 1],
                    start <= k <= end,
                    end <= city_values(*b).len(),
                    *continent == continents(*b)[r as int],
                    *name == country_names(*b)[r as int],
                    columns_hold(
                        out_c@,
                        out_n@,
                        out_y@,
                        before + fan_out(*b, r as int).take(k - start),
                    ),
                decreases end - k,
            {
                let city = view.city_at(k);
                proof {
                    let fo = fan_out(*b, r as int);
                    assert(fo.len() == end - start);
                    assert(fo[k - start] == (continent@, name@, city@));
                    assert(fo.take(k + 1 - start) =~= fo.take(k - start).push(fo[k - start]));
                    assert(before + fo.take(k + 1 - start) =~= (before + fo.take(k - start)).push(
                        (continent@, name@, city@),
                    ));
                }
                out_c.push(continent.clone());
                out_n.push(name.clone());
                out_y.push(city.clone());
                k = k + 1;
            }
            proof {
                let fo = fan_out(*b, r as int);
                assert(fo.take(end - start) =~= fo);
                assert(batch_rows(*b, (r + 1) as nat) == batch_rows(*b, r as nat) + fo);
                assert(done + batch_rows(*b, (r + 1) as nat) =~= before + fo);
            }
            r = r + 1;
        }
        proof {
            let s = batches@.take(bi + 1);
            assert(s.drop_last() =~= batches@.take(bi as int));
            assert(s.last() == *b);
        }
        bi = bi + 1;
    }
    proof {
        assert(batches@.take(batches@.len() as int) =~= batches@);
    }
    let ghost rows = flat_rows(batches@);
    let n = out_c.len();
    let mut columns: Vec<Column> = Vec::new();
    columns.push(text_column("continent", out_c, Ghost(rows.map_values(|t: FlatRow| t.0))));
    columns.push(text_column("country_name", out_n, Ghost(rows.map_values(|t: FlatRow| t.1))));
    columns.push(text_column("city", out_y, Ghost(rows.map_values(|t: FlatRow| t.2))));
    Ok(Batch { columns, num_rows: n })
}

/// A sound record yields one flat row per city, all with the record's
/// continent and country name, cities in list order.
pub proof fn lemma_fan_out_identity(b: Batch)
    requires
        shape_error(b) is None,
        b.num_rows == 1,
    ensures
        flat_rows(seq![b]).len() == cities_at(b, 0).len(),
        forall|k: int|
            0 <= k < cities_at(b, 0).len() ==> #[trigger] flat_rows(seq![b])[k] == (
                continents(b)[0]@,
                country_names(b)[0]@,
                cities_at(b, 0)[k],
            ),
{
    assert(seq![b].drop_last() =~= Seq::<Batch>::empty());
    assert(seq![b].last() == b);
    assert(flat_rows(Seq::<Batch>::empty()) == Seq::<FlatRow>::empty());
    assert(batch_rows(b, 0) == Seq::<FlatRow>::empty());
    assert(batch_rows(b, 1) == batch_rows(b, 0) + fan_out(b, 0));
    assert(flat_rows(seq![b]) =~= batch_rows(b, 1));
    assert(batch_rows(b, 1) =~= fan_out(b, 0));
}

/// A row with no cities adds no flat rows.
pub proof fn lemma_zero_fan_out(b: Batch, r: int)
    requires
        shape_error(b) is None,
        0 <= r < b.num_rows,
        cities_at(b, r).len() == 0,
    ensures
        batch_rows(b, (r + 1) as nat) == batch_rows(b, r as nat),
{
    assert(batch_rows(b, (r + 1) as nat) =~= batch_rows(b, r as nat));
}

/// The flat rows of consecutive batches are those of each, in order.
pub proof fn lemma_batches_in_order(s1: Seq<Batch>, s2: Seq<Batch>)
    ensures
        flat_rows(s1 + s2) == flat_rows(s1) + flat_rows(s2),
    decreases s2.len(),
{
    if s2.len() == 0 {
        assert(s1 + s2 =~= s1);
        assert(flat_rows(s1) + flat_rows(s2) =~= flat_rows(s1));
    } else {
        lemma_batches_in_order(s1, s2.drop_last());
        assert((s1 + s2).drop_last() =~= s1 + s2.drop_last());
        assert((s1 + s2).last() == s2.last());
        assert(flat_rows(s1 + s2) =~= flat_rows(s1) + flat_rows(s2));
    }
}

/// Within a batch, the flat rows of row `r` come right before those of row
/// `r + 1`.
pub proof fn lemma_rows_in_order(b: Batch, r: int)
    requires
        0 <= r,
        r + 1 < b.num_rows,
    ensures
        batch_rows(b, (r + 2) as nat) == batch_rows(b, r as nat) + fan_out(b, r) + fan_out(b, r + 1),
{
    assert(batch_rows(b, (r + 2) as nat) == batch_rows(b, (r + 1) as nat) + fan_out(b, r + 1));
    assert(batch_rows(b, (r + 1) as nat) == batch_rows(b, r as nat) + fan_out(b, r));
}

proof fn lemma_batch_rows_prefix(b: Batch, m: nat, n: nat)
    requires
        m <= n,
    ensures
        batch_rows(b, m).len() <= batch_rows(b, n).len(),
        batch_rows(b, n).subrange(0, batch_rows(b, m).len() as int) == batch_rows(b, m),
    decreases n,
{
    if m < n {
        lemma_batch_rows_prefix(b, m, (n - 1) as nat);
        let prev = batch_rows(b, (n - 1) as nat);
        assert(batch_rows(b, n) == prev + fan_out(b, n - 1));
        assert(batch_rows(b, n).subrange(0, batch_rows(b, m).len() as int) =~= prev.subrange(
            0,
            batch_rows(b, m).len() as int,
        ));
    } else {
        assert(batch_rows(b, n).subrange(0, batch_rows(b, m).len() as int) =~= batch_rows(b, m));
    }
}

/// Where the flat rows of row `r` of batch `i` begin among those of `bs`.
pub open spec fn record_start(bs: Seq<Batch>, i: int, r: int) -> int {
    (flat_rows(bs.take(i)).len() + batch_rows(bs[i], r as nat).len()) as int
}

/// Among the flat rows of any sequence of batches, a sound record yields one
/// contiguous run of rows: one per city, each with the record's continent and
/// country name, cities in list order.
pub proof fn lemma_record_fan_out(bs: Seq<Batch>, i: int, r: int)
    requires
        0 <= i < bs.len(),
        0 <= r < bs[i].num_rows,
        shape_error(bs[i]) is None,
    ensures
        record_start(bs, i, r) + cities_at(bs[i], r).len() <= flat_rows(bs).len(),
        forall|k: int|
            0 <= k < cities_at(bs[i], r).len() ==> flat_rows(bs)[record_start(bs, i, r) + k] == (
                continents(bs[i])[r]@,
                country_names(bs[i])[r]@,
                #[trigger] cities_at(bs[i], r)[k],
            ),
{
    let b = bs[i];
    let n = b.num_rows as nat;
    let pre = flat_rows(bs.take(i));
    let fo = fan_out(b, r);
    assert(bs =~= bs.take(i + 1) + bs.skip(i + 1));
    lemma_batches_in_order(bs.take(i + 1), bs.skip(i + 1));
    assert(bs.take(i + 1).drop_last() =~= bs.take(i));
    assert(bs.take(i + 1).last() == b);
    assert(flat_rows(bs.take(i + 1)) == pre + batch_rows(b, n));
    lemma_batch_rows_prefix(b, (r + 1) as nat, n);
    assert(batch_rows(b, (r + 1) as nat) == batch_rows(b, r as nat) + fo);
    let start = record_start(bs, i, r);
    assert(fo.len() == cities_at(b, r).len());
    assert forall|k: int| 0 <= k < cities_at(b, r).len() implies flat_rows(bs)[start + k] == (
        continents(b)[r]@,
        country_names(b)[r]@,
        #[trigger] cities_at(b, r)[k],
    ) by {
        let j = batch_rows(b, r as nat).len() + k;
        assert(batch_rows(b, (r + 1) as nat)[j] == fo[k]);
        assert(batch_rows(b, n)[j] == batch_rows(b, n).subrange(
            0,
            batch_rows(b, (r + 1) as nat).len() as int,
        )[j]);
        assert(flat_rows(bs.take(i + 1))[start + k] == batch_rows(b, n)[j]);
        assert(flat_rows(bs)[start + k] == flat_rows(bs.take(i + 1))[start + k]);
    }
}

} // verus!
