use city_flatten::columnar::{Batch, Column, ColumnData};
use city_flatten::denormalize::{denormalize, NestedView};
use city_flatten::error::{CoreError, ShapeProblem};
use city_flatten::render::render_records;

fn text(name: &str, vals: &[&str]) -> Column {
    Column {
        name: name.to_string(),
        valid: vec![true; vals.len()],
        data: ColumnData::Utf8(vals.iter().map(|s| s.to_string()).collect()),
    }
}

fn list_of_text(name: &str, lists: &[&[&str]]) -> Column {
    let mut offsets = vec![0usize];
    let mut vals: Vec<&str> = Vec::new();
    for l in lists {
        vals.extend_from_slice(l);
        offsets.push(vals.len());
    }
    Column {
        name: name.to_string(),
        valid: vec![true; lists.len()],
        data: ColumnData::List(offsets, Box::new(text("item", &vals))),
    }
}

fn nested(records: &[(&str, &str, &[&str])]) -> Batch {
    let conts: Vec<&str> = records.iter().map(|r| r.0).collect();
    let names: Vec<&str> = records.iter().map(|r| r.1).collect();
    let lists: Vec<&[&str]> = records.iter().map(|r| r.2).collect();
    let country = Column {
        name: "country".to_string(),
        valid: vec![true; records.len()],
        data: ColumnData::Struct(vec![text("name", &names), list_of_text("city", &lists)]),
    };
    Batch { columns: vec![text("continent", &conts), country], num_rows: records.len() }
}

fn rows(out: &Batch) -> Vec<(String, String, String)> {
    let col = |i: usize| match &out.columns[i].data {
        ColumnData::Utf8(v) => v.clone(),
        _ => panic!("not a text column"),
    };
    let (c, n, y) = (col(0), col(1), col(2));
    assert_eq!(c.len(), out.num_rows);
    (0..out.num_rows).map(|k| (c[k].clone(), n[k].clone(), y[k].clone())).collect()
}

fn triple(a: &str, b: &str, c: &str) -> (String, String, String) {
    (a.to_string(), b.to_string(), c.to_string())
}

fn shape_err(r: Result<Batch, CoreError>) -> (String, ShapeProblem) {
    match r {
        Err(CoreError::SchemaMismatch { field, problem }) => (field, problem),
        other => panic!("expected a schema mismatch, got {:?}", other),
    }
}

#[test]
fn nepal_fans_out_to_two_rows() {
    let b = nested(&[("Asia", "Nepal", &["Kathmandu", "Pokhara"])]);
    let out = denormalize(&vec![b]).unwrap();
    assert_eq!(out.columns.len(), 3);
    assert_eq!(out.columns[0].name, "continent");
    assert_eq!(out.columns[1].name, "country_name");
    assert_eq!(out.columns[2].name, "city");
    assert_eq!(
        rows(&out),
        vec![triple("Asia", "Nepal", "Kathmandu"), triple("Asia", "Nepal", "Pokhara")]
    );
}

#[test]
fn empty_city_list_gives_no_rows() {
    let b = nested(&[("Antarctica", "\u{2014}", &[])]);
    let out = denormalize(&vec![b]).unwrap();
    assert_eq!(out.num_rows, 0);
    assert!(rows(&out).is_empty());
}

#[test]
fn fan_out_keeps_parent_and_city_order() {
    let b = nested(&[("Europe", "France", &["Paris", "Lyon", "Nice"])]);
    let out = denormalize(&vec![b]).unwrap();
    assert_eq!(
        rows(&out),
        vec![
            triple("Europe", "France", "Paris"),
            triple("Europe", "France", "Lyon"),
            triple("Europe", "France", "Nice"),
        ]
    );
}

fn asia() -> Batch {
    nested(&[("Asia", "Japan", &["Tokyo"]), ("Asia", "Laos", &[]), ("Asia", "India", &["Delhi", "Pune"])])
}

fn africa() -> Batch {
    nested(&[("Africa", "Kenya", &["Nairobi"])])
}

#[test]
fn batches_and_rows_keep_their_order() {
    let both = rows(&denormalize(&vec![asia(), africa()]).unwrap());
    let first = rows(&denormalize(&vec![asia()]).unwrap());
    let second = rows(&denormalize(&vec![africa()]).unwrap());
    let mut joined = first.clone();
    joined.extend(second);
    assert_eq!(both, joined);
    assert_eq!(
        first,
        vec![triple("Asia", "Japan", "Tokyo"), triple("Asia", "India", "Delhi"), triple("Asia", "India", "Pune")]
    );
}

#[test]
fn no_batches_and_empty_batch_give_empty_table() {
    assert_eq!(denormalize(&vec![]).unwrap().num_rows, 0);
    assert_eq!(denormalize(&vec![nested(&[])]).unwrap().num_rows, 0);
}

#[test]
fn output_cells_are_not_null() {
    let out = denormalize(&vec![nested(&[("Asia", "Nepal", &["Kathmandu"])])]).unwrap();
    for c in &out.columns {
        assert_eq!(c.valid, vec![true]);
    }
}

#[test]
fn missing_continent_is_reported() {
    let mut b = nested(&[("Asia", "Nepal", &["Kathmandu"])]);
    b.columns.remove(0);
    assert_eq!(shape_err(denormalize(&vec![b])), ("continent".to_string(), ShapeProblem::Missing));
}

#[test]
fn continent_of_wrong_kind_is_reported() {
    let mut b = nested(&[("Asia", "Nepal", &["Kathmandu"])]);
    b.columns[0].data = ColumnData::Int64(vec![1]);
    assert_eq!(shape_err(denormalize(&vec![b])), ("continent".to_string(), ShapeProblem::WrongKind));
}

#[test]
fn continent_of_wrong_length_is_reported() {
    let mut b = nested(&[("Asia", "Nepal", &["Kathmandu"])]);
    b.columns[0] = text("continent", &["Asia", "Asia"]);
    assert_eq!(shape_err(denormalize(&vec![b])), ("continent".to_string(), ShapeProblem::BadLength));
}

#[test]
fn missing_or_flat_country_is_reported() {
    let mut b = nested(&[("Asia", "Nepal", &["Kathmandu"])]);
    b.columns[1].name = "nation".to_string();
    assert_eq!(shape_err(denormalize(&vec![b])), ("country".to_string(), ShapeProblem::Missing));
    let mut b = nested(&[("Asia", "Nepal", &["Kathmandu"])]);
    b.columns[1] = text("country", &["Nepal"]);
    assert_eq!(shape_err(denormalize(&vec![b])), ("country".to_string(), ShapeProblem::WrongKind));
}

#[test]
fn bad_country_fields_are_reported() {
    let mut b = nested(&[("Asia", "Nepal", &["Kathmandu"])]);
    if let ColumnData::Struct(f) = &mut b.columns[1].data {
        f.remove(0);
    }
    assert_eq!(shape_err(denormalize(&vec![b])), ("country.name".to_string(), ShapeProblem::Missing));

    let mut b = nested(&[("Asia", "Nepal", &["Kathmandu"])]);
    if let ColumnData::Struct(f) = &mut b.columns[1].data {
        f.remove(1);
    }
    assert_eq!(shape_err(denormalize(&vec![b])), ("country.city".to_string(), ShapeProblem::Missing));

    let mut b = nested(&[("Asia", "Nepal", &["Kathmandu"])]);
    if let ColumnData::Struct(f) = &mut b.columns[1].data {
        f[1] = text("city", &["Kathmandu"]);
    }
    assert_eq!(shape_err(denormalize(&vec![b])), ("country.city".to_string(), ShapeProblem::WrongKind));

    let mut b = nested(&[("Asia", "Nepal", &["Kathmandu"])]);
    if let ColumnData::Struct(f) = &mut b.columns[1].data {
        f[1].data = ColumnData::List(vec![0, 1], Box::new(Column {
            name: "item".to_string(),
            valid: vec![true],
            data: ColumnData::Int32(vec![7]),
        }));
    }
    assert_eq!(shape_err(denormalize(&vec![b])), ("country.city".to_string(), ShapeProblem::WrongKind));

    let mut b = nested(&[("Asia", "Nepal", &["Kathmandu"])]);
    if let ColumnData::Struct(f) = &mut b.columns[1].data {
        f[1].data = ColumnData::List(vec![0, 5], Box::new(text("item", &["Kathmandu"])));
    }
    assert_eq!(shape_err(denormalize(&vec![b])), ("country.city".to_string(), ShapeProblem::BadLength));
}

#[test]
fn a_bad_later_batch_fails_the_whole_call() {
    let good = nested(&[("Asia", "Nepal", &["Kathmandu"])]);
    let mut bad = nested(&[("Asia", "Nepal", &["Kathmandu"])]);
    bad.columns.remove(1);
    assert_eq!(shape_err(denormalize(&vec![good, bad])), ("country".to_string(), ShapeProblem::Missing));
}

#[test]
fn nested_view_reads_rows() {
    let b = nested(&[("Asia", "Nepal", &["Kathmandu", "Pokhara"]), ("Europe", "Malta", &["Valletta"])]);
    let v = NestedView::try_new(&b).unwrap();
    assert_eq!(v.num_rows(), 2);
    assert_eq!(v.continent_at(1), "Europe");
    assert_eq!(v.country_name_at(0), "Nepal");
    let (s, e) = v.city_range(1);
    assert_eq!((s, e), (2, 3));
    assert_eq!(v.city_at(s), "Valletta");
}

#[test]
fn antarctica_renders_only_the_header() {
    let flat = denormalize(&vec![nested(&[("Antarctica", "\u{2014}", &[])])]).unwrap();
    let header = || vec!["continent".to_string(), "country_name".to_string(), "city".to_string()];
    let only_header = vec![vec!["continent", "country_name", "city"]];
    assert!(flat.is_well_formed());
    let (recs, outcome) = render_records(header(), &vec![flat]);
    assert!(outcome.is_ok());
    assert_eq!(recs, only_header);
    let (recs, outcome) = render_records(header(), &vec![]);
    assert!(outcome.is_ok());
    assert_eq!(recs, only_header);
}
