//! Errors of database queries and the checks that turn the optional values
//! read from SQLite into required ones.
use vstd::prelude::*;

verus! {

/// Why a query failed.
#[derive(Debug)]
pub enum QueryError {
    /// SQLite reported an error.
    Sqlite(rusqlite::Error),
    /// A column that must hold text held NULL or another type.
    MissingValue,
    /// A list of codes could not be written as JSON.
    Json,
    /// More rows than a count can hold.
    TooManyRows,
}

/// The error of a query as a `QueryError`; values pass through.
pub fn sql<T>(r: Result<T, rusqlite::Error>) -> (out: Result<T, QueryError>)
    ensures
        r is Ok <==> out is Ok,
        r matches Ok(v) ==> out == Ok::<T, QueryError>(v),
{
    match r {
        Ok(v) => Ok(v),
        Err(e) => Err(QueryError::Sqlite(e)),
    }
}

/// A value that must be present: its text, else `MissingValue`.
pub fn required(v: &Option<String>) -> (r: Result<String, QueryError>)
    ensures
        match v {
            Some(s) => r matches Ok(t) && t@ == s@,
            None => r matches Err(QueryError::MissingValue),
        },
{
    match v {
        Some(s) => Ok(s.clone()),
        None => Err(QueryError::MissingValue),
    }
}

/// A copy of an optional text.
pub fn clone_opt(v: &Option<String>) -> (r: Option<String>)
    ensures
        r.deep_view() == v.deep_view(),
{
    match v {
        Some(s) => Some(s.clone()),
        None => None,
    }
}

/// The text of a present value (`unwrap` on views).
pub open spec fn present(o: Option<Seq<char>>) -> Seq<char> {
    match o {
        Some(s) => s,
        None => Seq::empty(),
    }
}

/// The rows of a one-column query, every value required: `MissingValue`
/// exactly when some value is missing.
pub fn required_rows1(rows: &Vec<Option<String>>) -> (r: Result<Vec<String>, QueryError>)
    ensures
        (r is Ok) <==> (forall|i: int| 0 <= i < rows@.len() ==> (#[trigger] rows@[i]) is Some),
        r matches Err(e) ==> e is MissingValue,
        r matches Ok(v) ==> v.deep_view() == rows.deep_view().map_values(
            |o: Option<Seq<char>>| present(o),
        ),
{
    let ghost rv = rows.deep_view();
    let mut out: Vec<String> = Vec::new();
    let mut i: usize = 0;
    while i < rows.len()
        invariant
            rv == rows.deep_view(),
            i <= rows.len(),
            forall|k: int| 0 <= k < i ==> (#[trigger] rows@[k]) is Some,
            out.deep_view() == rv.take(i as int).map_values(|o: Option<Seq<char>>| present(o)),
        decreases rows.len() - i,
    {
        let v = match &rows[i] {
            Some(s) => s.clone(),
            None => {
                return Err(QueryError::MissingValue);
            },
        };
        let ghost before = out.deep_view();
        out.push(v);
        assert(out.deep_view() =~= before.push(v@));
        assert(rv[i as int] == rows@[i as int].deep_view());
        assert(rv.take(i + 1) =~= rv.take(i as int).push(rv[i as int]));
        assert(out.deep_view() =~= rv.take(i + 1).map_values(|o: Option<Seq<char>>| present(o)));
        i = i + 1;
    }
    assert(rv.take(rows.len() as int) =~= rv);
    Ok(out)
}

/// Whether every value of a two-column row is present.
pub open spec fn row2_present(row: (Option<String>, Option<String>)) -> bool {
    row.0 is Some && row.1 is Some
}

/// The rows of a two-column query, every value required: `MissingValue`
/// exactly when some value is missing.
pub fn required_rows2(rows: &Vec<(Option<String>, Option<String>)>) -> (r: Result<
    Vec<(String, String)>,
    QueryError,
>)
    ensures
        (r is Ok) <==> (forall|i: int| 0 <= i < rows@.len() ==> row2_present(#[trigger] rows@[i])),
        r matches Err(e) ==> e is MissingValue,
        r matches Ok(v) ==> v.deep_view() == rows.deep_view().map_values(
            |p: (Option<Seq<char>>, Option<Seq<char>>)| (present(p.0), present(p.1)),
        ),
{
    let ghost rv = rows.deep_view();
    let mut out: Vec<(String, String)> = Vec::new();
    let mut i: usize = 0;
    while i < rows.len()
        invariant
            rv == rows.deep_view(),
            i <= rows.len(),
            forall|k: int| 0 <= k < i ==> row2_present(#[trigger] rows@[k]),
            out.deep_view() == rv.take(i as int).map_values(
                |p: (Option<Seq<char>>, Option<Seq<char>>)| (present(p.0), present(p.1)),
            ),
        decreases rows.len() - i,
    {
        let a = match required(&rows[i].0) {
            Ok(a) => a,
            Err(e) => {
                return Err(e);
            },
        };
        let b = match required(&rows[i].1) {
            Ok(b) => b,
            Err(e) => {
                return Err(e);
            },
        };
        let ghost before = out.deep_view();
        out.push((a, b));
        assert(out.deep_view() =~= before.push((a@, b@)));
        assert(rv[i as int] == rows@[i as int].deep_view());
        assert(rv.take(i + 1) =~= rv.take(i as int).push(rv[i as int]));
        assert(out.deep_view() =~= rv.take(i + 1).map_values(
            |p: (Option<Seq<char>>, Option<Seq<char>>)| (present(p.0), present(p.1)),
        ));
        i = i + 1;
    }
    assert(rv.take(rows.len() as int) =~= rv);
    Ok(out)
}

/// Whether every value of a three-column row is present.
pub open spec fn row3_present(row: (Option<String>, Option<String>, Option<String>)) -> bool {
    row.0 is Some && row.1 is Some && row.2 is Some
}

/// The rows of a three-column query, every value required: `MissingValue`
/// exactly when some value is missing.
pub fn required_rows3(rows: &Vec<(Option<String>, Option<String>, Option<String>)>) -> (r: Result<
    Vec<(String, String, String)>,
    QueryError,
>)
    ensures
        (r is Ok) <==> (forall|i: int| 0 <= i < rows@.len() ==> row3_present(#[trigger] rows@[i])),
        r matches Err(e) ==> e is MissingValue,
        r matches Ok(v) ==> v.deep_view() == rows.deep_view().map_values(
            |p: (Option<Seq<char>>, Option<Seq<char>>, Option<Seq<char>>)|
                (present(p.0), present(p.1), present(p.2)),
        ),
{
    let ghost rv = rows.deep_view();
    let mut out: Vec<(String, String, String)> = Vec::new();
    let mut i: usize = 0;
    while i < rows.len()
        invariant
            rv == rows.deep_view(),
            i <= rows.len(),
            forall|k: int| 0 <= k < i ==> row3_present(#[trigger] rows@[k]),
            out.deep_view() == rv.take(i as int).map_values(
                |p: (Option<Seq<char>>, Option<Seq<char>>, Option<Seq<char>>)|
                    (present(p.0), present(p.1), present(p.2)),
            ),
        decreases rows.len() - i,
    {
        let a = match required(&rows[i].0) {
            Ok(a) => a,
            Err(e) => {
                return Err(e);
            },
        };
        let b = match required(&rows[i].1) {
            Ok(b) => b,
            Err(e) => {
                return Err(e);
            },
        };
        let c = match required(&rows[i].2) {
            Ok(c) => c,
            Err(e) => {
                return Err(e);
            },
        };
        let ghost before = out.deep_view();
        out.push((a, b, c));
        assert(out.deep_view() =~= before.push((a@, b@, c@)));
        assert(rv[i as int] == rows@[i as int].deep_view());
        assert(rv.take(i + 1) =~= rv.take(i as int).push(rv[i as int]));
        assert(out.deep_view() =~= rv.take(i + 1).map_values(
            |p: (Option<Seq<char>>, Option<Seq<char>>, Option<Seq<char>>)|
                (present(p.0), present(p.1), present(p.2)),
        ));
        i = i + 1;
    }
    assert(rv.take(rows.len() as int) =~= rv);
    Ok(out)
}

/// Whether every value of a four-column row is present.
pub open spec fn row4_present(row: (Option<String>, Option<String>, Option<String>, Option<String>)) -> bool {
    row.0 is Some && row.1 is Some && row.2 is Some && row.3 is Some
}

/// The rows of a four-column query, every value required: `MissingValue`
/// exactly when some value is missing.
pub fn required_rows4(rows: &Vec<(Option<String>, Option<String>, Option<String>, Option<String>)>) -> (r:
    Result<Vec<(String, String, String, String)>, QueryError>)
    ensures
        (r is Ok) <==> (forall|i: int| 0 <= i < rows@.len() ==> row4_present(#[trigger] rows@[i])),
        r matches Err(e) ==> e is MissingValue,
        r matches Ok(v) ==> v.deep_view() == rows.deep_view().map_values(
            |p: (Option<Seq<char>>, Option<Seq<char>>, Option<Seq<char>>, Option<Seq<char>>)|
                (present(p.0), present(p.1), present(p.2), present(p.3)),
        ),
{
    let ghost rv = rows.deep_view();
    let mut out: Vec<(String, String, String, String)> = Vec::new();
    let mut i: usize = 0;
    while i < rows.len()
        invariant
            rv == rows.deep_view(),
            i <= rows.len(),
            forall|k: int| 0 <= k < i ==> row4_present(#[trigger] rows@[k]),
            out.deep_view() == rv.take(i as int).map_values(
                |p: (Option<Seq<char>>, Option<Seq<char>>, Option<Seq<char>>, Option<Seq<char>>)|
                    (present(p.0), present(p.1), present(p.2), present(p.3)),
            ),
        decreases rows.len() - i,
    {
        let a = match required(&rows[i].0) {
            Ok(a) => a,
            Err(e) => {
                return Err(e);
            },
        };
        let b = match required(&rows[i].1) {
            Ok(b) => b,
            Err(e) => {
                return Err(e);
            },
        };
        let c = match required(&rows[i].2) {
            Ok(c) => c,
            Err(e) => {
                return Err(e);
            },
        };
        let d = match required(&rows[i].3) {
            Ok(d) => d,
            Err(e) => {
                return Err(e);
            },
        };
        let ghost before = out.deep_view();
        out.push((a, b, c, d));
        assert(out.deep_view() =~= before.push((a@, b@, c@, d@)));
        assert(rv[i as int] == rows@[i as int].deep_view());
        assert(rv.take(i + 1) =~= rv.take(i as int).push(rv[i as int]));
        assert(out.deep_view() =~= rv.take(i + 1).map_values(
            |p: (Option<Seq<char>>, Option<Seq<char>>, Option<Seq<char>>, Option<Seq<char>>)|
                (present(p.0), present(p.1), present(p.2), present(p.3)),
        ));
        i = i + 1;
    }
    assert(rv.take(rows.len() as int) =~= rv);
    Ok(out)
}

} // verus!
