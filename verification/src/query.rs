//! Results of ad hoc queries: every fetched cell becomes one JSON value,
//! chosen by the type that the database reports for its column.

use vstd::prelude::*;
use crate::text::hex_encode;

verus! {

/// The type that the database reports for a column.
#[derive(Clone, Copy, Debug, PartialEq, Eq, Structural)]
pub enum ColumnKind {
    Null,
    Bool,
    SmallInt,
    Integer,
    BigInt,
    Real,
    Double,
    Text,
    Blob,
}

/// One fetched cell: the name and reported type of its column, and what the
/// cell gives when it is read as each of the types a value can have. A
/// reading that the database refuses is `None`.
#[derive(Clone, Debug, PartialEq, Eq)]
pub struct Cell {
    pub name: String,
    pub kind: ColumnKind,
    pub as_bool: Option<bool>,
    pub as_text: Option<String>,
    pub as_int: Option<i64>,
    /// The bits of the cell read as a 64-bit float.
    pub as_real: Option<u64>,
    pub as_blob: Option<Vec<u8>>,
}

/// What a cell holds.
pub struct CellView {
    pub name: Seq<char>,
    pub kind: ColumnKind,
    pub as_bool: Option<bool>,
    pub as_text: Option<Seq<char>>,
    pub as_int: Option<i64>,
    pub as_real: Option<u64>,
    pub as_blob: Option<Seq<u8>>,
}

impl View for Cell {
    type V = CellView;

    open spec fn view(&self) -> CellView {
        CellView {
            name: self.name@,
            kind: self.kind,
            as_bool: self.as_bool,
            as_text: match self.as_text {
                Some(text) => Some(text@),
                None => None,
            },
            as_int: self.as_int,
            as_real: self.as_real,
            as_blob: match self.as_blob {
                Some(bytes) => Some(bytes@),
                None => None,
            },
        }
    }
}

/// A JSON value of a query result.
#[derive(Clone, Debug, PartialEq, Eq)]
pub enum JsonValue {
    Null,
    Bool(bool),
    Int(i64),
    /// A number given by the bits of a 64-bit float.
    Real(u64),
    Text(String),
}

/// What a JSON value holds.
pub enum JsonView {
    Null,
    Bool(bool),
    Int(i64),
    Real(u64),
    Text(Seq<char>),
}

impl View for JsonValue {
    type V = JsonView;

    open spec fn view(&self) -> JsonView {
        match self {
            JsonValue::Null => JsonView::Null,
            JsonValue::Bool(b) => JsonView::Bool(*b),
            JsonValue::Int(n) => JsonView::Int(*n),
            JsonValue::Real(bits) => JsonView::Real(*bits),
            JsonValue::Text(text) => JsonView::Text(text@),
        }
    }
}

/// The JSON value of a cell. A column of a known type is read as that type,
/// a blob being rendered as lower-case hexadecimal text. A column whose type
/// is not known is read as a boolean, else as text, else as an integer, else
/// as a blob. A cell that cannot be read so is null.
pub open spec fn cell_value(cell: CellView) -> JsonView {
    match cell.kind {
        ColumnKind::Null => match cell.as_bool {
            Some(b) => JsonView::Bool(b),
            None => match cell.as_text {
                Some(text) => JsonView::Text(text),
                None => match cell.as_int {
                    Some(n) => JsonView::Int(n),
                    None => match cell.as_blob {
                        Some(bytes) => JsonView::Text(crate::text::hex_lower(bytes)),
                        None => JsonView::Null,
                    },
                },
            },
        },
        ColumnKind::Bool => match cell.as_bool {
            Some(b) => JsonView::Bool(b),
            None => JsonView::Null,
        },
        ColumnKind::SmallInt | ColumnKind::Integer | ColumnKind::BigInt => match cell.as_int {
            Some(n) => JsonView::Int(n),
            None => JsonView::Null,
        },
        ColumnKind::Real | ColumnKind::Double => match cell.as_real {
            Some(bits) => JsonView::Real(bits),
            None => JsonView::Null,
        },
        ColumnKind::Text => match cell.as_text {
            Some(text) => JsonView::Text(text),
            None => JsonView::Null,
        },
        ColumnKind::Blob => match cell.as_blob {
            Some(bytes) => JsonView::Text(crate::text::hex_lower(bytes)),
            None => JsonView::Null,
        },
    }
}

/// The text of a cell as a JSON value.
fn text_value(text: &Option<String>) -> (value: JsonValue)
    ensures
        value@ == match *text {
            Some(t) => JsonView::Text(t@),
            None => JsonView::Null,
        },
{
    match text {
        Some(t) => JsonValue::Text(t.clone()),
        None => JsonValue::Null,
    }
}

/// The bytes of a cell as a JSON value.
fn blob_value(blob: &Option<Vec<u8>>) -> (value: JsonValue)
    ensures
        value@ == match *blob {
            Some(bytes) => JsonView::Text(crate::text::hex_lower(bytes@)),
            None => JsonView::Null,
        },
{
    match blob {
        Some(bytes) => JsonValue::Text(hex_encode(bytes)),
        None => JsonValue::Null,
    }
}

/// Converts one fetched cell.
pub fn convert_cell(cell: &Cell) -> (value: JsonValue)
    ensures
        value@ == cell_value(cell@),
{
    match cell.kind {
        ColumnKind::Null => {
            if let Some(b) = cell.as_bool {
                JsonValue::Bool(b)
            } else if cell.as_text.is_some() {
                text_value(&cell.as_text)
            } else if let Some(n) = cell.as_int {
                JsonValue::Int(n)
            } else {
                blob_value(&cell.as_blob)
            }
        },
        ColumnKind::Bool => match cell.as_bool {
            Some(b) => JsonValue::Bool(b),
            None => JsonValue::Null,
        },
        ColumnKind::SmallInt | ColumnKind::Integer | ColumnKind::BigInt => match cell.as_int {
            Some(n) => JsonValue::Int(n),
            None => JsonValue::Null,
        },
        ColumnKind::Real | ColumnKind::Double => match cell.as_real {
            Some(bits) => JsonValue::Real(bits),
            None => JsonValue::Null,
        },
        ColumnKind::Text => text_value(&cell.as_text),
        ColumnKind::Blob => blob_value(&cell.as_blob),
    }
}

/// The result of a query: the column names, and the rows as JSON values.
#[derive(Clone, Debug, PartialEq, Eq)]
pub struct QueryResult {
    pub cols: Vec<String>,
    pub rows: Vec<Vec<JsonValue>>,
}

/// Whether `result` is the result of a query that fetched `rows`: the
/// columns are named after the cells of the first row, there is one row of
/// values for each fetched row, and each value is that of its cell. A query
/// that fetched nothing has neither columns nor rows.
pub open spec fn is_result_of(result: &QueryResult, rows: Seq<Vec<Cell>>) -> bool {
    &&& result.rows@.len() == rows.len()
    &&& forall|i: int|
        0 <= i < rows.len() ==> (#[trigger] result.rows@[i])@.len() == rows[i]@.len()
    &&& forall|i: int, j: int|
        0 <= i < rows.len() && 0 <= j < rows[i]@.len() ==> (#[trigger] result.rows@[i]@[j])@
            == cell_value(rows[i]@[j]@)
    &&& rows.len() == 0 ==> result.cols@.len() == 0
    &&& rows.len() > 0 ==> {
        &&& result.cols@.len() == rows[0]@.len()
        &&& forall|j: int|
            0 <= j < rows[0]@.len() ==> (#[trigger] result.cols@[j])@ == rows[0]@[j].name@
    }
}

/// Converts the cells of one fetched row.
pub fn convert_row(row: &Vec<Cell>) -> (values: Vec<JsonValue>)
    ensures
        values@.len() == row@.len(),
        forall|j: int| 0 <= j < row@.len() ==> (#[trigger] values@[j])@ == cell_value(row@[j]@),
{
    let mut values: Vec<JsonValue> = Vec::new();
    let mut j: usize = 0;
    while j < row.len()
        invariant
            j <= row.len(),
            values@.len() == j,
            forall|k: int| 0 <= k < j ==> (#[trigger] values@[k])@ == cell_value(row@[k]@),
        decreases row.len() - j,
    {
        values.push(convert_cell(&row[j]));
        j += 1;
    }
    values
}

/// The column names of a fetched row.
pub fn column_names(row: &Vec<Cell>) -> (names: Vec<String>)
    ensures
        names@.len() == row@.len(),
        forall|j: int| 0 <= j < row@.len() ==> (#[trigger] names@[j])@ == row@[j].name@,
{
    let mut names: Vec<String> = Vec::new();
    let mut j: usize = 0;
    while j < row.len()
        invariant
            j <= row.len(),
            names@.len() == j,
            forall|k: int| 0 <= k < j ==> (#[trigger] names@[k])@ == row@[k].name@,
        decreases row.len() - j,
    {
        names.push(row[j].name.clone());
        j += 1;
    }
    names
}

impl QueryResult {
    /// Builds the result of a query from the rows it fetched.
    pub fn from_rows(rows: &Vec<Vec<Cell>>) -> (result: QueryResult)
        ensures
            is_result_of(&result, rows@),
    {
        if rows.len() == 0 {
            return QueryResult { cols: Vec::new(), rows: Vec::new() };
        }
        let cols = column_names(&rows[0]);
        let mut converted: Vec<Vec<JsonValue>> = Vec::new();
        let mut i: usize = 0;
        while i < rows.len()
            invariant
                i <= rows.len(),
                converted@.len() == i,
                forall|k: int| 0 <= k < i ==> (#[trigger] converted@[k])@.len() == rows@[k]@.len(),
                forall|k: int, j: int|
                    0 <= k < i && 0 <= j < rows@[k]@.len() ==> (#[trigger] converted@[k]@[j])@
                        == cell_value(rows@[k]@[j]@),
            decreases rows.len() - i,
        {
            converted.push(convert_row(&rows[i]));
            i += 1;
        }
        QueryResult { cols, rows: converted }
    }
}

} // verus!
