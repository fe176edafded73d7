//! The columns of a result, checked against the fields of the row type that
//! is to hold its rows.
//!
//! A header is accepted for a row type only if it declares exactly one column
//! for each field: as many columns as fields, every column under the name of a
//! field, and no name twice. The columns may come in another order than the
//! fields; the metadata says of each column which field it fills.

use crate::columns_header::{columns_view, Column, ColumnView, HeaderError};
use vstd::prelude::*;

verus! {

/// The byte strings of a sequence of names.
pub open spec fn names_view(names: Seq<Vec<u8>>) -> Seq<Seq<u8>> {
    Seq::new(names.len(), |i: int| names[i]@)
}

/// The first index from `from` on at which `fields` holds `name`.
pub open spec fn field_index_from(fields: Seq<Seq<u8>>, name: Seq<u8>, from: int) -> Option<int>
    decreases fields.len() - from,
{
    if from >= fields.len() {
        None
    } else if fields[from] == name {
        Some(from)
    } else {
        field_index_from(fields, name, from + 1)
    }
}

/// The first index at which `fields` holds `name`.
pub open spec fn field_index(fields: Seq<Seq<u8>>, name: Seq<u8>) -> Option<int> {
    field_index_from(fields, name, 0)
}

/// An earlier column has the name of the column at `i`.
pub open spec fn seen_before(columns: Seq<ColumnView>, i: int) -> bool {
    exists|j: int| 0 <= j < i && #[trigger] columns[j].name == columns[i].name
}

/// What is wrong with the column at `i`, if anything.
pub open spec fn column_error(columns: Seq<ColumnView>, fields: Seq<Seq<u8>>, i: int) -> Option<
    HeaderError,
> {
    if field_index(fields, columns[i].name) is None {
        Some(HeaderError::UnknownColumn { index: i as usize })
    } else if seen_before(columns, i) {
        Some(HeaderError::DuplicateColumn { index: i as usize })
    } else {
        None
    }
}

/// What is wrong with the first column from `from` on that is not in order.
pub open spec fn first_column_error(
    columns: Seq<ColumnView>,
    fields: Seq<Seq<u8>>,
    from: int,
) -> Option<HeaderError>
    decreases columns.len() - from,
{
    if from >= columns.len() {
        None
    } else {
        match column_error(columns, fields, from) {
            Some(e) => Some(e),
            None => first_column_error(columns, fields, from + 1),
        }
    }
}

/// For each column, the index of the field of that name.
pub open spec fn field_mapping(columns: Seq<ColumnView>, fields: Seq<Seq<u8>>) -> Seq<int> {
    Seq::new(columns.len(), |i: int| field_index(fields, columns[i].name).unwrap())
}

/// Accepted metadata as a value.
pub struct RowMetadataView {
    pub columns: Seq<ColumnView>,
    pub mapping: Seq<int>,
}

/// The metadata of `columns` for a row type with `fields`, or why the columns
/// do not fit the row type.
pub open spec fn validate(columns: Seq<ColumnView>, fields: Seq<Seq<u8>>) -> Result<
    RowMetadataView,
    HeaderError,
> {
    if columns.len() == 0 {
        Err(HeaderError::EmptyColumns)
    } else if columns.len() != fields.len() {
        Err(
            HeaderError::ColumnCount {
                expected: fields.len() as usize,
                actual: columns.len() as usize,
            },
        )
    } else {
        match first_column_error(columns, fields, 0) {
            Some(e) => Err(e),
            None => Ok(RowMetadataView { columns, mapping: field_mapping(columns, fields) }),
        }
    }
}

/// The columns fit the row type: one column for each field, under its name.
pub open spec fn compatible(columns: Seq<ColumnView>, fields: Seq<Seq<u8>>) -> bool {
    &&& columns.len() > 0
    &&& columns.len() == fields.len()
    &&& forall|i: int| 0 <= i < columns.len() ==> fields.contains(#[trigger] columns[i].name)
    &&& forall|i: int, j: int|
        0 <= i < j < columns.len() ==> #[trigger] columns[i].name != #[trigger] columns[j].name
}

/// An index that `field_index_from` finds holds the name, and none before it
/// does.
pub proof fn lemma_field_index(fields: Seq<Seq<u8>>, name: Seq<u8>, from: int)
    requires
        0 <= from,
    ensures
        match field_index_from(fields, name, from) {
            Some(i) => from <= i < fields.len() && fields[i] == name && forall|k: int|
                from <= k < i ==> fields[k] != name,
            None => forall|k: int| from <= k < fields.len() ==> fields[k] != name,
        },
    decreases fields.len() - from,
{
    if from < fields.len() && fields[from] != name {
        lemma_field_index(fields, name, from + 1);
    }
}

proof fn lemma_first_column_error(columns: Seq<ColumnView>, fields: Seq<Seq<u8>>, from: int)
    requires
        0 <= from,
    ensures
        first_column_error(columns, fields, from) is None <==> forall|i: int|
            from <= i < columns.len() ==> column_error(columns, fields, i) is None,
    decreases columns.len() - from,
{
    if from < columns.len() {
        lemma_first_column_error(columns, fields, from + 1);
        if column_error(columns, fields, from) is None && first_column_error(
            columns,
            fields,
            from + 1,
        ) is None {
            assert forall|i: int| from <= i < columns.len() implies column_error(
                columns,
                fields,
                i,
            ) is None by {
                if i > from {
                }
            }
        }
    }
}

/// Columns are accepted exactly if they fit the row type. A header that
/// declares too few or too many columns, a column that the row type does not
/// have, or one column twice is refused.
pub proof fn lemma_validate_iff_compatible(columns: Seq<ColumnView>, fields: Seq<Seq<u8>>)
    ensures
        validate(columns, fields) is Ok <==> compatible(columns, fields),
{
    lemma_first_column_error(columns, fields, 0);
    if columns.len() > 0 && columns.len() == fields.len() {
        if first_column_error(columns, fields, 0) is None {
            assert forall|i: int| 0 <= i < columns.len() implies fields.contains(
                #[trigger] columns[i].name,
            ) by {
                assert(column_error(columns, fields, i) is None);
                lemma_field_index(fields, columns[i].name, 0);
            }
            assert forall|i: int, j: int| 0 <= i < j < columns.len() implies #[trigger] columns[i].name
                != #[trigger] columns[j].name by {
                assert(column_error(columns, fields, j) is None);
                assert(!seen_before(columns, j));
            }
        }
        if compatible(columns, fields) {
            assert forall|i: int| 0 <= i < columns.len() implies column_error(
                columns,
                fields,
                i,
            ) is None by {
                lemma_field_index(fields, columns[i].name, 0);
                assert(fields.contains(columns[i].name));
                let k = choose|k: int| 0 <= k < fields.len() && fields[k] == columns[i].name;
                assert(fields[k] == columns[i].name);
            }
        }
    }
}

/// In accepted metadata every column is mapped to a field of its own name,
/// and no two columns to the same field: no field is filled from the wrong
/// column, and none is filled twice.
pub proof fn lemma_validated_mapping(columns: Seq<ColumnView>, fields: Seq<Seq<u8>>)
    requires
        validate(columns, fields) is Ok,
    ensures
        ({
            let meta = validate(columns, fields)->Ok_0;
            &&& meta.columns == columns
            &&& meta.mapping.len() == columns.len()
            &&& forall|i: int|
                0 <= i < columns.len() ==> 0 <= #[trigger] meta.mapping[i] < fields.len()
                    && fields[meta.mapping[i]] == columns[i].name
            &&& forall|i: int, j: int|
                0 <= i < j < columns.len() ==> #[trigger] meta.mapping[i]
                    != #[trigger] meta.mapping[j]
        }),
{
    lemma_validate_iff_compatible(columns, fields);
    let meta = validate(columns, fields)->Ok_0;
    assert forall|i: int| 0 <= i < columns.len() implies 0 <= #[trigger] meta.mapping[i]
        < fields.len() && fields[meta.mapping[i]] == columns[i].name by {
        lemma_field_index(fields, columns[i].name, 0);
        assert(fields.contains(columns[i].name));
        let k = choose|k: int| 0 <= k < fields.len() && fields[k] == columns[i].name;
        assert(fields[k] == columns[i].name);
    }
}

/// The columns of a result and, for each, the field of the row type that it
/// fills.
#[derive(Debug, PartialEq, Eq)]
pub struct RowMetadata {
    columns: Vec<Column>,
    mapping: Vec<usize>,
}

impl View for RowMetadata {
    type V = RowMetadataView;

    closed spec fn view(&self) -> RowMetadataView {
        RowMetadataView {
            columns: columns_view(self.columns@),
            mapping: Seq::new(self.mapping@.len(), |i: int| self.mapping@[i] as int),
        }
    }
}

/// Whether two byte strings are the same.
pub fn same_bytes(a: &[u8], b: &[u8]) -> (same: bool)
    ensures
        same == (a@ == b@),
{
    if a.len() != b.len() {
        return false;
    }
    let mut i: usize = 0;
    while i < a.len()
        invariant
            i <= a@.len(),
            a@.len() == b@.len(),
            forall|k: int| 0 <= k < i ==> a@[k] == b@[k],
        decreases a@.len() - i,
    {
        if a[i] != b[i] {
            return false;
        }
        i = i + 1;
    }
    assert(a@ =~= b@);
    true
}

/// The first index at which `fields` holds `name`.
pub fn find_field(fields: &Vec<Vec<u8>>, name: &[u8]) -> (found: Option<usize>)
    ensures
        match field_index(names_view(fields@), name@) {
            Some(i) => found == Some(i as usize) && i < fields@.len(),
            None => found is None,
        },
{
    let mut i: usize = 0;
    proof {
        lemma_field_index(names_view(fields@), name@, 0);
    }
    while i < fields.len()
        invariant
            i <= fields@.len(),
            field_index_from(names_view(fields@), name@, i as int) == field_index(
                names_view(fields@),
                name@,
            ),
            field_index(names_view(fields@), name@) matches Some(k) ==> k < fields@.len(),
        decreases fields@.len() - i,
    {
        if same_bytes(fields[i].as_slice(), name) {
            return Some(i);
        }
        i = i + 1;
    }
    None
}

impl RowMetadata {
    /// Checks the declared columns against the fields of the row type.
    pub fn new_for_cursor(columns: Vec<Column>, fields: &Vec<Vec<u8>>) -> (r: Result<
        RowMetadata,
        HeaderError,
    >)
        ensures
            match validate(columns_view(columns@), names_view(fields@)) {
                Ok(meta) => r matches Ok(m) && m@ == meta,
                Err(e) => r matches Err(x) && x == e,
            },
            r is Ok <==> compatible(columns_view(columns@), names_view(fields@)),
    {
        let ghost cols = columns_view(columns@);
        let ghost names = names_view(fields@);
        proof {
            lemma_validate_iff_compatible(cols, names);
        }
        if columns.len() == 0 {
            return Err(HeaderError::EmptyColumns);
        }
        if columns.len() != fields.len() {
            return Err(
                HeaderError::ColumnCount { expected: fields.len(), actual: columns.len() },
            );
        }
        let mut used: Vec<bool> = Vec::new();
        let mut k: usize = 0;
        while k < fields.len()
            invariant
                k <= fields@.len(),
                used@.len() == k,
                forall|f: int| 0 <= f < k ==> !used@[f],
            decreases fields@.len() - k,
        {
            used.push(false);
            k = k + 1;
        }
        let mut mapping: Vec<usize> = Vec::new();
        let mut i: usize = 0;
        while i < columns.len()
            invariant
                i <= columns@.len(),
                0 < columns@.len() == fields@.len(),
                cols == columns_view(columns@),
                names == names_view(fields@),
                used@.len() == fields@.len(),
                mapping@.len() == i,
                first_column_error(cols, names, i as int) == first_column_error(cols, names, 0),
                forall|j: int|
                    0 <= j < i ==> field_index(names, cols[j].name) == Some(
                        #[trigger] mapping@[j] as int,
                    ) && mapping@[j] < fields@.len(),
                forall|f: int|
                    0 <= f < fields@.len() ==> (#[trigger] used@[f] <==> exists|j: int|
                        0 <= j < i && #[trigger] mapping@[j] == f),
            decreases columns@.len() - i,
        {
            let found = find_field(fields, columns[i].name.as_slice());
            proof {
                assert(cols[i as int].name == columns@[i as int].name@);
                lemma_field_index(names, cols[i as int].name, 0);
            }
            let index = match found {
                Some(index) => index,
                None => {
                    return Err(HeaderError::UnknownColumn { index: i });
                },
            };
            proof {
                if used@[index as int] {
                    let j = choose|j: int| 0 <= j < i && #[trigger] mapping@[j] == index;
                    lemma_field_index(names, cols[j].name, 0);
                    assert(cols[j].name == cols[i as int].name);
                }
                if seen_before(cols, i as int) {
                    let j = choose|j: int|
                        0 <= j < i && #[trigger] cols[j].name == cols[i as int].name;
                    assert(mapping@[j] == index);
                }
            }
            if used[index] {
                return Err(HeaderError::DuplicateColumn { index: i });
            }
            let ghost before = mapping@;
            let ghost used_before = used@;
            used.set(index, true);
            mapping.push(index);
            proof {
                assert forall|f: int| 0 <= f < fields@.len() implies (#[trigger] used@[f]
                    <==> exists|j: int| 0 <= j < i + 1 && #[trigger] mapping@[j] == f) by {
                    if f == index {
                        assert(mapping@[i as int] == f);
                    } else if used_before[f] {
                        let j = choose|j: int| 0 <= j < i && #[trigger] before[j] == f;
                        assert(mapping@[j] == f);
                    } else if exists|j: int| 0 <= j < i + 1 && #[trigger] mapping@[j] == f {
                        let j = choose|j: int| 0 <= j < i + 1 && #[trigger] mapping@[j] == f;
                        assert(before[j] == f);
                    }
                }
            }
            i = i + 1;
        }
        let meta = RowMetadata { columns, mapping };
        assert(meta@.mapping =~= field_mapping(cols, names));
        Ok(meta)
    }

    /// The columns, in the order in which the server declares them.
    pub fn columns(&self) -> (columns: &Vec<Column>)
        ensures
            columns_view(columns@) == self@.columns,
    {
        &self.columns
    }

    /// For each column, the index of the field that it fills.
    pub fn mapping(&self) -> (mapping: &Vec<usize>)
        ensures
            mapping@.len() == self@.mapping.len(),
            forall|i: int| 0 <= i < mapping@.len() ==> mapping@[i] == self@.mapping[i],
    {
        &self.mapping
    }
}

} // verus!
