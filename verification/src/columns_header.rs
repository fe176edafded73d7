//! The column header that opens a `RowBinaryWithNamesAndTypes` response: the
//! number of columns, then every column's name, then every column's type,
//! each name and type a length-prefixed byte string. Counts and lengths are
//! unsigned LEB128 integers.
//!
//! The header has no fixed length and may arrive in pieces. Reading a prefix
//! of a response never gives another answer than reading more of it would; it
//! can only be too short to give one.
//!
//! A header declares at least one column: one that declares none is
//! malformed. Names and types are kept as the bytes that the server sent; what
//! a type's text means is left to whoever decodes the rows.

use crate::leb128::{leb128, lemma_leb128_bounds, lemma_leb128_prefix, read_leb128, Leb128};
use vstd::prelude::*;
use vstd::slice::{slice_subrange, slice_to_vec};

verus! {

/// Why a header cannot be accepted.
#[derive(Clone, Copy, Debug, PartialEq, Eq, Structural)]
pub enum HeaderError {
    /// A count or a length in the header does not fit 64 bits.
    Overflow,
    /// The header declares no column at all.
    EmptyColumns,
    /// The header declares `actual` columns, the row type has `expected` fields.
    ColumnCount { expected: usize, actual: usize },
    /// The column at `index` has a name that no field of the row type has.
    UnknownColumn { index: usize },
    /// The column at `index` has the name of an earlier column.
    DuplicateColumn { index: usize },
}

/// A column as the server declares it: its name and the text of its type.
#[derive(Clone, Debug, PartialEq, Eq)]
pub struct Column {
    pub name: Vec<u8>,
    pub data_type: Vec<u8>,
}

/// A declared column as a value.
pub struct ColumnView {
    pub name: Seq<u8>,
    pub data_type: Seq<u8>,
}

impl View for Column {
    type V = ColumnView;

    open spec fn view(&self) -> ColumnView {
        ColumnView { name: self.name@, data_type: self.data_type@ }
    }
}

/// The columns of a sequence of declared columns, as values.
pub open spec fn columns_view(columns: Seq<Column>) -> Seq<ColumnView> {
    Seq::new(columns.len(), |i: int| columns[i]@)
}

/// The outcome of reading a header from the front of a byte slice.
#[derive(Debug, PartialEq, Eq)]
pub enum HeaderParse {
    /// The whole header is there: its columns in order, and its length in bytes.
    Complete { columns: Vec<Column>, len: usize },
    /// The bytes end inside the header.
    Incomplete,
    /// The bytes cannot begin a header.
    Malformed(HeaderError),
}

/// The outcome of reading a header, as a value.
pub enum HeaderView {
    Complete { columns: Seq<ColumnView>, len: nat },
    Incomplete,
    Malformed(HeaderError),
}

impl View for HeaderParse {
    type V = HeaderView;

    open spec fn view(&self) -> HeaderView {
        match *self {
            HeaderParse::Complete { columns, len } => HeaderView::Complete {
                columns: columns_view(columns@),
                len: len as nat,
            },
            HeaderParse::Incomplete => HeaderView::Incomplete,
            HeaderParse::Malformed(e) => HeaderView::Malformed(e),
        }
    }
}

/// A length-prefixed byte string at a position: where its bytes begin and end.
pub enum Text {
    Value { start: int, end: int },
    Incomplete,
    Overflow,
}

/// The byte string that starts, with its length, at `pos`.
pub open spec fn text_at(bytes: Seq<u8>, pos: int) -> Text {
    match leb128(bytes, pos) {
        Leb128::Value { value, len } => if pos + len + value <= bytes.len() {
            Text::Value { start: pos + len, end: pos + len + value }
        } else {
            Text::Incomplete
        },
        Leb128::Incomplete => Text::Incomplete,
        Leb128::Overflow => Text::Overflow,
    }
}

/// Several byte strings in a row: what they hold, and where the last one ends.
pub enum Texts {
    Value { texts: Seq<Seq<u8>>, end: int },
    Incomplete,
    Overflow,
}

/// The `count` byte strings that follow one another from `pos` on, behind
/// those already read into `acc`.
pub open spec fn texts_at(bytes: Seq<u8>, pos: int, count: nat, acc: Seq<Seq<u8>>) -> Texts
    decreases count,
{
    if count == 0 {
        Texts::Value { texts: acc, end: pos }
    } else {
        match text_at(bytes, pos) {
            Text::Value { start, end } => texts_at(
                bytes,
                end,
                (count - 1) as nat,
                acc.push(bytes.subrange(start, end)),
            ),
            Text::Incomplete => Texts::Incomplete,
            Text::Overflow => Texts::Overflow,
        }
    }
}

/// The columns that `names` and `types` declare, pair by pair.
pub open spec fn zip_columns(names: Seq<Seq<u8>>, types: Seq<Seq<u8>>) -> Seq<ColumnView> {
    Seq::new(names.len(), |i: int| ColumnView { name: names[i], data_type: types[i] })
}

/// The header at the front of `bytes`.
pub open spec fn columns_header(bytes: Seq<u8>) -> HeaderView {
    match leb128(bytes, 0) {
        Leb128::Incomplete => HeaderView::Incomplete,
        Leb128::Overflow => HeaderView::Malformed(HeaderError::Overflow),
        Leb128::Value { value, len } => if value == 0 {
            HeaderView::Malformed(HeaderError::EmptyColumns)
        } else {
            match texts_at(bytes, len as int, value as nat, Seq::empty()) {
                Texts::Incomplete => HeaderView::Incomplete,
                Texts::Overflow => HeaderView::Malformed(HeaderError::Overflow),
                Texts::Value { texts: names, end } => match texts_at(
                    bytes,
                    end,
                    value as nat,
                    Seq::empty(),
                ) {
                    Texts::Incomplete => HeaderView::Incomplete,
                    Texts::Overflow => HeaderView::Malformed(HeaderError::Overflow),
                    Texts::Value { texts: types, end: last } => HeaderView::Complete {
                        columns: zip_columns(names, types),
                        len: last as nat,
                    },
                },
            }
        }
    }
}

/// A byte string that is there lies inside the sequence, behind `pos`.
pub proof fn lemma_text_bounds(bytes: Seq<u8>, pos: int)
    requires
        0 <= pos,
    ensures
        text_at(bytes, pos) matches Text::Value { start, end } ==> pos < start <= end
            <= bytes.len(),
{
    lemma_leb128_bounds(bytes, pos, 0, 0);
}

/// Byte strings that are there lie inside the sequence; each takes at least
/// one byte, and `acc` grows by one entry for each.
pub proof fn lemma_texts_bounds(bytes: Seq<u8>, pos: int, count: nat, acc: Seq<Seq<u8>>)
    requires
        0 <= pos <= bytes.len(),
    ensures
        texts_at(bytes, pos, count, acc) matches Texts::Value { texts, end } ==> pos + count
            <= end <= bytes.len() && texts.len() == acc.len() + count,
    decreases count,
{
    if count > 0 {
        lemma_text_bounds(bytes, pos);
        if let Text::Value { start, end } = text_at(bytes, pos) {
            lemma_texts_bounds(bytes, end, (count - 1) as nat, acc.push(bytes.subrange(start, end)));
        }
    }
}

/// A header that is there declares at least one column and lies inside the
/// sequence.
pub proof fn lemma_header_bounds(bytes: Seq<u8>)
    ensures
        columns_header(bytes) matches HeaderView::Complete { columns, len } ==> 0 < columns.len()
            && 0 < len <= bytes.len(),
{
    lemma_leb128_bounds(bytes, 0, 0, 0);
    if let Leb128::Value { value, len } = leb128(bytes, 0) {
        lemma_texts_bounds(bytes, len as int, value as nat, Seq::empty());
        if let Texts::Value { texts, end } = texts_at(bytes, len as int, value as nat, Seq::empty()) {
            lemma_texts_bounds(bytes, end, value as nat, Seq::empty());
        }
    }
}

proof fn lemma_text_prefix(bytes: Seq<u8>, n: int, pos: int)
    requires
        0 <= pos,
        0 <= n <= bytes.len(),
    ensures
        !(text_at(bytes.take(n), pos) is Incomplete) ==> text_at(bytes.take(n), pos) == text_at(
            bytes,
            pos,
        ),
        text_at(bytes, pos) matches Text::Value { end, .. } ==> (end <= n ==> text_at(
            bytes.take(n),
            pos,
        ) == text_at(bytes, pos)),
{
    lemma_leb128_prefix(bytes, n, pos, 0, 0);
    lemma_leb128_bounds(bytes, pos, 0, 0);
    lemma_leb128_bounds(bytes.take(n), pos, 0, 0);
}

proof fn lemma_texts_prefix(bytes: Seq<u8>, n: int, pos: int, count: nat, acc: Seq<Seq<u8>>)
    requires
        0 <= pos <= bytes.len(),
        0 <= n <= bytes.len(),
    ensures
        !(texts_at(bytes.take(n), pos, count, acc) is Incomplete) ==> texts_at(
            bytes.take(n),
            pos,
            count,
            acc,
        ) == texts_at(bytes, pos, count, acc),
        texts_at(bytes, pos, count, acc) matches Texts::Value { end, .. } ==> (end <= n
            ==> texts_at(bytes.take(n), pos, count, acc) == texts_at(bytes, pos, count, acc)),
    decreases count,
{
    let short = bytes.take(n);
    if count > 0 {
        lemma_text_prefix(bytes, n, pos);
        lemma_text_bounds(bytes, pos);
        lemma_text_bounds(short, pos);
        if let Text::Value { start, end } = text_at(bytes, pos) {
            let grown = acc.push(bytes.subrange(start, end));
            lemma_texts_prefix(bytes, n, end, (count - 1) as nat, grown);
            lemma_texts_bounds(bytes, end, (count - 1) as nat, grown);
            if text_at(short, pos) == text_at(bytes, pos) {
                assert(short.subrange(start, end) =~= bytes.subrange(start, end));
            }
        }
    }
}

/// Reading a prefix of a sequence gives the header that reading the whole
/// sequence gives, unless the prefix ends inside the header, and it ends
/// inside the header exactly if it is shorter than the header.
pub proof fn lemma_header_prefix(bytes: Seq<u8>, n: int)
    requires
        0 <= n <= bytes.len(),
    ensures
        !(columns_header(bytes.take(n)) is Incomplete) ==> columns_header(bytes.take(n))
            == columns_header(bytes),
        columns_header(bytes) matches HeaderView::Complete { len, .. } ==> (columns_header(
            bytes.take(n),
        ) is Incomplete <==> n < len),
{
    let short = bytes.take(n);
    lemma_leb128_prefix(bytes, n, 0, 0, 0);
    lemma_leb128_bounds(bytes, 0, 0, 0);
    lemma_leb128_bounds(short, 0, 0, 0);
    lemma_header_bounds(short);
    if let Leb128::Value { value, len } = leb128(bytes, 0) {
        let count = value as nat;
        lemma_texts_prefix(bytes, n, len as int, count, Seq::empty());
        lemma_texts_bounds(bytes, len as int, count, Seq::empty());
        if let Texts::Value { texts, end } = texts_at(bytes, len as int, count, Seq::empty()) {
            lemma_texts_prefix(bytes, n, end, count, Seq::empty());
            lemma_texts_bounds(bytes, end, count, Seq::empty());
        }
    }
}

/// What follows a header does not change how the header reads.
pub proof fn lemma_header_extend(bytes: Seq<u8>, more: Seq<u8>)
    ensures
        !(columns_header(bytes) is Incomplete) ==> columns_header(bytes + more) == columns_header(
            bytes,
        ),
{
    assert((bytes + more).take(bytes.len() as int) =~= bytes);
    lemma_header_prefix(bytes + more, bytes.len() as int);
}

/// Reads the byte string that starts, with its length, at `pos`, and gives
/// the positions at which its bytes begin and end.
fn read_text(bytes: &[u8], pos: usize) -> (r: Result<Option<(usize, usize)>, HeaderError>)
    ensures
        match text_at(bytes@, pos as int) {
            Text::Value { start, end } => r == Ok::<Option<(usize, usize)>, HeaderError>(
                Some((start as usize, end as usize)),
            ) && pos < start <= end <= bytes@.len(),
            Text::Incomplete => r == Ok::<Option<(usize, usize)>, HeaderError>(None),
            Text::Overflow => r == Err::<Option<(usize, usize)>, HeaderError>(
                HeaderError::Overflow,
            ),
        },
{
    let total = bytes.len();
    match read_leb128(bytes, pos) {
        Leb128::Value { value, len } => {
            let start = pos + len;
            let left = total - start;
            if value <= left as u64 {
                Ok(Some((start, start + value as usize)))
            } else {
                Ok(None)
            }
        },
        Leb128::Incomplete => Ok(None),
        Leb128::Overflow => Err(HeaderError::Overflow),
    }
}

/// Reads `count` byte strings from `pos` on and gives where each begins and
/// ends.
fn read_texts(bytes: &[u8], pos: usize, count: u64) -> (r: Result<
    Option<(Vec<(usize, usize)>, usize)>,
    HeaderError,
>)
    requires
        pos <= bytes@.len(),
    ensures
        match texts_at(bytes@, pos as int, count as nat, Seq::empty()) {
            Texts::Value { texts, end } => r matches Ok(Some((spans, last))) && last == end
                && pos <= last <= bytes@.len() && spans@.len() == count && texts.len() == count
                && forall|i: int|
                0 <= i < count ==> 0 <= (#[trigger] spans@[i]).0 <= spans@[i].1 <= bytes@.len()
                    && texts[i] == bytes@.subrange(spans@[i].0 as int, spans@[i].1 as int),
            Texts::Incomplete => r == Ok::<Option<(Vec<(usize, usize)>, usize)>, HeaderError>(
                None,
            ),
            Texts::Overflow => r == Err::<Option<(Vec<(usize, usize)>, usize)>, HeaderError>(
                HeaderError::Overflow,
            ),
        },
{
    let total = bytes.len();
    let mut spans: Vec<(usize, usize)> = Vec::new();
    let mut at: usize = pos;
    let mut done: u64 = 0;
    let ghost mut acc: Seq<Seq<u8>> = Seq::empty();
    while done < count
        invariant
            done <= count,
            bytes@.len() == total,
            at <= bytes@.len(),
            pos <= at,
            spans@.len() == done,
            acc.len() == done,
            texts_at(bytes@, at as int, (count - done) as nat, acc) == texts_at(
                bytes@,
                pos as int,
                count as nat,
                Seq::empty(),
            ),
            forall|i: int|
                0 <= i < done ==> 0 <= (#[trigger] spans@[i]).0 <= spans@[i].1 <= bytes@.len()
                    && acc[i] == bytes@.subrange(spans@[i].0 as int, spans@[i].1 as int),
        decreases count - done,
    {
        match read_text(bytes, at) {
            Ok(Some((start, end))) => {
                proof {
                    acc = acc.push(bytes@.subrange(start as int, end as int));
                }
                spans.push((start, end));
                at = end;
                done = done + 1;
            },
            Ok(None) => {
                return Ok(None);
            },
            Err(e) => {
                return Err(e);
            },
        }
    }
    proof {
        lemma_texts_bounds(bytes@, pos as int, count as nat, Seq::empty());
    }
    Ok(Some((spans, at)))
}

/// Reads the column header at the front of `bytes`.
pub fn parse_columns_header(bytes: &[u8]) -> (r: HeaderParse)
    ensures
        r@ == columns_header(bytes@),
        r matches HeaderParse::Complete { columns, len } ==> 0 < columns@.len() && 0 < len
            <= bytes@.len(),
{
    proof {
        lemma_header_bounds(bytes@);
    }
    let (count, first) = match read_leb128(bytes, 0) {
        Leb128::Value { value, len } => (value, len),
        Leb128::Incomplete => {
            return HeaderParse::Incomplete;
        },
        Leb128::Overflow => {
            return HeaderParse::Malformed(HeaderError::Overflow);
        },
    };
    if count == 0 {
        return HeaderParse::Malformed(HeaderError::EmptyColumns);
    }
    let (names, middle) = match read_texts(bytes, first, count) {
        Ok(Some(found)) => found,
        Ok(None) => {
            return HeaderParse::Incomplete;
        },
        Err(e) => {
            return HeaderParse::Malformed(e);
        },
    };
    let (types, last) = match read_texts(bytes, middle, count) {
        Ok(Some(found)) => found,
        Ok(None) => {
            return HeaderParse::Incomplete;
        },
        Err(e) => {
            return HeaderParse::Malformed(e);
        },
    };
    let ghost name_texts = texts_at(bytes@, first as int, count as nat, Seq::empty())->Value_texts;
    let ghost type_texts = texts_at(bytes@, middle as int, count as nat, Seq::empty())->Value_texts;
    let mut columns: Vec<Column> = Vec::new();
    let mut i: usize = 0;
    while i < names.len()
        invariant
            i <= names@.len(),
            names@.len() == count,
            types@.len() == count,
            name_texts.len() == count,
            type_texts.len() == count,
            columns@.len() == i,
            forall|j: int|
                0 <= j < count ==> 0 <= (#[trigger] names@[j]).0 <= names@[j].1 <= bytes@.len()
                    && name_texts[j] == bytes@.subrange(names@[j].0 as int, names@[j].1 as int),
            forall|j: int|
                0 <= j < count ==> 0 <= (#[trigger] types@[j]).0 <= types@[j].1 <= bytes@.len()
                    && type_texts[j] == bytes@.subrange(types@[j].0 as int, types@[j].1 as int),
            forall|j: int|
                0 <= j < i ==> (#[trigger] columns@[j])@ == (ColumnView {
                    name: name_texts[j],
                    data_type: type_texts[j],
                }),
        decreases names@.len() - i,
    {
        let name = slice_to_vec(slice_subrange(bytes, names[i].0, names[i].1));
        let data_type = slice_to_vec(slice_subrange(bytes, types[i].0, types[i].1));
        columns.push(Column { name, data_type });
        i = i + 1;
    }
    assert(columns_view(columns@) =~= zip_columns(name_texts, type_texts));
    HeaderParse::Complete { columns, len: last }
}

} // verus!
