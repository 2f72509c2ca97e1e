//! The schema model: column, primary-key and index descriptors, their
//! parsers, and the CREATE TABLE rendering.

use vstd::prelude::*;

use crate::text::{
    split_seps, spec_parse_usize, dec_digits, lemma_split_seps_len, split_str, str_eq, parse_usize,
    dec_string,
};
use crate::naming::{column_name, gen_column_name};

verus! {

/// The closed set of column types.
#[derive(Clone, Copy, PartialEq, Eq, Structural, Debug)]
pub enum ColumnType {
    Int,
    Char,
    Varchar,
    Text,
    Datetime,
}

/// The configuration errors that descriptor parsing and schema assembly
/// can report.
#[derive(Clone, Copy, PartialEq, Eq, Structural, Debug)]
pub enum SchemaError {
    /// The type token of a column descriptor is not in the supported set.
    UnsupportedColumnType,
    /// The parenthesised length of a column descriptor is not a number.
    InvalidColumnLength,
    /// A column descriptor has a segment count other than 1 or 3, or its
    /// second segment is not the literal `default`.
    MalformedColumnDescriptor,
    /// A position segment of an index descriptor is not a number.
    InvalidIndexColumn,
    /// An index descriptor names no column positions.
    EmptyIndexDescriptor,
    /// A primary-key position is not a number.
    InvalidPrimaryKeyColumn,
    /// A primary-key or index position references no existing column.
    ColumnPositionOutOfRange,
}

/// One column: its type, its length (0 when the type has no length), and an
/// optional default value, kept verbatim.
#[derive(Debug)]
pub struct Column {
    pub tp: ColumnType,
    pub len: usize,
    pub default: Option<String>,
}

/// The mathematical value of a `Column`.
pub struct ColumnModel {
    pub tp: ColumnType,
    pub len: usize,
    pub default: Option<Seq<char>>,
}

impl View for Column {
    type V = ColumnModel;

    open spec fn view(&self) -> ColumnModel {
        ColumnModel {
            tp: self.tp,
            len: self.len,
            default: match self.default {
                Some(d) => Some(d@),
                None => None,
            },
        }
    }
}

impl DeepView for Column {
    type V = ColumnModel;

    open spec fn deep_view(&self) -> ColumnModel {
        self.view()
    }
}

/// One secondary index: the positions of its columns, in order, and
/// whether it is unique.
#[derive(Debug)]
pub struct Index {
    pub columns: Vec<usize>,
    pub unique: bool,
}

/// The mathematical value of an `Index`.
pub struct IndexModel {
    pub columns: Seq<usize>,
    pub unique: bool,
}

impl View for Index {
    type V = IndexModel;

    open spec fn view(&self) -> IndexModel {
        IndexModel { columns: self.columns@, unique: self.unique }
    }
}

impl DeepView for Index {
    type V = IndexModel;

    open spec fn deep_view(&self) -> IndexModel {
        self.view()
    }
}

/// Whether `t` is one of the supported type tokens.
pub open spec fn is_type_token(t: Seq<char>) -> bool {
    t == "int"@ || t == "char"@ || t == "varchar"@ || t == "text"@ || t == "datetime"@
}

/// The column type a supported token stands for.
pub open spec fn type_of_token(t: Seq<char>) -> ColumnType {
    if t == "int"@ {
        ColumnType::Int
    } else if t == "char"@ {
        ColumnType::Char
    } else if t == "varchar"@ {
        ColumnType::Varchar
    } else if t == "text"@ {
        ColumnType::Text
    } else {
        ColumnType::Datetime
    }
}

/// Whether a column type carries a length.
pub open spec fn type_has_length(t: ColumnType) -> bool {
    t == ColumnType::Int || t == ColumnType::Char || t == ColumnType::Varchar
}

/// What parsing a column descriptor yields: segments are split on `_`; the
/// first segment holds the type token and, in parentheses, the optional
/// length; with exactly three segments the second must be the literal
/// `default` and the third is the default value, kept verbatim.
pub open spec fn spec_parse_column(s: Seq<char>) -> Result<ColumnModel, SchemaError> {
    let segs = split_seps(s, '_', '_');
    let info = split_seps(segs[0], '(', ')');
    if !is_type_token(info[0]) {
        Err(SchemaError::UnsupportedColumnType)
    } else if info.len() >= 2 && spec_parse_usize(info[1]) is None {
        Err(SchemaError::InvalidColumnLength)
    } else if segs.len() != 1 && segs.len() != 3 {
        Err(SchemaError::MalformedColumnDescriptor)
    } else if segs.len() == 3 && segs[1] != "default"@ {
        Err(SchemaError::MalformedColumnDescriptor)
    } else {
        let tp = type_of_token(info[0]);
        Ok(
            ColumnModel {
                tp,
                len: if type_has_length(tp) && info.len() >= 2 {
                    spec_parse_usize(info[1])->Some_0
                } else {
                    0
                },
                default: if segs.len() == 3 {
                    Some(segs[2])
                } else {
                    None
                },
            },
        )
    }
}

impl Column {
    /// Parse a column descriptor such as `int(10)_default_5`, `varchar(32)`
    /// or `datetime`.
    pub fn parse(s: &str) -> (r: Result<Column, SchemaError>)
        ensures
            match r {
                Ok(c) => spec_parse_column(s@) == Ok::<ColumnModel, SchemaError>(c@),
                Err(e) => spec_parse_column(s@) == Err::<ColumnModel, SchemaError>(e),
            },
    {
        let segs = split_str(s, '_', '_');
        proof {
            lemma_split_seps_len(s@, '_', '_');
            assert(segs@[0]@ == split_seps(s@, '_', '_')[0]);
        }
        let info = split_str(segs[0].as_str(), '(', ')');
        proof {
            lemma_split_seps_len(segs@[0]@, '(', ')');
            assert(info@[0]@ == split_seps(segs@[0]@, '(', ')')[0]);
        }
        let t = info[0].as_str();
        let tp: ColumnType;
        if str_eq(t, "int") {
            tp = ColumnType::Int;
        } else if str_eq(t, "char") {
            tp = ColumnType::Char;
        } else if str_eq(t, "varchar") {
            tp = ColumnType::Varchar;
        } else if str_eq(t, "text") {
            tp = ColumnType::Text;
        } else if str_eq(t, "datetime") {
            tp = ColumnType::Datetime;
        } else {
            return Err(SchemaError::UnsupportedColumnType);
        }
        assert(tp == type_of_token(info@[0]@));
        let mut len: usize = 0;
        if info.len() >= 2 {
            proof {
                assert(info@[1]@ == split_seps(segs@[0]@, '(', ')')[1]);
            }
            match parse_usize(info[1].as_str()) {
                Some(v) => {
                    match tp {
                        ColumnType::Int | ColumnType::Char | ColumnType::Varchar => {
                            len = v;
                        },
                        _ => {},
                    }
                },
                None => {
                    return Err(SchemaError::InvalidColumnLength);
                },
            }
        }
        if segs.len() != 1 && segs.len() != 3 {
            return Err(SchemaError::MalformedColumnDescriptor);
        }
        let mut default: Option<String> = None;
        if segs.len() == 3 {
            proof {
                assert(segs@[1]@ == split_seps(s@, '_', '_')[1]);
                assert(segs@[2]@ == split_seps(s@, '_', '_')[2]);
            }
            if !str_eq(segs[1].as_str(), "default") {
                return Err(SchemaError::MalformedColumnDescriptor);
            }
            default = Some(segs[2].clone());
        }
        let c = Column { tp, len, default };
        assert(spec_parse_column(s@) == Ok::<ColumnModel, SchemaError>(c@));
        Ok(c)
    }
}

/// Whether every token of `ss` parses as an unsigned integer.
pub open spec fn all_numeric(ss: Seq<Seq<char>>) -> bool {
    forall|i: int| 0 <= i < ss.len() ==> spec_parse_usize(#[trigger] ss[i]) is Some
}

/// The positions that the tokens of `ss` spell, in order.
pub open spec fn positions_of(ss: Seq<Seq<char>>) -> Seq<usize> {
    Seq::new(ss.len(), |i: int| spec_parse_usize(ss[i])->Some_0)
}

/// What parsing an index descriptor yields: segments are split on `_`; a
/// leading literal `unique` marks the index unique and is dropped; the
/// remaining segments are the column positions, in order.
pub open spec fn spec_parse_index(s: Seq<char>) -> Result<IndexModel, SchemaError> {
    let segs = split_seps(s, '_', '_');
    let unique = segs[0] == "unique"@;
    let rest = if unique {
        segs.drop_first()
    } else {
        segs
    };
    if rest.len() == 0 {
        Err(SchemaError::EmptyIndexDescriptor)
    } else if !all_numeric(rest) {
        Err(SchemaError::InvalidIndexColumn)
    } else {
        Ok(IndexModel { columns: positions_of(rest), unique })
    }
}

impl Index {
    /// Parse an index descriptor such as `unique_1_2` or `3`.
    #[verifier::loop_isolation(false)]
    pub fn parse(s: &str) -> (r: Result<Index, SchemaError>)
        ensures
            match r {
                Ok(ix) => spec_parse_index(s@) == Ok::<IndexModel, SchemaError>(ix@),
                Err(e) => spec_parse_index(s@) == Err::<IndexModel, SchemaError>(e),
            },
    {
        let segs = split_str(s, '_', '_');
        proof {
            lemma_split_seps_len(s@, '_', '_');
            assert(segs@[0]@ == split_seps(s@, '_', '_')[0]);
        }
        let unique = str_eq(segs[0].as_str(), "unique");
        let start: usize = if unique {
            1
        } else {
            0
        };
        let ghost rest = if unique {
            split_seps(s@, '_', '_').drop_first()
        } else {
            split_seps(s@, '_', '_')
        };
        proof {
            assert(forall|j: int|
                0 <= j < rest.len() ==> #[trigger] rest[j] == segs.deep_view()[j + start]);
        }
        if segs.len() == start {
            return Err(SchemaError::EmptyIndexDescriptor);
        }
        let mut columns: Vec<usize> = Vec::new();
        let mut i: usize = start;
        while i < segs.len()
            invariant
                start <= i <= segs@.len(),
                segs@.len() > start,
                rest.len() == segs@.len() - start,
                forall|j: int| 0 <= j < rest.len() ==> #[trigger] rest[j] == segs.deep_view()[j + start],
                columns@.len() == i - start,
                forall|j: int|
                    0 <= j < i - start ==> spec_parse_usize(#[trigger] rest[j]) == Some(
                        columns@[j],
                    ),
            decreases segs@.len() - i,
        {
            proof {
                assert(segs@[i as int]@ == rest[i - start]);
            }
            match parse_usize(segs[i].as_str()) {
                Some(v) => {
                    columns.push(v);
                },
                None => {
                    assert(spec_parse_usize(rest[i - start]) is None);
                    assert(!all_numeric(rest));
                    return Err(SchemaError::InvalidIndexColumn);
                },
            }
            i = i + 1;
        }
        let ix = Index { columns, unique };
        proof {
            assert(all_numeric(rest));
            assert(ix@.columns =~= positions_of(rest));
        }
        Ok(ix)
    }
}

/// A schema: its columns, the positions of the primary-key columns
/// in key order, its secondary indexes, and the number of the table.
#[derive(Debug)]
pub struct Schema {
    columns: Vec<Column>,
    primary: Vec<usize>,
    indexes: Vec<Index>,
    table_num: usize,
}

/// The mathematical value of a `Schema`.
pub struct SchemaModel {
    pub columns: Seq<ColumnModel>,
    pub primary: Seq<usize>,
    pub indexes: Seq<IndexModel>,
    pub table_num: usize,
}

impl View for Schema {
    type V = SchemaModel;

    closed spec fn view(&self) -> SchemaModel {
        SchemaModel {
            columns: self.columns.deep_view(),
            primary: self.primary@,
            indexes: self.indexes.deep_view(),
            table_num: self.table_num,
        }
    }
}

/// Whether every position of `ps` names one of the `n` existing columns: a
/// position is handed to the naming function as it stands, so position `p`
/// names the column called `column_name(p)`, which exists only for `p < n`.
pub open spec fn positions_in_range(ps: Seq<usize>, n: int) -> bool {
    forall|i: int| 0 <= i < ps.len() ==> #[trigger] ps[i] < n
}

/// Whether every index of `ixs` references only the `n` existing columns.
pub open spec fn indexes_in_range(ixs: Seq<IndexModel>, n: int) -> bool {
    forall|i: int| 0 <= i < ixs.len() ==> positions_in_range((#[trigger] ixs[i]).columns, n)
}

impl SchemaModel {
    /// Well-formedness: the primary key is non-empty, every index names at
    /// least one column, and every referenced position exists.
    pub open spec fn wf(self) -> bool {
        &&& self.primary.len() >= 1
        &&& positions_in_range(self.primary, self.columns.len() as int)
        &&& indexes_in_range(self.indexes, self.columns.len() as int)
        &&& forall|i: int|
            0 <= i < self.indexes.len() ==> (#[trigger] self.indexes[i]).columns.len() >= 1
    }
}

/// What parsing a list of column descriptors yields: the columns in order,
/// or the error of the first descriptor that fails.
pub open spec fn spec_parse_columns(ss: Seq<Seq<char>>) -> Result<Seq<ColumnModel>, SchemaError>
    decreases ss.len(),
{
    if ss.len() == 0 {
        Ok(Seq::empty())
    } else {
        match spec_parse_columns(ss.drop_last()) {
            Err(e) => Err(e),
            Ok(cs) => match spec_parse_column(ss.last()) {
                Err(e) => Err(e),
                Ok(c) => Ok(cs.push(c)),
            },
        }
    }
}

/// What parsing a list of index descriptors yields: the indexes in order,
/// or the error of the first descriptor that fails.
pub open spec fn spec_parse_indexes(ss: Seq<Seq<char>>) -> Result<Seq<IndexModel>, SchemaError>
    decreases ss.len(),
{
    if ss.len() == 0 {
        Ok(Seq::empty())
    } else {
        match spec_parse_indexes(ss.drop_last()) {
            Err(e) => Err(e),
            Ok(ixs) => match spec_parse_index(ss.last()) {
                Err(e) => Err(e),
                Ok(ix) => Ok(ixs.push(ix)),
            },
        }
    }
}

/// What parsing the primary-key position list yields: the positions in the
/// given order, which defines the key's column order.
pub open spec fn spec_parse_primary(ss: Seq<Seq<char>>) -> Result<Seq<usize>, SchemaError> {
    if !all_numeric(ss) {
        Err(SchemaError::InvalidPrimaryKeyColumn)
    } else {
        Ok(positions_of(ss))
    }
}

/// What assembling a schema from descriptor lists yields: columns, primary
/// key and indexes are parsed in that order and the first error wins; then
/// every referenced position must name an existing column.
pub open spec fn spec_from_str(
    cols: Seq<Seq<char>>,
    prim: Seq<Seq<char>>,
    idxs: Seq<Seq<char>>,
    table_num: usize,
) -> Result<SchemaModel, SchemaError> {
    match spec_parse_columns(cols) {
        Err(e) => Err(e),
        Ok(columns) => match spec_parse_primary(prim) {
            Err(e) => Err(e),
            Ok(primary) => match spec_parse_indexes(idxs) {
                Err(e) => Err(e),
                Ok(indexes) => if !positions_in_range(primary, columns.len() as int)
                    || !indexes_in_range(indexes, columns.len() as int) {
                    Err(SchemaError::ColumnPositionOutOfRange)
                } else {
                    Ok(SchemaModel { columns, primary, indexes, table_num })
                },
            },
        },
    }
}

/// A failing prefix decides the whole column list.
proof fn lemma_parse_columns_err_prefix(ss: Seq<Seq<char>>, i: int)
    requires
        0 <= i <= ss.len(),
        spec_parse_columns(ss.take(i)) is Err,
    ensures
        spec_parse_columns(ss) == spec_parse_columns(ss.take(i)),
    decreases ss.len(),
{
    if i == ss.len() {
        assert(ss.take(i) =~= ss);
    } else {
        assert(ss.drop_last().take(i) =~= ss.take(i));
        lemma_parse_columns_err_prefix(ss.drop_last(), i);
    }
}

/// A failing prefix decides the whole index list.
proof fn lemma_parse_indexes_err_prefix(ss: Seq<Seq<char>>, i: int)
    requires
        0 <= i <= ss.len(),
        spec_parse_indexes(ss.take(i)) is Err,
    ensures
        spec_parse_indexes(ss) == spec_parse_indexes(ss.take(i)),
    decreases ss.len(),
{
    if i == ss.len() {
        assert(ss.take(i) =~= ss);
    } else {
        assert(ss.drop_last().take(i) =~= ss.take(i));
        lemma_parse_indexes_err_prefix(ss.drop_last(), i);
    }
}

/// Every position of a parsed index is a position list of length at least 1.
proof fn lemma_parse_index_ok_nonempty(s: Seq<char>)
    requires
        spec_parse_index(s) is Ok,
    ensures
        spec_parse_index(s)->Ok_0.columns.len() >= 1,
{
}

/// Check that every position of `ps` names one of the `n` existing columns.
#[verifier::loop_isolation(false)]
fn check_positions(ps: &Vec<usize>, n: usize) -> (r: bool)
    ensures
        r == positions_in_range(ps@, n as int),
{
    let mut i: usize = 0;
    while i < ps.len()
        invariant
            0 <= i <= ps@.len(),
            forall|j: int| 0 <= j < i ==> #[trigger] ps@[j] < n,
        decreases ps@.len() - i,
    {
        if ps[i] >= n {
            return false;
        }
        i = i + 1;
    }
    true
}

impl Schema {
    /// Assemble a schema from column, primary-key and index descriptor
    /// strings and a table number. The primary key must name at least one
    /// column; every parse failure and every position that references no
    /// existing column is reported as an error.
    #[verifier::loop_isolation(false)]
    pub fn from_str(
        columns: Vec<String>,
        primary: Vec<String>,
        indexes: Vec<String>,
        table_num: usize,
    ) -> (r: Result<Schema, SchemaError>)
        requires
            primary@.len() >= 1,
        ensures
            match r {
                Ok(schema) => spec_from_str(
                    columns.deep_view(),
                    primary.deep_view(),
                    indexes.deep_view(),
                    table_num,
                ) == Ok::<SchemaModel, SchemaError>(schema@) && schema@.wf(),
                Err(e) => spec_from_str(
                    columns.deep_view(),
                    primary.deep_view(),
                    indexes.deep_view(),
                    table_num,
                ) == Err::<SchemaModel, SchemaError>(e),
            },
    {
        let ghost cv = columns.deep_view();
        let ghost pv = primary.deep_view();
        let ghost iv = indexes.deep_view();

        let mut cols: Vec<Column> = Vec::new();
        let mut i: usize = 0;
        proof {
            assert(cv.take(0) =~= Seq::<Seq<char>>::empty());
            assert(cols.deep_view() =~= Seq::<ColumnModel>::empty());
        }
        while i < columns.len()
            invariant
                0 <= i <= cv.len(),
                spec_parse_columns(cv.take(i as int)) == Ok::<Seq<ColumnModel>, SchemaError>(
                    cols.deep_view(),
                ),
            decreases cv.len() - i,
        {
            proof {
                assert(columns@[i as int]@ == cv[i as int]);
                assert(cv.take(i as int + 1).drop_last() =~= cv.take(i as int));
                assert(cv.take(i as int + 1).last() == cv[i as int]);
            }
            match Column::parse(columns[i].as_str()) {
                Ok(c) => {
                    let ghost prev = cols.deep_view();
                    cols.push(c);
                    proof {
                        assert(cols.deep_view() =~= prev.push(c@));
                    }
                },
                Err(e) => {
                    proof {
                        assert(spec_parse_columns(cv.take(i as int + 1))
                            == Err::<Seq<ColumnModel>, SchemaError>(e));
                        lemma_parse_columns_err_prefix(cv, i as int + 1);
                    }
                    return Err(e);
                },
            }
            i = i + 1;
        }
        proof {
            assert(cv.take(cv.len() as int) =~= cv);
        }

        let mut prim: Vec<usize> = Vec::new();
        let mut j: usize = 0;
        while j < primary.len()
            invariant
                0 <= j <= pv.len(),
                prim@.len() == j,
                forall|k: int| 0 <= k < j ==> spec_parse_usize(#[trigger] pv[k]) == Some(prim@[k]),
            decreases pv.len() - j,
        {
            proof {
                assert(primary@[j as int]@ == pv[j as int]);
            }
            match parse_usize(primary[j].as_str()) {
                Some(v) => {
                    prim.push(v);
                },
                None => {
                    assert(spec_parse_usize(pv[j as int]) is None);
                    assert(!all_numeric(pv));
                    return Err(SchemaError::InvalidPrimaryKeyColumn);
                },
            }
            j = j + 1;
        }
        proof {
            assert(all_numeric(pv));
            assert(prim@ =~= positions_of(pv));
        }

        let mut ixs: Vec<Index> = Vec::new();
        let mut k: usize = 0;
        proof {
            assert(iv.take(0) =~= Seq::<Seq<char>>::empty());
            assert(ixs.deep_view() =~= Seq::<IndexModel>::empty());
        }
        while k < indexes.len()
            invariant
                0 <= k <= iv.len(),
                ixs@.len() == k,
                spec_parse_indexes(iv.take(k as int)) == Ok::<Seq<IndexModel>, SchemaError>(
                    ixs.deep_view(),
                ),
                forall|m: int| 0 <= m < k ==> (#[trigger] ixs.deep_view()[m]).columns.len() >= 1,
            decreases iv.len() - k,
        {
            proof {
                assert(indexes@[k as int]@ == iv[k as int]);
                assert(iv.take(k as int + 1).drop_last() =~= iv.take(k as int));
                assert(iv.take(k as int + 1).last() == iv[k as int]);
            }
            match Index::parse(indexes[k].as_str()) {
                Ok(ix) => {
                    proof {
                        lemma_parse_index_ok_nonempty(iv[k as int]);
                    }
                    let ghost ixv = ix@;
                    let ghost prev = ixs.deep_view();
                    ixs.push(ix);
                    proof {
                        assert(ixs.deep_view() =~= prev.push(ixv));
                        assert(ixv.columns.len() >= 1);
                        assert forall|m: int|
                            0 <= m < k as int + 1 implies (#[trigger] ixs.deep_view()[m]).columns.len()
                            >= 1 by {
                            if m < k as int {
                                assert(ixs.deep_view()[m] == prev[m]);
                            } else {
                                assert(ixs.deep_view()[m] == ixv);
                            }
                        }
                    }
                },
                Err(e) => {
                    proof {
                        assert(spec_parse_indexes(iv.take(k as int + 1))
                            == Err::<Seq<IndexModel>, SchemaError>(e));
                        lemma_parse_indexes_err_prefix(iv, k as int + 1);
                    }
                    return Err(e);
                },
            }
            k = k + 1;
        }
        proof {
            assert(iv.take(iv.len() as int) =~= iv);
        }

        let ncols = cols.len();
        if !check_positions(&prim, ncols) {
            return Err(SchemaError::ColumnPositionOutOfRange);
        }
        let mut m: usize = 0;
        while m < ixs.len()
            invariant
                0 <= m <= ixs@.len(),
                forall|t: int|
                    0 <= t < m ==> positions_in_range(
                        (#[trigger] ixs.deep_view()[t]).columns,
                        ncols as int,
                    ),
            decreases ixs@.len() - m,
        {
            if !check_positions(&ixs[m].columns, ncols) {
                assert(!positions_in_range(ixs.deep_view()[m as int].columns, ncols as int));
                assert(!indexes_in_range(ixs.deep_view(), ncols as int));
                return Err(SchemaError::ColumnPositionOutOfRange);
            }
            m = m + 1;
        }
        assert(indexes_in_range(ixs.deep_view(), ncols as int));

        let schema = Schema { columns: cols, primary: prim, indexes: ixs, table_num };
        proof {
            assert(schema@.primary.len() == pv.len());
            assert(pv.len() == primary@.len());
            assert(schema@.columns.len() == ncols as int);
            assert(schema@.wf());
        }
        Ok(schema)
    }
}

/// The SQL type of a column: length-bearing types always render their
/// length, lengthless types render the bare keyword.
pub open spec fn spec_type_sql(c: ColumnModel) -> Seq<char> {
    match c.tp {
        ColumnType::Int => "int("@ + dec_digits(c.len as int) + ")"@,
        ColumnType::Char => "char("@ + dec_digits(c.len as int) + ")"@,
        ColumnType::Varchar => "varchar("@ + dec_digits(c.len as int) + ")"@,
        ColumnType::Text => "text"@,
        ColumnType::Datetime => "datetime"@,
    }
}

/// The default clause of a column: the supplied value verbatim, or nothing.
pub open spec fn spec_default_sql(d: Option<Seq<char>>) -> Seq<char> {
    match d {
        Some(v) => " default "@ + v,
        None => Seq::empty(),
    }
}

/// The line of the column with zero-based index `i`.
pub open spec fn spec_column_sql(c: ColumnModel, i: int) -> Seq<char> {
    " "@ + column_name(i) + " "@ + spec_type_sql(c) + " not null"@ + spec_default_sql(c.default)
        + ",\n"@
}

/// The column lines, in order.
pub open spec fn spec_columns_sql(cs: Seq<ColumnModel>) -> Seq<char>
    decreases cs.len(),
{
    if cs.len() == 0 {
        Seq::empty()
    } else {
        spec_columns_sql(cs.drop_last()) + spec_column_sql(cs.last(), cs.len() - 1)
    }
}

/// The names of the columns at the given positions, comma-joined,
/// in the given order.
pub open spec fn spec_names_joined(ps: Seq<usize>) -> Seq<char>
    recommends
        ps.len() >= 1,
    decreases ps.len(),
{
    if ps.len() <= 1 {
        column_name(ps[0] as int)
    } else {
        spec_names_joined(ps.drop_last()) + ","@ + column_name(ps.last() as int)
    }
}

/// The clause of the secondary index standing at position `n` of the index
/// list.
pub open spec fn spec_index_sql(n: int, ix: IndexModel) -> Seq<char> {
    (if ix.unique {
        " unique "@
    } else {
        Seq::<char>::empty()
    }) + " key _idx_"@ + dec_digits(n) + " ("@ + spec_names_joined(ix.columns) + ")"@
}

/// The index clauses, in order, separated by `,\n`.
pub open spec fn spec_indexes_inner(ixs: Seq<IndexModel>) -> Seq<char>
    recommends
        ixs.len() >= 1,
    decreases ixs.len(),
{
    if ixs.len() <= 1 {
        spec_index_sql(0, ixs[0])
    } else {
        spec_indexes_inner(ixs.drop_last()) + ",\n"@ + spec_index_sql(
            ixs.len() - 1,
            ixs.last(),
        )
    }
}

/// The whole index section: empty without indexes, else the clauses with a
/// leading `,\n` and a trailing newline.
pub open spec fn spec_indexes_sql(ixs: Seq<IndexModel>) -> Seq<char> {
    if ixs.len() == 0 {
        Seq::empty()
    } else {
        ",\n"@ + spec_indexes_inner(ixs) + "\n"@
    }
}

/// The CREATE TABLE statement of a well-formed schema.
pub open spec fn spec_create_sql(s: SchemaModel) -> Seq<char> {
    "create table t"@ + dec_digits(s.table_num as int) + " (\n"@ + spec_columns_sql(s.columns)
        + " primary key ("@ + spec_names_joined(s.primary) + ")"@ + spec_indexes_sql(s.indexes)
        + ")"@
}

/// The comma-joined names of the columns at the given positions.
#[verifier::loop_isolation(false)]
fn names_joined(ps: &Vec<usize>) -> (r: String)
    requires
        ps@.len() >= 1,
        forall|i: int| 0 <= i < ps@.len() ==> #[trigger] ps@[i] < usize::MAX,
    ensures
        r@ == spec_names_joined(ps@),
{
    let mut s = String::new();
    let mut i: usize = 0;
    while i < ps.len()
        invariant
            0 <= i <= ps@.len(),
            i == 0 ==> s@ == Seq::<char>::empty(),
            i >= 1 ==> s@ == spec_names_joined(ps@.take(i as int)),
        decreases ps@.len() - i,
    {
        if i > 0 {
            s.append(",");
        }
        let name = gen_column_name(ps[i]);
        s.append(name.as_str());
        proof {
            assert(ps@.take(i as int + 1).drop_last() =~= ps@.take(i as int));
            assert(ps@.take(i as int + 1).last() == ps@[i as int]);
            assert(s@ =~= spec_names_joined(ps@.take(i as int + 1)));
        }
        i = i + 1;
    }
    proof {
        assert(ps@.take(ps@.len() as int) =~= ps@);
    }
    s
}

/// The clause of one secondary index, `index`, standing at position
/// `idx_num` of the index list.
pub fn gen_secondary_index_sql(idx_num: usize, index: &Index) -> (r: String)
    requires
        index@.columns.len() >= 1,
        forall|i: int| 0 <= i < index@.columns.len() ==> #[trigger] index@.columns[i] < usize::MAX,
    ensures
        r@ == spec_index_sql(idx_num as int, index@),
{
    let mut sql = String::new();
    if index.unique {
        sql.append(" unique ");
    }
    sql.append(" key _idx_");
    let num = dec_string(idx_num);
    sql.append(num.as_str());
    sql.append(" (");
    let names = names_joined(&index.columns);
    sql.append(names.as_str());
    sql.append(")");
    proof {
        assert(sql@ =~= spec_index_sql(idx_num as int, index@));
    }
    sql
}

/// The line of one column, `col`, standing at zero-based position `i`.
fn column_line(i: usize, col: &Column) -> (r: String)
    requires
        i < usize::MAX,
    ensures
        r@ == spec_column_sql(col@, i as int),
{
    let mut sql = String::new();
    let c_name = gen_column_name(i);
    sql.append(" ");
    sql.append(c_name.as_str());
    sql.append(" ");
    match col.tp {
        ColumnType::Int => {
            sql.append("int(");
            let l = dec_string(col.len);
            sql.append(l.as_str());
            sql.append(")");
        },
        ColumnType::Char => {
            sql.append("char(");
            let l = dec_string(col.len);
            sql.append(l.as_str());
            sql.append(")");
        },
        ColumnType::Varchar => {
            sql.append("varchar(");
            let l = dec_string(col.len);
            sql.append(l.as_str());
            sql.append(")");
        },
        ColumnType::Text => {
            sql.append("text");
        },
        ColumnType::Datetime => {
            sql.append("datetime");
        },
    }
    sql.append(" not null");
    match &col.default {
        Some(d) => {
            sql.append(" default ");
            sql.append(d.as_str());
        },
        None => {},
    }
    sql.append(",\n");
    proof {
        assert(sql@ =~= spec_column_sql(col@, i as int));
    }
    sql
}

/// The column lines of the schema, in order.
#[verifier::loop_isolation(false)]
fn columns_section(cols: &Vec<Column>) -> (r: String)
    ensures
        r@ == spec_columns_sql(cols.deep_view()),
{
    let ghost cv = cols.deep_view();
    let mut sql = String::new();
    proof {
        assert(cv.take(0) =~= Seq::<ColumnModel>::empty());
        assert(sql@ =~= spec_columns_sql(cv.take(0)));
    }
    let mut i: usize = 0;
    while i < cols.len()
        invariant
            0 <= i <= cv.len(),
            sql@ == spec_columns_sql(cv.take(i as int)),
        decreases cv.len() - i,
    {
        let line = column_line(i, &cols[i]);
        sql.append(line.as_str());
        proof {
            assert(cols@[i as int]@ == cv[i as int]);
            assert(cv.take(i as int + 1).drop_last() =~= cv.take(i as int));
            assert(cv.take(i as int + 1).last() == cv[i as int]);
            assert(sql@ =~= spec_columns_sql(cv.take(i as int + 1)));
        }
        i = i + 1;
    }
    proof {
        assert(cv.take(cv.len() as int) =~= cv);
    }
    sql
}

/// The index section of the schema: empty without indexes, else the index
/// clauses with a leading `,\n` and a trailing newline.
#[verifier::loop_isolation(false)]
fn indexes_section(ixs: &Vec<Index>, ncols: usize) -> (r: String)
    requires
        indexes_in_range(ixs.deep_view(), ncols as int),
        forall|i: int|
            0 <= i < ixs.deep_view().len() ==> (#[trigger] ixs.deep_view()[i]).columns.len() >= 1,
    ensures
        r@ == spec_indexes_sql(ixs.deep_view()),
{
    let ghost iv = ixs.deep_view();
    let mut sql = String::new();
    if ixs.len() == 0 {
        proof {
            assert(sql@ =~= spec_indexes_sql(iv));
        }
        return sql;
    }
    sql.append(",\n");
    let mut k: usize = 0;
    while k < ixs.len()
        invariant
            0 <= k <= iv.len(),
            k == 0 ==> sql@ == ",\n"@,
            k >= 1 ==> sql@ == ",\n"@ + spec_indexes_inner(iv.take(k as int)),
        decreases iv.len() - k,
    {
        if k > 0 {
            sql.append(",\n");
        }
        proof {
            assert(ixs@[k as int]@ == iv[k as int]);
            assert(positions_in_range(iv[k as int].columns, ncols as int));
            assert forall|t: int|
                0 <= t < iv[k as int].columns.len() implies #[trigger] iv[k as int].columns[t]
                < usize::MAX by {
                assert(iv[k as int].columns[t] < ncols);
            }
        }
        let isql = gen_secondary_index_sql(k, &ixs[k]);
        sql.append(isql.as_str());
        proof {
            assert(iv.take(k as int + 1).drop_last() =~= iv.take(k as int));
            assert(iv.take(k as int + 1).last() == iv[k as int]);
            assert(sql@ =~= ",\n"@ + spec_indexes_inner(iv.take(k as int + 1)));
        }
        k = k + 1;
    }
    proof {
        assert(iv.take(iv.len() as int) =~= iv);
    }
    sql.append("\n");
    proof {
        assert(sql@ =~= spec_indexes_sql(iv));
    }
    sql
}

/// Rendering is idempotent: the statement is a function of the schema value
/// alone, so two renderings of one schema are byte-identical.
pub proof fn lemma_render_idempotent(s: SchemaModel, r1: Seq<char>, r2: Seq<char>)
    requires
        r1 == spec_create_sql(s),
        r2 == spec_create_sql(s),
    ensures
        r1 == r2,
{
}

impl Schema {
    /// Render the CREATE TABLE statement of this schema. Rendering is pure:
    /// the output is a function of the schema value alone.
    pub fn gen_create_sql(&self) -> (r: String)
        requires
            self@.wf(),
        ensures
            r@ == spec_create_sql(self@),
    {
        let mut sql = String::new();
        sql.append("create table t");
        let num = dec_string(self.table_num);
        sql.append(num.as_str());
        sql.append(" (\n");
        let cols = columns_section(&self.columns);
        sql.append(cols.as_str());
        sql.append(" primary key (");
        let ncols = self.columns.len();
        proof {
            assert(positions_in_range(self@.primary, self@.columns.len() as int));
            assert forall|i: int|
                0 <= i < self.primary@.len() implies #[trigger] self.primary@[i] < usize::MAX by {
                assert(self@.primary[i] < ncols);
            }
        }
        let names = names_joined(&self.primary);
        sql.append(names.as_str());
        sql.append(")");
        let idxs = indexes_section(&self.indexes, ncols);
        sql.append(idxs.as_str());
        sql.append(")");
        proof {
            assert(sql@ =~= spec_create_sql(self@));
        }
        sql
    }
}

} // verus!
