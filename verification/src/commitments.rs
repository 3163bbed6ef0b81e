//! The commitments pallet: validates table definitions, keeps each table's
//! commitments per commitment scheme, and answers which commitments cover a
//! set of tables.
//!
//! The commitments themselves are computed by the proof system outside this
//! crate; a caller hands in their serialized bytes.

use vstd::prelude::*;

use crate::types::TableIdentifier;
use crate::vecmap::{bytes_clone, bytes_eq, MapKey, VecMap};
use crate::weights::{spec_div_per_component, sat_mul, Weight, WeightMeter};

verus! {

/// The commitment schemes a table can be committed with, in priority order.
#[derive(Debug, Clone, Copy, PartialEq, Eq, Structural)]
pub enum CommitmentScheme {
    /// HyperKZG commitments.
    HyperKzg,
    /// Dynamic Dory commitments.
    DynamicDory,
}

/// Which commitment schemes new tables are committed with.
#[derive(Debug, Clone, Copy, PartialEq, Eq, Structural)]
pub struct CommitmentSchemeFlags {
    /// Commit with HyperKZG.
    pub hyper_kzg: bool,
    /// Commit with Dynamic Dory.
    pub dynamic_dory: bool,
}

impl CommitmentSchemeFlags {
    /// Whether `scheme` is set.
    pub open spec fn spec_has(self, scheme: CommitmentScheme) -> bool {
        match scheme {
            CommitmentScheme::HyperKzg => self.hyper_kzg,
            CommitmentScheme::DynamicDory => self.dynamic_dory,
        }
    }

    /// Every scheme.
    pub fn all() -> (r: Self)
        ensures
            r.hyper_kzg && r.dynamic_dory,
    {
        CommitmentSchemeFlags { hyper_kzg: true, dynamic_dory: true }
    }
}

/// Serialized table commitments, at most one per scheme.
#[derive(Debug, PartialEq, Eq)]
pub struct TableCommitmentBytesPerCommitmentScheme {
    /// The HyperKZG commitment, if any.
    pub hyper_kzg: Option<Vec<u8>>,
    /// The Dynamic Dory commitment, if any.
    pub dynamic_dory: Option<Vec<u8>>,
}

/// The bytes of an optional commitment.
pub open spec fn opt_bytes(o: Option<Vec<u8>>) -> Option<Seq<u8>> {
    match o {
        Some(v) => Some(v@),
        None => None,
    }
}

impl View for TableCommitmentBytesPerCommitmentScheme {
    type V = (Option<Seq<u8>>, Option<Seq<u8>>);

    open spec fn view(&self) -> (Option<Seq<u8>>, Option<Seq<u8>>) {
        (opt_bytes(self.hyper_kzg), opt_bytes(self.dynamic_dory))
    }
}

/// The commitment of one scheme in a per-scheme value.
pub open spec fn of_scheme(c: (Option<Seq<u8>>, Option<Seq<u8>>), scheme: CommitmentScheme) -> Option<
    Seq<u8>,
> {
    match scheme {
        CommitmentScheme::HyperKzg => c.0,
        CommitmentScheme::DynamicDory => c.1,
    }
}

fn opt_bytes_clone(o: &Option<Vec<u8>>) -> (r: Option<Vec<u8>>)
    ensures
        opt_bytes(r) == opt_bytes(*o),
{
    match o {
        Some(v) => Some(bytes_clone(v)),
        None => None,
    }
}

impl TableCommitmentBytesPerCommitmentScheme {
    /// A copy of the commitments.
    pub fn duplicate(&self) -> (r: Self)
        ensures
            r@ == self@,
    {
        TableCommitmentBytesPerCommitmentScheme {
            hyper_kzg: opt_bytes_clone(&self.hyper_kzg),
            dynamic_dory: opt_bytes_clone(&self.dynamic_dory),
        }
    }

    /// The commitments of the schemes set in `flags`, and no others.
    pub fn only_schemes(&self, flags: CommitmentSchemeFlags) -> (r: Self)
        ensures
            forall|s: CommitmentScheme|
                of_scheme(r@, s) == if flags.spec_has(s) {
                    of_scheme(self@, s)
                } else {
                    None
                },
    {
        TableCommitmentBytesPerCommitmentScheme {
            hyper_kzg: if flags.hyper_kzg {
                opt_bytes_clone(&self.hyper_kzg)
            } else {
                None
            },
            dynamic_dory: if flags.dynamic_dory {
                opt_bytes_clone(&self.dynamic_dory)
            } else {
                None
            },
        }
    }
}

// ───────────────────────── table definitions ─────────────────────────

/// The precision and scale written after `DECIMAL` or `NUMERIC`.
#[derive(Debug, Clone, Copy, PartialEq, Eq, Structural)]
pub enum DecimalParameters {
    /// `DECIMAL`.
    Unconstrained,
    /// `DECIMAL(p)`.
    Precision(u64),
    /// `DECIMAL(p, s)`.
    PrecisionAndScale(u64, u64),
}

/// A column's data type, as written in a `CREATE TABLE` statement.
#[derive(Debug, PartialEq, Eq)]
pub enum ColumnType {
    /// `BOOLEAN`.
    Boolean,
    /// `TINYINT`.
    TinyInt,
    /// `SMALLINT`.
    SmallInt,
    /// `INT` / `INTEGER`.
    Int,
    /// `BIGINT`.
    BigInt,
    /// `VARCHAR`, with its length if one is written.
    Varchar(Option<u64>),
    /// `VARBINARY`.
    VarBinary,
    /// `DECIMAL` / `NUMERIC`.
    Decimal(DecimalParameters),
    /// `TIMESTAMP`, with its precision if one is written.
    Timestamp(Option<u64>),
    /// Any other type, by its name (such as `REAL`).
    Other(Vec<u8>),
}

/// An option written after a column's type.
#[derive(Debug, Clone, Copy, PartialEq, Eq, Structural)]
pub enum ColumnOption {
    /// `NOT NULL`.
    NotNull,
    /// `NULL`.
    Null,
    /// `DEFAULT ...`.
    Default,
    /// `UNIQUE` or `PRIMARY KEY` on the column.
    Unique,
    /// Any other option.
    Other,
}

/// A column definition.
#[derive(Debug, PartialEq, Eq)]
pub struct ColumnDef {
    /// The column's name, as written.
    pub name: Vec<u8>,
    /// The column's type.
    pub data_type: ColumnType,
    /// The column's options, in order.
    pub options: Vec<ColumnOption>,
}

/// A parsed `CREATE TABLE` statement.
#[derive(Debug, PartialEq, Eq)]
pub struct CreateTable {
    /// The parts of the table's name, as written (`namespace.name` has two).
    pub name: Vec<Vec<u8>>,
    /// The columns, in order.
    pub columns: Vec<ColumnDef>,
}

/// The errors of this pallet.
#[derive(Debug, Clone, Copy, PartialEq, Eq, Structural)]
pub enum CommitmentsError {
    /// Proof-of-sql commitment has too many columns.
    CommitmentWithTooManyColumns,
    /// Failed to serialize proof-of-sql commitment.
    SerializeCommitment,
    /// Failed to deserialize proof-of-sql commitment.
    DeserializeCommitment,
    /// Failed to serialize an insert.
    SerializeInsertData,
    /// Failed to deserialize an insert.
    DeserializeInsertData,
    /// Snapshot commitments don't match table definition.
    InappropriateSnapshotCommitments,
    /// Table must have at least one column.
    CreateTableWithNoColumns,
    /// Table ref has unexpected number of identifiers.
    CreateTableWithInvalidTableIdentifierCount,
    /// Table has duplicate identifiers.
    CreateTableWithDuplicateIdentifiers,
    /// Table uses reserved metadata prefix.
    CreateTableWithReservedMetadataPrefix,
    /// Decimal/numeric columns should have constrained precision and scale.
    DecimalColumnWithoutPrecision,
    /// Decimal/numeric columns should have precision between 1 and 75.
    DecimalColumnWithInvalidPrecision,
    /// Decimal/numeric columns should have scale between 0 and 127.
    DecimalColumnWithInvalidScale,
    /// Column type supported but not type parameter.
    SupportedColumnWithUnsupportedParameter,
    /// Column type not supported.
    ColumnWithUnsupportedDataType,
    /// Column should be NOT NULL.
    ColumnWithoutNotNull,
    /// Column option not supported.
    ColumnWithUnsupportedOption,
    /// Failed to serialize proof-of-sql commitment in native interface.
    NativeSerializeCommitment,
    /// Failed to deserialize proof-of-sql commitment in native interface.
    NativeDeserializeCommitment,
    /// Failed to serialize an insert in native interface.
    NativeSerializeInsertData,
    /// Failed to deserialize an insert in native interface.
    NativeDeserializeInsertData,
    /// Existing commitments of different schemes don't agree on table range.
    ExistingCommitmentsRangeMismatch,
    /// Existing commitments of different schemes don't agree on column order.
    ExistingCommitmentsColumnOrderMismatch,
    /// Cannot update table with no existing commitments.
    NoExistingCommitments,
    /// Insert data contains values out of bounds of scalar field.
    InsertDataOutOfBounds,
    /// Insert data does not match existing commitments.
    InsertDataDoesntMatchExistingCommitments,
    /// Table identifier already exists in commitment storage.
    TableAlreadyExists,
}

/// The largest precision of a decimal column.
pub const MAX_DECIMAL_PRECISION: u64 = 75;

/// The largest scale of a decimal column.
pub const MAX_DECIMAL_SCALE: u64 = 127;

/// The prefix reserved for the metadata columns the chain adds.
pub open spec fn meta_prefix() -> Seq<u8> {
    seq![77u8, 69u8, 84u8, 65u8, 95u8]
}

/// An ASCII byte in upper case.
pub open spec fn upper_byte(b: u8) -> u8 {
    if 97 <= b <= 122 {
        (b - 32) as u8
    } else {
        b
    }
}

/// An identifier in upper case, as the chain stores identifiers.
pub open spec fn upper(s: Seq<u8>) -> Seq<u8> {
    s.map_values(|b: u8| upper_byte(b))
}

/// Whether `s` starts with `p`.
pub open spec fn starts_with(s: Seq<u8>, p: Seq<u8>) -> bool {
    p.len() <= s.len() && s.take(p.len() as int) == p
}

/// The error a column's type gives, if any.
pub open spec fn type_error(t: ColumnType) -> Option<CommitmentsError> {
    match t {
        ColumnType::Boolean | ColumnType::TinyInt | ColumnType::SmallInt | ColumnType::Int
        | ColumnType::BigInt | ColumnType::VarBinary => None,
        ColumnType::Varchar(len) => if len is Some {
            Some(CommitmentsError::SupportedColumnWithUnsupportedParameter)
        } else {
            None
        },
        ColumnType::Timestamp(p) => if p is Some {
            Some(CommitmentsError::SupportedColumnWithUnsupportedParameter)
        } else {
            None
        },
        ColumnType::Decimal(d) => match d {
            DecimalParameters::Unconstrained => Some(CommitmentsError::DecimalColumnWithoutPrecision),
            DecimalParameters::Precision(p) => if 1 <= p <= MAX_DECIMAL_PRECISION {
                None
            } else {
                Some(CommitmentsError::DecimalColumnWithInvalidPrecision)
            },
            DecimalParameters::PrecisionAndScale(p, s) => if !(1 <= p <= MAX_DECIMAL_PRECISION) {
                Some(CommitmentsError::DecimalColumnWithInvalidPrecision)
            } else if s > MAX_DECIMAL_SCALE {
                Some(CommitmentsError::DecimalColumnWithInvalidScale)
            } else {
                None
            },
        },
        ColumnType::Other(_) => Some(CommitmentsError::ColumnWithUnsupportedDataType),
    }
}

/// The error a column's options give, if any: `NOT NULL` is required, and no
/// other option is supported.
pub open spec fn options_error(opts: Seq<ColumnOption>) -> Option<CommitmentsError> {
    if !opts.contains(ColumnOption::NotNull) {
        Some(CommitmentsError::ColumnWithoutNotNull)
    } else if exists|i: int| 0 <= i < opts.len() && opts[i] != ColumnOption::NotNull {
        Some(CommitmentsError::ColumnWithUnsupportedOption)
    } else {
        None
    }
}

/// The error a column gives, if any: its name, then its type, then its options.
pub open spec fn column_error(c: ColumnDef) -> Option<CommitmentsError> {
    if starts_with(upper(c.name@), meta_prefix()) {
        Some(CommitmentsError::CreateTableWithReservedMetadataPrefix)
    } else if type_error(c.data_type) is Some {
        type_error(c.data_type)
    } else {
        options_error(c.options@)
    }
}

/// The error of the first column that gives one.
pub open spec fn first_column_error(cols: Seq<ColumnDef>) -> Option<CommitmentsError>
    decreases cols.len(),
{
    if cols.len() == 0 {
        None
    } else if column_error(cols[0]) is Some {
        column_error(cols[0])
    } else {
        first_column_error(cols.drop_first())
    }
}

/// Whether two columns have the same name, in upper case.
pub open spec fn has_duplicate_names(cols: Seq<ColumnDef>) -> bool {
    exists|i: int, j: int|
        0 <= i < j < cols.len() && #[trigger] upper(cols[i].name@) == #[trigger] upper(cols[j].name@)
}

/// The error a table definition gives, if any: its name must have two parts,
/// it must have a column, its columns must be valid, and no two may share a
/// name.
pub open spec fn create_table_error(t: CreateTable) -> Option<CommitmentsError> {
    if t.name@.len() != 2 {
        Some(CommitmentsError::CreateTableWithInvalidTableIdentifierCount)
    } else if t.columns@.len() == 0 {
        Some(CommitmentsError::CreateTableWithNoColumns)
    } else if first_column_error(t.columns@) is Some {
        first_column_error(t.columns@)
    } else if has_duplicate_names(t.columns@) {
        Some(CommitmentsError::CreateTableWithDuplicateIdentifiers)
    } else {
        None
    }
}

/// A valid table definition: a two-part name, at least one column, and
/// columns whose names are not reserved and differ in upper case, each of
/// type `BOOLEAN`, `TINYINT`, `SMALLINT`, `INT`, `BIGINT`, `VARBINARY`,
/// `VARCHAR` or `TIMESTAMP` (these last two written without a parameter),
/// with `NOT NULL` as its only option, gives no error.
pub proof fn lemma_plain_columns_are_valid(t: CreateTable)
    requires
        t.name@.len() == 2,
        t.columns@.len() > 0,
        forall|i: int|
            0 <= i < t.columns@.len() ==> {
                let c = #[trigger] t.columns@[i];
                &&& !starts_with(upper(c.name@), meta_prefix())
                &&& (c.data_type matches ColumnType::Boolean || c.data_type matches ColumnType::TinyInt
                    || c.data_type matches ColumnType::SmallInt || c.data_type matches ColumnType::Int
                    || c.data_type matches ColumnType::BigInt || c.data_type matches ColumnType::VarBinary
                    || c.data_type == ColumnType::Varchar(None) || c.data_type
                    == ColumnType::Timestamp(None))
                &&& c.options@.len() > 0
                &&& forall|j: int| 0 <= j < c.options@.len() ==> c.options@[j] == ColumnOption::NotNull
            },
        forall|i: int, j: int|
            0 <= i < j < t.columns@.len() ==> upper(t.columns@[i].name@) != upper(
                t.columns@[j].name@,
            ),
    ensures
        create_table_error(t) is None,
{
    lemma_plain_columns_have_no_error(t.columns@);
}

proof fn lemma_plain_columns_have_no_error(cols: Seq<ColumnDef>)
    requires
        forall|i: int|
            0 <= i < cols.len() ==> {
                let c = #[trigger] cols[i];
                &&& !starts_with(upper(c.name@), meta_prefix())
                &&& (c.data_type matches ColumnType::Boolean || c.data_type matches ColumnType::TinyInt
                    || c.data_type matches ColumnType::SmallInt || c.data_type matches ColumnType::Int
                    || c.data_type matches ColumnType::BigInt || c.data_type matches ColumnType::VarBinary
                    || c.data_type == ColumnType::Varchar(None) || c.data_type
                    == ColumnType::Timestamp(None))
                &&& c.options@.len() > 0
                &&& forall|j: int| 0 <= j < c.options@.len() ==> c.options@[j] == ColumnOption::NotNull
            },
    ensures
        first_column_error(cols) is None,
    decreases cols.len(),
{
    if cols.len() > 0 {
        let c = cols[0];
        assert(c.options@.contains(ColumnOption::NotNull)) by {
            assert(c.options@[0] == ColumnOption::NotNull);
        }
        assert(column_error(c) is None);
        assert forall|i: int| 0 <= i < cols.drop_first().len() implies {
            let c = #[trigger] cols.drop_first()[i];
            &&& !starts_with(upper(c.name@), meta_prefix())
            &&& (c.data_type matches ColumnType::Boolean || c.data_type matches ColumnType::TinyInt
                || c.data_type matches ColumnType::SmallInt || c.data_type matches ColumnType::Int
                || c.data_type matches ColumnType::BigInt || c.data_type matches ColumnType::VarBinary
                || c.data_type == ColumnType::Varchar(None) || c.data_type
                == ColumnType::Timestamp(None))
            &&& c.options@.len() > 0
            &&& forall|j: int| 0 <= j < c.options@.len() ==> c.options@[j] == ColumnOption::NotNull
        } by {
            assert(cols.drop_first()[i] == cols[i + 1]);
        }
        lemma_plain_columns_have_no_error(cols.drop_first());
    }
}

/// The identifier a valid table definition stands for: its two name parts,
/// in upper case.
pub open spec fn spec_table_identifier(t: CreateTable) -> (Seq<u8>, Seq<u8>) {
    (upper(t.name@[0]@), upper(t.name@[1]@))
}

fn upper_bytes(s: &Vec<u8>) -> (r: Vec<u8>)
    ensures
        r@ == upper(s@),
{
    let mut r: Vec<u8> = Vec::new();
    let mut i: usize = 0;
    while i < s.len()
        invariant
            i <= s@.len(),
            r@ == upper(s@.take(i as int)),
        decreases s.len() - i,
    {
        let b = s[i];
        let u = if 97 <= b && b <= 122 {
            b - 32
        } else {
            b
        };
        r.push(u);
        i += 1;
        assert(upper(s@.take(i as int)) =~= upper(s@.take(i - 1)).push(upper_byte(b)));
    }
    assert(s@.take(s@.len() as int) =~= s@);
    r
}

fn has_meta_prefix(name: &Vec<u8>) -> (r: bool)
    ensures
        r == starts_with(upper(name@), meta_prefix()),
{
    let u = upper_bytes(name);
    if u.len() < 5 {
        return false;
    }
    let r = u[0] == 77 && u[1] == 69 && u[2] == 84 && u[3] == 65 && u[4] == 95;
    proof {
        if r {
            assert(u@.take(5) =~= meta_prefix());
        } else {
            assert(u@.take(5) != meta_prefix()) by {
                if u@.take(5) == meta_prefix() {
                    assert(u@.take(5)[0] == u@[0]);
                    assert(u@.take(5)[1] == u@[1]);
                    assert(u@.take(5)[2] == u@[2]);
                    assert(u@.take(5)[3] == u@[3]);
                    assert(u@.take(5)[4] == u@[4]);
                }
            }
        }
    }
    r
}

fn check_type(t: &ColumnType) -> (r: Option<CommitmentsError>)
    ensures
        r == type_error(*t),
{
    match t {
        ColumnType::Boolean | ColumnType::TinyInt | ColumnType::SmallInt | ColumnType::Int
        | ColumnType::BigInt | ColumnType::VarBinary => None,
        ColumnType::Varchar(len) => if len.is_some() {
            Some(CommitmentsError::SupportedColumnWithUnsupportedParameter)
        } else {
            None
        },
        ColumnType::Timestamp(p) => if p.is_some() {
            Some(CommitmentsError::SupportedColumnWithUnsupportedParameter)
        } else {
            None
        },
        ColumnType::Decimal(d) => match d {
            DecimalParameters::Unconstrained => Some(CommitmentsError::DecimalColumnWithoutPrecision),
            DecimalParameters::Precision(p) => if 1 <= *p && *p <= MAX_DECIMAL_PRECISION {
                None
            } else {
                Some(CommitmentsError::DecimalColumnWithInvalidPrecision)
            },
            DecimalParameters::PrecisionAndScale(p, s) => if !(1 <= *p && *p
                <= MAX_DECIMAL_PRECISION) {
                Some(CommitmentsError::DecimalColumnWithInvalidPrecision)
            } else if *s > MAX_DECIMAL_SCALE {
                Some(CommitmentsError::DecimalColumnWithInvalidScale)
            } else {
                None
            },
        },
        ColumnType::Other(_) => Some(CommitmentsError::ColumnWithUnsupportedDataType),
    }
}

fn check_options(opts: &Vec<ColumnOption>) -> (r: Option<CommitmentsError>)
    ensures
        r == options_error(opts@),
{
    let mut has_not_null = false;
    let mut has_other = false;
    let mut i: usize = 0;
    while i < opts.len()
        invariant
            i <= opts@.len(),
            has_not_null <==> opts@.take(i as int).contains(ColumnOption::NotNull),
            has_other <==> exists|j: int| 0 <= j < i && opts@[j] != ColumnOption::NotNull,
        decreases opts.len() - i,
    {
        proof {
            assert(opts@.take(i + 1) =~= opts@.take(i as int).push(opts@[i as int]));
        }
        let o = opts[i];
        proof {
            let t = opts@.take(i as int);
            assert(opts@.take(i + 1)[i as int] == o);
            if t.contains(ColumnOption::NotNull) {
                let j = choose|j: int| 0 <= j < t.len() && t[j] == ColumnOption::NotNull;
                assert(opts@.take(i + 1)[j] == ColumnOption::NotNull);
            }
            let t1 = opts@.take(i + 1);
            if t1.contains(ColumnOption::NotNull) && o != ColumnOption::NotNull {
                let j = choose|j: int| 0 <= j < t1.len() && t1[j] == ColumnOption::NotNull;
                assert(j != i);
                assert(t[j] == ColumnOption::NotNull);
            }
        }
        match o {
            ColumnOption::NotNull => {
                has_not_null = true;
            },
            _ => {
                has_other = true;
            },
        }
        i += 1;
    }
    assert(opts@.take(opts@.len() as int) =~= opts@);
    if !has_not_null {
        Some(CommitmentsError::ColumnWithoutNotNull)
    } else if has_other {
        Some(CommitmentsError::ColumnWithUnsupportedOption)
    } else {
        None
    }
}

fn check_column(c: &ColumnDef) -> (r: Option<CommitmentsError>)
    ensures
        r == column_error(*c),
{
    if has_meta_prefix(&c.name) {
        Some(CommitmentsError::CreateTableWithReservedMetadataPrefix)
    } else {
        match check_type(&c.data_type) {
            Some(e) => Some(e),
            None => check_options(&c.options),
        }
    }
}

proof fn lemma_first_column_error_prefix(cols: Seq<ColumnDef>, i: int)
    requires
        0 <= i < cols.len(),
        first_column_error(cols.take(i)) is None,
    ensures
        first_column_error(cols.take(i + 1)) == column_error(cols[i]),
    decreases i,
{
    if i > 0 {
        assert(cols.take(i).drop_first() =~= cols.drop_first().take(i - 1));
        assert(cols.take(i + 1).drop_first() =~= cols.drop_first().take(i));
        assert(cols.take(i)[0] == cols[0]);
        assert(cols.take(i + 1)[0] == cols[0]);
        assert(column_error(cols[0]) is None);
        assert(first_column_error(cols.drop_first().take(i - 1)) is None);
        lemma_first_column_error_prefix(cols.drop_first(), i - 1);
        assert(cols.drop_first()[i - 1] == cols[i]);
        assert(first_column_error(cols.take(i + 1)) == first_column_error(
            cols.take(i + 1).drop_first(),
        ));
    } else {
        assert(cols.take(1).drop_first() =~= Seq::<ColumnDef>::empty());
        assert(cols.take(1)[0] == cols[0]);
    }
}

proof fn lemma_first_column_error_extends(cols: Seq<ColumnDef>, i: int)
    requires
        0 <= i <= cols.len(),
        first_column_error(cols.take(i)) is Some,
    ensures
        first_column_error(cols) == first_column_error(cols.take(i)),
    decreases i,
{
    if i > 0 {
        assert(cols.take(i)[0] == cols[0]);
        if column_error(cols[0]) is None {
            assert(cols.take(i).drop_first() =~= cols.drop_first().take(i - 1));
            lemma_first_column_error_extends(cols.drop_first(), i - 1);
        }
    }
}

fn find_column_error(cols: &Vec<ColumnDef>) -> (r: Option<CommitmentsError>)
    ensures
        r == first_column_error(cols@),
{
    let mut i: usize = 0;
    while i < cols.len()
        invariant
            i <= cols@.len(),
            first_column_error(cols@.take(i as int)) is None,
        decreases cols.len() - i,
    {
        proof {
            lemma_first_column_error_prefix(cols@, i as int);
        }
        match check_column(&cols[i]) {
            Some(e) => {
                proof {
                    lemma_first_column_error_extends(cols@, i + 1);
                }
                return Some(e);
            },
            None => {},
        }
        i += 1;
    }
    assert(cols@.take(cols@.len() as int) =~= cols@);
    None
}

fn find_duplicate_names(cols: &Vec<ColumnDef>) -> (r: bool)
    ensures
        r == has_duplicate_names(cols@),
{
    let mut names: Vec<Vec<u8>> = Vec::new();
    let mut i: usize = 0;
    while i < cols.len()
        invariant
            i <= cols@.len(),
            names@.len() == i,
            forall|k: int| 0 <= k < i ==> (#[trigger] names@[k])@ == upper(cols@[k].name@),
            forall|a: int, b: int|
                0 <= a < b < i ==> #[trigger] upper(cols@[a].name@) != #[trigger] upper(
                    cols@[b].name@,
                ),
        decreases cols.len() - i,
    {
        let u = upper_bytes(&cols[i].name);
        let mut k: usize = 0;
        while k < i
            invariant
                i < cols@.len(),
                k <= i,
                names@.len() == i,
                u@ == upper(cols@[i as int].name@),
                forall|q: int| 0 <= q < i ==> (#[trigger] names@[q])@ == upper(cols@[q].name@),
                forall|q: int| 0 <= q < k ==> upper(cols@[q].name@) != u@,
            decreases i - k,
        {
            if bytes_eq(&names[k], &u) {
                assert(upper(cols@[k as int].name@) == upper(cols@[i as int].name@));
                return true;
            }
            k += 1;
        }
        names.push(u);
        i += 1;
    }
    false
}

/// Validates a table definition.
pub fn validate_create_table(t: &CreateTable) -> (r: Result<TableIdentifier, CommitmentsError>)
    ensures
        match r {
            Ok(id) => create_table_error(*t) is None && id@ == spec_table_identifier(*t),
            Err(e) => create_table_error(*t) == Some(e),
        },
{
    if t.name.len() != 2 {
        return Err(CommitmentsError::CreateTableWithInvalidTableIdentifierCount);
    }
    if t.columns.len() == 0 {
        return Err(CommitmentsError::CreateTableWithNoColumns);
    }
    match find_column_error(&t.columns) {
        Some(e) => {
            return Err(e);
        },
        None => {},
    }
    if find_duplicate_names(&t.columns) {
        return Err(CommitmentsError::CreateTableWithDuplicateIdentifiers);
    }
    Ok(TableIdentifier { namespace: upper_bytes(&t.name[0]), name: upper_bytes(&t.name[1]) })
}

// ───────────────────────── commitment storage ─────────────────────────

/// A table, as a key.
pub type TableKey = (Seq<u8>, Seq<u8>);

/// A storage key: a table and one of its schemes.
#[derive(Debug, PartialEq, Eq)]
pub struct CommitmentKey {
    /// The table.
    pub table: TableIdentifier,
    /// The scheme.
    pub scheme: CommitmentScheme,
}

impl View for CommitmentKey {
    type V = (TableKey, CommitmentScheme);

    open spec fn view(&self) -> (TableKey, CommitmentScheme) {
        (self.table@, self.scheme)
    }
}

impl MapKey for CommitmentKey {
    fn key_eq(&self, other: &Self) -> (r: bool) {
        self.scheme == other.scheme && self.table.key_eq(&other.table)
    }

    fn key_clone(&self) -> (r: Self) {
        CommitmentKey { table: self.table.duplicate(), scheme: self.scheme }
    }
}

/// The error of creating commitments for a table that has some.
#[derive(Debug, PartialEq, Eq)]
pub struct KeyExistsError {
    /// The table.
    pub key: TableIdentifier,
}

/// Why serializing a commitment failed.
#[derive(Debug, Clone, Copy, PartialEq, Eq, Structural)]
pub enum TableCommitmentToBytesError {
    /// The commitment has too many columns.
    TooManyColumns,
    /// The serializer failed.
    Postcard,
}

/// Why commitments of a snapshot could not be taken.
#[derive(Debug, Clone, Copy, PartialEq, Eq, Structural)]
pub enum SnapshotError {
    /// The snapshot's bytes are not commitments.
    Undecodable,
    /// The commitments don't match the table definition.
    Inappropriate,
    /// The commitments could not be serialized again.
    ToBytes(TableCommitmentToBytesError),
}

/// Why the proof system refused an insert.
#[derive(Debug, Clone, Copy, PartialEq, Eq, Structural)]
pub enum ProcessInsertError {
    /// The insert holds values outside the scalar field.
    OutOfScalarBounds,
    /// The insert's columns don't match the existing commitments.
    ColumnCommitmentsMismatch,
    /// The existing commitments of different schemes cover different rows.
    TableCommitmentRangeMismatch,
    /// The table has no commitments.
    NoCommitments,
}

/// The pallet error a serialization error stands for.
pub open spec fn spec_to_bytes_error(e: TableCommitmentToBytesError) -> CommitmentsError {
    match e {
        TableCommitmentToBytesError::TooManyColumns => CommitmentsError::CommitmentWithTooManyColumns,
        TableCommitmentToBytesError::Postcard => CommitmentsError::SerializeCommitment,
    }
}

/// The pallet error a refused insert stands for.
pub open spec fn spec_insert_error(e: ProcessInsertError) -> CommitmentsError {
    match e {
        ProcessInsertError::OutOfScalarBounds => CommitmentsError::InsertDataOutOfBounds,
        ProcessInsertError::ColumnCommitmentsMismatch => CommitmentsError::InsertDataDoesntMatchExistingCommitments,
        ProcessInsertError::TableCommitmentRangeMismatch => CommitmentsError::ExistingCommitmentsRangeMismatch,
        ProcessInsertError::NoCommitments => CommitmentsError::NoExistingCommitments,
    }
}

/// Maps a serialization error to the pallet's error.
pub fn to_bytes_error(e: TableCommitmentToBytesError) -> (r: CommitmentsError)
    ensures
        r == spec_to_bytes_error(e),
{
    match e {
        TableCommitmentToBytesError::TooManyColumns => CommitmentsError::CommitmentWithTooManyColumns,
        TableCommitmentToBytesError::Postcard => CommitmentsError::SerializeCommitment,
    }
}

/// Maps a refused insert to the pallet's error.
pub fn insert_error(e: ProcessInsertError) -> (r: CommitmentsError)
    ensures
        r == spec_insert_error(e),
{
    match e {
        ProcessInsertError::OutOfScalarBounds => CommitmentsError::InsertDataOutOfBounds,
        ProcessInsertError::ColumnCommitmentsMismatch => CommitmentsError::InsertDataDoesntMatchExistingCommitments,
        ProcessInsertError::TableCommitmentRangeMismatch => CommitmentsError::ExistingCommitmentsRangeMismatch,
        ProcessInsertError::NoCommitments => CommitmentsError::NoExistingCommitments,
    }
}

/// The commitments of some tables under one scheme.
#[derive(Debug, PartialEq, Eq)]
pub enum AnyTableCommitments {
    /// HyperKZG commitments, one per table.
    HyperKzg(Vec<Vec<u8>>),
    /// Dynamic Dory commitments, one per table.
    DynamicDory(Vec<Vec<u8>>),
}

/// Storage after setting each of `c`'s commitments for `t`.
pub open spec fn with_commitments(
    m: Map<(TableKey, CommitmentScheme), Seq<u8>>,
    t: TableKey,
    c: (Option<Seq<u8>>, Option<Seq<u8>>),
) -> Map<(TableKey, CommitmentScheme), Seq<u8>> {
    let m1 = match c.0 {
        Some(b) => m.insert((t, CommitmentScheme::HyperKzg), b),
        None => m,
    };
    match c.1 {
        Some(b) => m1.insert((t, CommitmentScheme::DynamicDory), b),
        None => m1,
    }
}

/// Whether the storage holds a commitment of any scheme for `t`.
pub open spec fn has_any_commitment(m: Map<(TableKey, CommitmentScheme), Seq<u8>>, t: TableKey) -> bool {
    m.contains_key((t, CommitmentScheme::HyperKzg)) || m.contains_key((t, CommitmentScheme::DynamicDory))
}

/// Whether every table has a commitment of `scheme`.
pub open spec fn covers(
    m: Map<(TableKey, CommitmentScheme), Seq<u8>>,
    tables: Seq<TableKey>,
    scheme: CommitmentScheme,
) -> bool {
    forall|i: int| 0 <= i < tables.len() ==> m.contains_key((#[trigger] tables[i], scheme))
}

/// The views of a list of byte strings.
pub open spec fn bytes_list(v: Seq<Vec<u8>>) -> Seq<Seq<u8>> {
    v.map_values(|b: Vec<u8>| b@)
}

/// The commitments of `scheme` for each table, in order.
pub open spec fn commitments_for(
    m: Map<(TableKey, CommitmentScheme), Seq<u8>>,
    tables: Seq<TableKey>,
    scheme: CommitmentScheme,
) -> Seq<Seq<u8>> {
    tables.map_values(|t: TableKey| m[(t, scheme)])
}

/// The views of a list of tables.
pub open spec fn tables_view(v: Seq<TableIdentifier>) -> Seq<TableKey> {
    v.map_values(|t: TableIdentifier| t@)
}

/// The commitments pallet's storage.
pub struct CommitmentsPallet {
    storage: VecMap<CommitmentKey, Vec<u8>>,
    default_schemes: CommitmentSchemeFlags,
}

impl CommitmentsPallet {
    /// The commitment of each table and scheme.
    pub closed spec fn commitments(&self) -> Map<(TableKey, CommitmentScheme), Seq<u8>> {
        self.storage@.map_values(|v: Vec<u8>| v@)
    }

    /// The schemes new tables are committed with.
    pub closed spec fn default_commitment_schemes(&self) -> CommitmentSchemeFlags {
        self.default_schemes
    }

    /// The storage is well formed.
    pub closed spec fn wf(&self) -> bool {
        self.storage.wf()
    }

    /// A pallet with no commitments, committing new tables with `default_schemes`.
    pub fn new(default_schemes: CommitmentSchemeFlags) -> (r: Self)
        ensures
            r.wf(),
            r.commitments() == Map::<(TableKey, CommitmentScheme), Seq<u8>>::empty(),
            r.default_commitment_schemes() == default_schemes,
    {
        let r = CommitmentsPallet { storage: VecMap::new(), default_schemes };
        assert(r.commitments() =~= Map::<(TableKey, CommitmentScheme), Seq<u8>>::empty());
        r
    }

    /// The commitment of `table` under `scheme`, if any.
    pub fn table_commitment(&self, table: &TableIdentifier, scheme: CommitmentScheme) -> (r: Option<
        Vec<u8>,
    >)
        requires
            self.wf(),
        ensures
            r is Some <==> self.commitments().contains_key((table@, scheme)),
            r matches Some(v) ==> v@ == self.commitments()[(table@, scheme)],
    {
        let k = CommitmentKey { table: table.duplicate(), scheme };
        match self.storage.get(&k) {
            Some(v) => Some(bytes_clone(v)),
            None => None,
        }
    }

    /// The commitments of `table`, one per scheme it has.
    pub fn commitments_of(&self, table: &TableIdentifier) -> (r: TableCommitmentBytesPerCommitmentScheme)
        requires
            self.wf(),
        ensures
            forall|s: CommitmentScheme|
                of_scheme(r@, s) == if self.commitments().contains_key((table@, s)) {
                    Some(self.commitments()[(table@, s)])
                } else {
                    None
                },
    {
        let r = TableCommitmentBytesPerCommitmentScheme {
            hyper_kzg: self.table_commitment(table, CommitmentScheme::HyperKzg),
            dynamic_dory: self.table_commitment(table, CommitmentScheme::DynamicDory),
        };
        assert forall|s: CommitmentScheme|
            of_scheme(r@, s) == if self.commitments().contains_key((table@, s)) {
                Some(self.commitments()[(table@, s)])
            } else {
                None
            } by {
            match s {
                CommitmentScheme::HyperKzg => {},
                CommitmentScheme::DynamicDory => {},
            }
        }
        r
    }

    fn set_commitment(&mut self, table: &TableIdentifier, scheme: CommitmentScheme, bytes: Vec<u8>)
        requires
            old(self).wf(),
        ensures
            final(self).wf(),
            final(self).commitments() == old(self).commitments().insert((table@, scheme), bytes@),
            final(self).default_schemes == old(self).default_schemes,
    {
        let ghost pre = self.commitments();
        let ghost b = bytes@;
        self.storage.insert(CommitmentKey { table: table.duplicate(), scheme }, bytes);
        assert(self.commitments() =~= pre.insert((table@, scheme), b));
    }

    fn set_commitments(&mut self, table: &TableIdentifier, c: &TableCommitmentBytesPerCommitmentScheme)
        requires
            old(self).wf(),
        ensures
            final(self).wf(),
            final(self).commitments() == with_commitments(old(self).commitments(), table@, c@),
            final(self).default_schemes == old(self).default_schemes,
    {
        match &c.hyper_kzg {
            Some(b) => self.set_commitment(table, CommitmentScheme::HyperKzg, bytes_clone(b)),
            None => {},
        }
        match &c.dynamic_dory {
            Some(b) => self.set_commitment(table, CommitmentScheme::DynamicDory, bytes_clone(b)),
            None => {},
        }
    }

    fn has_any(&self, table: &TableIdentifier) -> (r: bool)
        requires
            self.wf(),
        ensures
            r == has_any_commitment(self.commitments(), table@),
    {
        self.storage.contains_key(&CommitmentKey { table: table.duplicate(), scheme: CommitmentScheme::HyperKzg })
            || self.storage.contains_key(
            &CommitmentKey { table: table.duplicate(), scheme: CommitmentScheme::DynamicDory },
        )
    }

    /// Stores a new table's commitments; refused when the table has some.
    pub fn create_commitments(
        &mut self,
        table: TableIdentifier,
        commitments: &TableCommitmentBytesPerCommitmentScheme,
    ) -> (r: Result<(), KeyExistsError>)
        requires
            old(self).wf(),
        ensures
            final(self).wf(),
            final(self).default_commitment_schemes() == old(self).default_commitment_schemes(),
            r is Err <==> has_any_commitment(old(self).commitments(), table@),
            r matches Err(e) ==> e.key@ == table@ && final(self).commitments() == old(
                self,
            ).commitments(),
            r is Ok ==> final(self).commitments() == with_commitments(
                old(self).commitments(),
                table@,
                commitments@,
            ),
    {
        if self.has_any(&table) {
            return Err(KeyExistsError { key: table });
        }
        self.set_commitments(&table, commitments);
        Ok(())
    }

    /// Stores precomputed commitments for a new table.
    pub fn initiate_precomputed_commitments(
        &mut self,
        table: TableIdentifier,
        commitments: &TableCommitmentBytesPerCommitmentScheme,
    ) -> (r: Result<(), KeyExistsError>)
        requires
            old(self).wf(),
        ensures
            final(self).wf(),
            final(self).default_commitment_schemes() == old(self).default_commitment_schemes(),
            r is Err <==> has_any_commitment(old(self).commitments(), table@),
            r matches Err(e) ==> e.key@ == table@ && final(self).commitments() == old(
                self,
            ).commitments(),
            r is Ok ==> final(self).commitments() == with_commitments(
                old(self).commitments(),
                table@,
                commitments@,
            ),
    {
        self.create_commitments(table, commitments)
    }
}

/// The outcome of creating a table: its definition is validated, then the
/// commitments of its empty table (those of `flags`' schemes) are stored
/// under its identifier, unless that identifier has commitments already.
pub open spec fn create_table_outcome(
    pre: Map<(TableKey, CommitmentScheme), Seq<u8>>,
    t: CreateTable,
    flags: CommitmentSchemeFlags,
    empty: Result<(Option<Seq<u8>>, Option<Seq<u8>>), TableCommitmentToBytesError>,
) -> (Result<TableKey, CommitmentsError>, Map<(TableKey, CommitmentScheme), Seq<u8>>) {
    if create_table_error(t) is Some {
        (Err(create_table_error(t)->0), pre)
    } else {
        match empty {
            Err(e) => (Err(spec_to_bytes_error(e)), pre),
            Ok(c) => {
                let id = spec_table_identifier(t);
                if has_any_commitment(pre, id) {
                    (Err(CommitmentsError::TableAlreadyExists), pre)
                } else {
                    (Ok(id), with_commitments(pre, id, flagged(c, flags)))
                }
            },
        }
    }
}

/// The commitments of `flags`' schemes.
pub open spec fn flagged(c: (Option<Seq<u8>>, Option<Seq<u8>>), flags: CommitmentSchemeFlags) -> (
    Option<Seq<u8>>,
    Option<Seq<u8>>,
) {
    (
        if flags.hyper_kzg {
            c.0
        } else {
            None
        },
        if flags.dynamic_dory {
            c.1
        } else {
            None
        },
    )
}

/// The per-scheme value of a serialization result.
pub open spec fn bytes_result(
    r: Result<TableCommitmentBytesPerCommitmentScheme, TableCommitmentToBytesError>,
) -> Result<(Option<Seq<u8>>, Option<Seq<u8>>), TableCommitmentToBytesError> {
    match r {
        Ok(c) => Ok(c@),
        Err(e) => Err(e),
    }
}

/// The identifier of a result.
pub open spec fn id_result(r: Result<TableIdentifier, CommitmentsError>) -> Result<
    TableKey,
    CommitmentsError,
> {
    match r {
        Ok(id) => Ok(id@),
        Err(e) => Err(e),
    }
}

/// The outcome of creating a table from a snapshot: the snapshot must
/// decode, the definition must be valid, the snapshot must suit it, and the
/// identifier must have no commitments yet.
pub open spec fn snapshot_outcome(
    pre: Map<(TableKey, CommitmentScheme), Seq<u8>>,
    t: CreateTable,
    snapshot: Result<(Option<Seq<u8>>, Option<Seq<u8>>), SnapshotError>,
) -> (Result<TableKey, CommitmentsError>, Map<(TableKey, CommitmentScheme), Seq<u8>>) {
    if snapshot == Err::<(Option<Seq<u8>>, Option<Seq<u8>>), SnapshotError>(SnapshotError::Undecodable) {
        (Err(CommitmentsError::DeserializeCommitment), pre)
    } else if create_table_error(t) is Some {
        (Err(create_table_error(t)->0), pre)
    } else {
        match snapshot {
            Err(SnapshotError::ToBytes(e)) => (Err(spec_to_bytes_error(e)), pre),
            Err(_) => (Err(CommitmentsError::InappropriateSnapshotCommitments), pre),
            Ok(c) => {
                let id = spec_table_identifier(t);
                if has_any_commitment(pre, id) {
                    (Err(CommitmentsError::TableAlreadyExists), pre)
                } else {
                    (Ok(id), with_commitments(pre, id, c))
                }
            },
        }
    }
}

/// The per-scheme value of a snapshot result.
pub open spec fn snapshot_result(r: Result<TableCommitmentBytesPerCommitmentScheme, SnapshotError>) -> Result<
    (Option<Seq<u8>>, Option<Seq<u8>>),
    SnapshotError,
> {
    match r {
        Ok(c) => Ok(c@),
        Err(e) => Err(e),
    }
}

impl CommitmentsPallet {
    /// Validates a table definition and stores the commitments of its empty
    /// table for the schemes in `scheme`.  `empty_commitments` are the empty
    /// table's serialized commitments, as the proof system gave them.
    pub fn process_create_table_and_initiate_commitments_with_scheme(
        &mut self,
        create_table: &CreateTable,
        scheme: CommitmentSchemeFlags,
        empty_commitments: &Result<TableCommitmentBytesPerCommitmentScheme, TableCommitmentToBytesError>,
    ) -> (r: Result<TableIdentifier, CommitmentsError>)
        requires
            old(self).wf(),
        ensures
            final(self).wf(),
            final(self).default_commitment_schemes() == old(self).default_commitment_schemes(),
            (id_result(r), final(self).commitments()) == create_table_outcome(
                old(self).commitments(),
                *create_table,
                scheme,
                bytes_result(*empty_commitments),
            ),
    {
        let id = match validate_create_table(create_table) {
            Ok(id) => id,
            Err(e) => {
                return Err(e);
            },
        };
        let c = match empty_commitments {
            Ok(c) => c.only_schemes(scheme),
            Err(e) => {
                return Err(to_bytes_error(*e));
            },
        };
        proof {
            assert(c@ == flagged(empty_commitments->Ok_0@, scheme)) by {
                assert(of_scheme(c@, CommitmentScheme::HyperKzg) == flagged(
                    empty_commitments->Ok_0@,
                    scheme,
                ).0);
                assert(of_scheme(c@, CommitmentScheme::DynamicDory) == flagged(
                    empty_commitments->Ok_0@,
                    scheme,
                ).1);
            }
        }
        let key = id.duplicate();
        match self.create_commitments(key, &c) {
            Ok(()) => Ok(id),
            Err(_) => Err(CommitmentsError::TableAlreadyExists),
        }
    }

    /// Validates a table definition and stores the commitments of its empty
    /// table for the default schemes.
    pub fn process_create_table_and_initiate_commitments(
        &mut self,
        create_table: &CreateTable,
        empty_commitments: &Result<TableCommitmentBytesPerCommitmentScheme, TableCommitmentToBytesError>,
    ) -> (r: Result<TableIdentifier, CommitmentsError>)
        requires
            old(self).wf(),
        ensures
            final(self).wf(),
            final(self).default_commitment_schemes() == old(self).default_commitment_schemes(),
            (id_result(r), final(self).commitments()) == create_table_outcome(
                old(self).commitments(),
                *create_table,
                old(self).default_commitment_schemes(),
                bytes_result(*empty_commitments),
            ),
    {
        let schemes = self.default_schemes;
        self.process_create_table_and_initiate_commitments_with_scheme(create_table, schemes, empty_commitments)
    }

    /// Validates a table definition and stores the Dynamic Dory commitment of
    /// its empty table.
    pub fn process_create_table_and_initiate_commitments_with_dynamic_dory(
        &mut self,
        create_table: &CreateTable,
        empty_commitments: &Result<TableCommitmentBytesPerCommitmentScheme, TableCommitmentToBytesError>,
    ) -> (r: Result<TableIdentifier, CommitmentsError>)
        requires
            old(self).wf(),
        ensures
            final(self).wf(),
            final(self).default_commitment_schemes() == old(self).default_commitment_schemes(),
            (id_result(r), final(self).commitments()) == create_table_outcome(
                old(self).commitments(),
                *create_table,
                CommitmentSchemeFlags { hyper_kzg: false, dynamic_dory: true },
                bytes_result(*empty_commitments),
            ),
    {
        let scheme = CommitmentSchemeFlags { dynamic_dory: true, hyper_kzg: false };
        self.process_create_table_and_initiate_commitments_with_scheme(create_table, scheme, empty_commitments)
    }

    /// Validates a table definition and stores the commitments of a snapshot
    /// of it.  `snapshot` is what the proof system made of the snapshot's
    /// bytes: the commitments to store, or why they can't be.
    pub fn process_create_table_from_snapshot_and_initiate_commitments(
        &mut self,
        create_table: &CreateTable,
        snapshot: &Result<TableCommitmentBytesPerCommitmentScheme, SnapshotError>,
    ) -> (r: Result<TableIdentifier, CommitmentsError>)
        requires
            old(self).wf(),
        ensures
            final(self).wf(),
            final(self).default_commitment_schemes() == old(self).default_commitment_schemes(),
            (id_result(r), final(self).commitments()) == snapshot_outcome(
                old(self).commitments(),
                *create_table,
                snapshot_result(*snapshot),
            ),
    {
        match snapshot {
            Err(SnapshotError::Undecodable) => {
                return Err(CommitmentsError::DeserializeCommitment);
            },
            _ => {},
        }
        let id = match validate_create_table(create_table) {
            Ok(id) => id,
            Err(e) => {
                return Err(e);
            },
        };
        let c = match snapshot {
            Ok(c) => c,
            Err(SnapshotError::ToBytes(e)) => {
                return Err(to_bytes_error(*e));
            },
            Err(_) => {
                return Err(CommitmentsError::InappropriateSnapshotCommitments);
            },
        };
        let key = id.duplicate();
        match self.create_commitments(key, c) {
            Ok(()) => Ok(id),
            Err(_) => Err(CommitmentsError::TableAlreadyExists),
        }
    }

    /// Stores the commitments the proof system gave after an insert into
    /// `table`, or maps its refusal to the pallet's error.  The commitments
    /// it was given are those of `commitments_of(table)`.
    pub fn process_insert_and_update_commitments(
        &mut self,
        table: &TableIdentifier,
        updated: &Result<TableCommitmentBytesPerCommitmentScheme, ProcessInsertError>,
    ) -> (r: Result<(), CommitmentsError>)
        requires
            old(self).wf(),
        ensures
            final(self).wf(),
            final(self).default_commitment_schemes() == old(self).default_commitment_schemes(),
            match updated {
                Err(e) => r == Err::<(), CommitmentsError>(spec_insert_error(*e))
                    && final(self).commitments() == old(self).commitments(),
                Ok(c) => r is Ok && final(self).commitments() == with_commitments(
                    old(self).commitments(),
                    table@,
                    c@,
                ),
            },
    {
        match updated {
            Err(e) => Err(insert_error(*e)),
            Ok(c) => {
                self.set_commitments(table, c);
                Ok(())
            },
        }
    }

    /// The commitments of `scheme` for every table, in order, if every one
    /// has one.
    pub fn table_commitments(&self, tables: &Vec<TableIdentifier>, scheme: CommitmentScheme) -> (r:
        Option<Vec<Vec<u8>>>)
        requires
            self.wf(),
        ensures
            r is Some <==> covers(self.commitments(), tables_view(tables@), scheme),
            r matches Some(v) ==> bytes_list(v@) == commitments_for(
                self.commitments(),
                tables_view(tables@),
                scheme,
            ),
    {
        let ghost ts = tables_view(tables@);
        let mut out: Vec<Vec<u8>> = Vec::new();
        let mut i: usize = 0;
        while i < tables.len()
            invariant
                self.wf(),
                i <= tables@.len(),
                ts == tables_view(tables@),
                covers(self.commitments(), ts.take(i as int), scheme),
                bytes_list(out@) == commitments_for(self.commitments(), ts.take(i as int), scheme),
            decreases tables.len() - i,
        {
            match self.table_commitment(&tables[i], scheme) {
                Some(c) => {
                    let ghost prev = out@;
                    out.push(c);
                    proof {
                        assert(ts.take(i + 1) =~= ts.take(i as int).push(ts[i as int]));
                        assert(bytes_list(out@) =~= bytes_list(prev).push(out@.last()@));
                        assert(commitments_for(self.commitments(), ts.take(i + 1), scheme)
                            =~= commitments_for(self.commitments(), ts.take(i as int), scheme).push(
                            self.commitments()[(ts[i as int], scheme)],
                        ));
                        assert forall|j: int| 0 <= j < i + 1 implies self.commitments().contains_key(
                            (#[trigger] ts.take(i + 1)[j], scheme),
                        ) by {
                            if j < i {
                                assert(ts.take(i + 1)[j] == ts.take(i as int)[j]);
                            }
                        }
                    }
                },
                None => {
                    proof {
                        assert(!self.commitments().contains_key((ts[i as int], scheme)));
                    }
                    return None;
                },
            }
            i += 1;
        }
        assert(ts.take(ts.len() as int) =~= ts);
        Some(out)
    }

    /// The commitments of the first scheme, in priority order, that has one
    /// for every table.
    pub fn table_commitments_any_scheme(&self, tables: &Vec<TableIdentifier>) -> (r: Option<
        AnyTableCommitments,
    >)
        requires
            self.wf(),
        ensures
            covers(self.commitments(), tables_view(tables@), CommitmentScheme::HyperKzg) ==> (r matches Some(
                AnyTableCommitments::HyperKzg(v),
            ) && bytes_list(v@) == commitments_for(
                self.commitments(),
                tables_view(tables@),
                CommitmentScheme::HyperKzg,
            )),
            !covers(self.commitments(), tables_view(tables@), CommitmentScheme::HyperKzg) && covers(
                self.commitments(),
                tables_view(tables@),
                CommitmentScheme::DynamicDory,
            ) ==> (r matches Some(AnyTableCommitments::DynamicDory(v)) && bytes_list(v@)
                == commitments_for(
                self.commitments(),
                tables_view(tables@),
                CommitmentScheme::DynamicDory,
            )),
            !covers(self.commitments(), tables_view(tables@), CommitmentScheme::HyperKzg) && !covers(
                self.commitments(),
                tables_view(tables@),
                CommitmentScheme::DynamicDory,
            ) ==> r is None,
    {
        match self.table_commitments(tables, CommitmentScheme::HyperKzg) {
            Some(v) => Some(AnyTableCommitments::HyperKzg(v)),
            None => match self.table_commitments(tables, CommitmentScheme::DynamicDory) {
                Some(v) => Some(AnyTableCommitments::DynamicDory(v)),
                None => None,
            },
        }
    }
}

// ───────────────────────── dropping Dynamic Dory ─────────────────────────

/// The most storage entries one migration step visits.
pub const MAX_DELETIONS_PER_BLOCK: usize = 5;

/// Why a migration step could not run.
#[derive(Debug, Clone, Copy, PartialEq, Eq, Structural)]
pub enum SteppedMigrationError {
    /// Not even one entry can be visited with the weight left.
    InsufficientWeight {
        /// The weight of visiting one entry.
        required: Weight,
    },
    /// The step failed.
    Failed,
}

/// The views of a list of storage keys.
pub open spec fn keys_view(v: Seq<CommitmentKey>) -> Seq<(TableKey, CommitmentScheme)> {
    v.map_values(|k: CommitmentKey| k@)
}

/// The Dynamic Dory keys among `keys`.
pub open spec fn dynamic_dory_keys(keys: Seq<(TableKey, CommitmentScheme)>) -> Set<
    (TableKey, CommitmentScheme),
> {
    Set::new(
        |k: (TableKey, CommitmentScheme)| keys.contains(k) && k.1 == CommitmentScheme::DynamicDory,
    )
}

/// Steps that each go on from where the previous one stopped remove,
/// together, the Dynamic Dory commitments among all the keys they visited.
pub proof fn lemma_dynamic_dory_steps_compose(
    m: Map<(TableKey, CommitmentScheme), Seq<u8>>,
    ks: Seq<(TableKey, CommitmentScheme)>,
    n1: int,
    n2: int,
)
    requires
        0 <= n1,
        0 <= n2,
        n1 + n2 <= ks.len(),
    ensures
        m.remove_keys(dynamic_dory_keys(ks.take(n1))).remove_keys(
            dynamic_dory_keys(ks.skip(n1).take(n2)),
        ) == m.remove_keys(dynamic_dory_keys(ks.take(n1 + n2))),
{
    let t1 = ks.take(n1);
    let t2 = ks.skip(n1).take(n2);
    let t = ks.take(n1 + n2);
    let a = dynamic_dory_keys(t1);
    let b = dynamic_dory_keys(t2);
    let c = dynamic_dory_keys(t);
    assert(a + b =~= c) by {
        assert forall|k: (TableKey, CommitmentScheme)| c.contains(k) implies (a + b).contains(k) by {
            let j = choose|j: int| 0 <= j < t.len() && #[trigger] t[j] == k;
            if j < n1 {
                assert(t1[j] == k);
            } else {
                assert(t2[j - n1] == k);
            }
        }
        assert forall|k: (TableKey, CommitmentScheme)| (a + b).contains(k) implies c.contains(k) by {
            if a.contains(k) {
                let j = choose|j: int| 0 <= j < t1.len() && #[trigger] t1[j] == k;
                assert(t[j] == k);
            } else {
                let j = choose|j: int| 0 <= j < t2.len() && #[trigger] t2[j] == k;
                assert(t[n1 + j] == k);
            }
        }
    }
    assert(m.remove_keys(a).remove_keys(b) =~= m.remove_keys(c));
}

/// A walk whose steps visited every key of the storage leaves no Dynamic
/// Dory commitment, and keeps every other commitment as it was.
pub proof fn lemma_full_walk_clears_dynamic_dory(
    m: Map<(TableKey, CommitmentScheme), Seq<u8>>,
    ks: Seq<(TableKey, CommitmentScheme)>,
)
    requires
        forall|k: (TableKey, CommitmentScheme)| #[trigger] m.contains_key(k) ==> ks.contains(k),
    ensures
        forall|k: (TableKey, CommitmentScheme)| #[trigger]
            m.remove_keys(dynamic_dory_keys(ks)).contains_key(k) ==> k.1
                != CommitmentScheme::DynamicDory,
        forall|k: (TableKey, CommitmentScheme)|
            m.contains_key(k) && k.1 != CommitmentScheme::DynamicDory ==> #[trigger] m.remove_keys(
                dynamic_dory_keys(ks),
            ).contains_key(k) && m.remove_keys(dynamic_dory_keys(ks))[k] == m[k],
{
}

/// How many entries a step visits with `remaining` weight left, each
/// weighing `required`; `None` when `required` is zero.
pub open spec fn sub_steps(remaining: Weight, required: Weight) -> Option<nat> {
    match spec_div_per_component(remaining, required) {
        Some(n) => Some(if n < MAX_DELETIONS_PER_BLOCK { n as nat } else { MAX_DELETIONS_PER_BLOCK as nat }),
        None => None,
    }
}

/// The migration that deletes every Dynamic Dory commitment, a few entries
/// per block.
pub struct DeleteDynamicDoryCommitmentsLazyMigration;

impl DeleteDynamicDoryCommitmentsLazyMigration {
    /// Visits the next storage entries and deletes those of Dynamic Dory.
    /// `keys` are the storage keys after the cursor, in storage order (all
    /// keys when there is no cursor), as the storage walks them.  Returns
    /// the cursor to resume from, or `None` when the walk reached the end.
    pub fn step(
        pallet: &mut CommitmentsPallet,
        keys: &Vec<CommitmentKey>,
        meter: &mut WeightMeter,
        required: Weight,
    ) -> (r: Result<Option<CommitmentKey>, SteppedMigrationError>)
        requires
            old(pallet).wf(),
        ensures
            final(pallet).wf(),
            final(pallet).default_commitment_schemes() == old(pallet).default_commitment_schemes(),
            final(meter).spec_limit() == old(meter).spec_limit(),
            ({
                let remaining = Weight {
                    ref_time: crate::weights::sat_sub(old(meter).spec_limit().ref_time, old(meter).spec_consumed().ref_time),
                    proof_size: crate::weights::sat_sub(old(meter).spec_limit().proof_size, old(meter).spec_consumed().proof_size),
                };
                let ks = keys_view(keys@);
                if !(remaining.ref_time >= required.ref_time && remaining.proof_size >= required.proof_size) {
                    &&& r == Err::<Option<CommitmentKey>, SteppedMigrationError>(
                        SteppedMigrationError::InsufficientWeight { required },
                    )
                    &&& final(pallet).commitments() == old(pallet).commitments()
                    &&& *final(meter) == *old(meter)
                } else if sub_steps(remaining, required) is None {
                    &&& r == Err::<Option<CommitmentKey>, SteppedMigrationError>(SteppedMigrationError::Failed)
                    &&& final(pallet).commitments() == old(pallet).commitments()
                    &&& *final(meter) == *old(meter)
                } else {
                    let max = sub_steps(remaining, required)->0;
                    let n = if ks.len() < max { ks.len() } else { max };
                    let reached_end = n < max;
                    let num_read = if reached_end { n + 1 } else { n };
                    let cost_ref = sat_mul(required.ref_time, num_read as u64);
                    let cost_proof = sat_mul(required.proof_size, num_read as u64);
                    if !(old(meter).spec_consumed().ref_time + cost_ref <= old(meter).spec_limit().ref_time
                        && old(meter).spec_consumed().proof_size + cost_proof <= old(meter).spec_limit().proof_size) {
                        &&& r == Err::<Option<CommitmentKey>, SteppedMigrationError>(SteppedMigrationError::Failed)
                        &&& final(pallet).commitments() == old(pallet).commitments()
                    } else {
                        &&& final(meter).spec_consumed() == (Weight {
                            ref_time: (old(meter).spec_consumed().ref_time + cost_ref) as u64,
                            proof_size: (old(meter).spec_consumed().proof_size + cost_proof) as u64,
                        })
                        &&& final(pallet).commitments() == old(pallet).commitments().remove_keys(
                            dynamic_dory_keys(ks.take(n as int)),
                        )
                        &&& if reached_end {
                            r matches Ok(None)
                        } else {
                            r matches Ok(Some(k)) && k@ == ks[n - 1]
                        }
                    }
                }
            }),
    {
        let remaining = meter.remaining();
        if !remaining.all_gte(required) {
            return Err(SteppedMigrationError::InsufficientWeight { required });
        }
        let div = match remaining.checked_div_per_component(required) {
            Some(d) => d,
            None => {
                return Err(SteppedMigrationError::Failed);
            },
        };
        proof {
            if required.ref_time > 0 {
                assert(remaining.ref_time / required.ref_time >= 1) by (nonlinear_arith)
                    requires
                        remaining.ref_time >= required.ref_time,
                        required.ref_time > 0,
                ;
            }
            if required.proof_size > 0 {
                assert(remaining.proof_size / required.proof_size >= 1) by (nonlinear_arith)
                    requires
                        remaining.proof_size >= required.proof_size,
                        required.proof_size > 0,
                ;
            }
            assert(div >= 1);
        }
        let max: usize = if div < 5 {
            div as usize
        } else {
            MAX_DELETIONS_PER_BLOCK
        };
        let n: usize = if keys.len() < max {
            keys.len()
        } else {
            max
        };
        let reached_end = n < max;
        let num_read: usize = if reached_end {
            n + 1
        } else {
            n
        };
        let cost = required.saturating_mul(num_read as u64);
        match meter.try_consume(cost) {
            Ok(()) => {},
            Err(()) => {
                return Err(SteppedMigrationError::Failed);
            },
        }
        let ghost ks = keys_view(keys@);
        let ghost m0 = pallet.commitments();
        let mut i: usize = 0;
        while i < n
            invariant
                pallet.wf(),
                pallet.default_commitment_schemes() == old(pallet).default_commitment_schemes(),
                i <= n,
                n <= keys@.len(),
                ks == keys_view(keys@),
                pallet.commitments() == m0.remove_keys(dynamic_dory_keys(ks.take(i as int))),
            decreases n - i,
        {
            let ghost before = pallet.commitments();
            if keys[i].scheme == CommitmentScheme::DynamicDory {
                pallet.remove_commitment(&keys[i].table, CommitmentScheme::DynamicDory);
            }
            proof {
                let t0 = ks.take(i as int);
                let t1 = ks.take(i + 1);
                let s0 = dynamic_dory_keys(t0);
                let s1 = dynamic_dory_keys(t1);
                let x = ks[i as int];
                assert(x == keys@[i as int]@);
                assert forall|k: (TableKey, CommitmentScheme)|
                    #[trigger] s1.contains(k) == (s0.contains(k) || (k == x && k.1
                        == CommitmentScheme::DynamicDory)) by {
                    if t1.contains(k) {
                        let j = choose|j: int| 0 <= j < t1.len() && t1[j] == k;
                        if j < i {
                            assert(t0[j] == k);
                        }
                    }
                    if t0.contains(k) {
                        let j = choose|j: int| 0 <= j < t0.len() && t0[j] == k;
                        assert(t1[j] == k);
                    }
                    if k == x {
                        assert(t1[i as int] == k);
                    }
                }
                assert(pallet.commitments() =~= m0.remove_keys(s1));
            }
            i += 1;
        }
        if reached_end {
            Ok(None)
        } else {
            Ok(Some(keys[n - 1].key_clone()))
        }
    }
}

impl CommitmentsPallet {
    /// Deletes the commitment of `table` under `scheme`, if any.
    pub fn remove_commitment(&mut self, table: &TableIdentifier, scheme: CommitmentScheme)
        requires
            old(self).wf(),
        ensures
            final(self).wf(),
            final(self).commitments() == old(self).commitments().remove((table@, scheme)),
            final(self).default_commitment_schemes() == old(self).default_commitment_schemes(),
    {
        let ghost pre = self.commitments();
        let _ = self.storage.remove(&CommitmentKey { table: table.duplicate(), scheme });
        assert(self.commitments() =~= pre.remove((table@, scheme)));
    }
}

/// Once a table is created with at least one commitment, creating it again
/// — with any schemes and commitments — is refused with
/// `TableAlreadyExists` and changes nothing; and each stored commitment
/// reads back as given.
pub proof fn lemma_create_table_twice_refused(
    pre: Map<(TableKey, CommitmentScheme), Seq<u8>>,
    t: CreateTable,
    flags: CommitmentSchemeFlags,
    c: (Option<Seq<u8>>, Option<Seq<u8>>),
    flags2: CommitmentSchemeFlags,
    c2: (Option<Seq<u8>>, Option<Seq<u8>>),
)
    requires
        create_table_outcome(pre, t, flags, Ok(c)).0 is Ok,
        flagged(c, flags).0 is Some || flagged(c, flags).1 is Some,
    ensures
        ({
            let (r1, m1) = create_table_outcome(pre, t, flags, Ok(c));
            let id = spec_table_identifier(t);
            &&& r1 == Ok::<TableKey, CommitmentsError>(id)
            &&& forall|s: CommitmentScheme|
                #[trigger] of_scheme(flagged(c, flags), s) is Some ==> m1[(id, s)] == of_scheme(
                    flagged(c, flags),
                    s,
                )->0
            &&& create_table_outcome(m1, t, flags2, Ok(c2)) == (
                Err::<TableKey, CommitmentsError>(CommitmentsError::TableAlreadyExists),
                m1,
            )
        }),
{
    let id = spec_table_identifier(t);
    let m1 = create_table_outcome(pre, t, flags, Ok(c)).1;
    assert(has_any_commitment(m1, id));
    assert forall|s: CommitmentScheme| of_scheme(flagged(c, flags), s) is Some implies m1[(
        id,
        s,
    )] == of_scheme(flagged(c, flags), s)->0 by {
        match s {
            CommitmentScheme::HyperKzg => {},
            CommitmentScheme::DynamicDory => {},
        }
    }
}

} // verus!
