use sxt_pallets::commitments::{
    ColumnDef, ColumnOption, ColumnType, CommitmentScheme, CommitmentSchemeFlags,
    CommitmentsError, CommitmentsPallet, CreateTable, DecimalParameters, SnapshotError,
    TableCommitmentBytesPerCommitmentScheme, TableCommitmentToBytesError,
};
use sxt_pallets::types::TableIdentifier;

fn column(name: &str, data_type: ColumnType, options: Vec<ColumnOption>) -> ColumnDef {
    ColumnDef { name: name.as_bytes().to_vec(), data_type, options }
}

fn not_null(name: &str, data_type: ColumnType) -> ColumnDef {
    column(name, data_type, vec![ColumnOption::NotNull])
}

fn table(name: &[&str], columns: Vec<ColumnDef>) -> CreateTable {
    CreateTable { name: name.iter().map(|p| p.as_bytes().to_vec()).collect(), columns }
}

/// `CREATE TABLE animal.population (animal VARCHAR NOT NULL, population BIGINT NOT NULL,
/// PRIMARY KEY (animal))`
fn animal_population() -> CreateTable {
    table(
        &["animal", "population"],
        vec![
            not_null("animal", ColumnType::Varchar(None)),
            not_null("population", ColumnType::BigInt),
        ],
    )
}

fn some_commitments() -> TableCommitmentBytesPerCommitmentScheme {
    TableCommitmentBytesPerCommitmentScheme { hyper_kzg: Some(vec![1, 2, 3]), dynamic_dory: Some(vec![4, 5]) }
}

fn default_pallet() -> CommitmentsPallet {
    CommitmentsPallet::new(CommitmentSchemeFlags { hyper_kzg: true, dynamic_dory: true })
}

/// Parameters of one of the "create table" calls.
trait CreateTableApiTestParams {
    fn new_valid() -> Self;
    fn set_sql_statement(&mut self, statement: CreateTable);
    fn execute(self, pallet: &mut CommitmentsPallet) -> Result<TableIdentifier, CommitmentsError>;
}

struct ProcessCreateTableTestParams {
    statement: CreateTable,
}

impl CreateTableApiTestParams for ProcessCreateTableTestParams {
    fn new_valid() -> Self {
        ProcessCreateTableTestParams { statement: animal_population() }
    }

    fn set_sql_statement(&mut self, statement: CreateTable) {
        self.statement = statement;
    }

    fn execute(self, pallet: &mut CommitmentsPallet) -> Result<TableIdentifier, CommitmentsError> {
        pallet.process_create_table_and_initiate_commitments(&self.statement, &Ok(some_commitments()))
    }
}

struct ProcessCreateTableFromSnapshotTestParams {
    statement: CreateTable,
    snapshot: Result<TableCommitmentBytesPerCommitmentScheme, SnapshotError>,
}

impl CreateTableApiTestParams for ProcessCreateTableFromSnapshotTestParams {
    fn new_valid() -> Self {
        ProcessCreateTableFromSnapshotTestParams { statement: animal_population(), snapshot: Ok(some_commitments()) }
    }

    fn set_sql_statement(&mut self, statement: CreateTable) {
        self.statement = statement;
    }

    fn execute(self, pallet: &mut CommitmentsPallet) -> Result<TableIdentifier, CommitmentsError> {
        pallet.process_create_table_from_snapshot_and_initiate_commitments(&self.statement, &self.snapshot)
    }
}

fn assert_noop<P: CreateTableApiTestParams>(statement: CreateTable, expected: CommitmentsError) {
    let mut pallet = default_pallet();
    let mut params = P::new_valid();
    params.set_sql_statement(statement);
    assert_eq!(params.execute(&mut pallet), Err(expected));
    let id = TableIdentifier::new(b"ANIMAL".to_vec(), b"POPULATION".to_vec());
    assert_eq!(pallet.table_commitment(&id, CommitmentScheme::HyperKzg), None);
    assert_eq!(pallet.table_commitment(&id, CommitmentScheme::DynamicDory), None);
}

fn we_cannot_process_invalid_create_table<P: CreateTableApiTestParams>() {
    // no columns
    assert_noop::<P>(table(&["animal", "population"], vec![]), CommitmentsError::CreateTableWithNoColumns);

    // invalid identifier
    assert_noop::<P>(
        table(
            &["global", "animal", "population"],
            vec![not_null("animal", ColumnType::Varchar(None)), not_null("population", ColumnType::BigInt)],
        ),
        CommitmentsError::CreateTableWithInvalidTableIdentifierCount,
    );

    // duplicate identifier
    assert_noop::<P>(
        table(
            &["animal", "population"],
            vec![not_null("animal", ColumnType::Varchar(None)), not_null("animal", ColumnType::BigInt)],
        ),
        CommitmentsError::CreateTableWithDuplicateIdentifiers,
    );

    // reserved prefix
    assert_noop::<P>(
        table(
            &["animal", "population"],
            vec![not_null("animal", ColumnType::Varchar(None)), not_null("meta_population", ColumnType::BigInt)],
        ),
        CommitmentsError::CreateTableWithReservedMetadataPrefix,
    );

    // nullable column
    assert_noop::<P>(
        table(
            &["animal", "population"],
            vec![
                not_null("animal", ColumnType::Varchar(None)),
                column("population", ColumnType::BigInt, vec![ColumnOption::Null]),
            ],
        ),
        CommitmentsError::ColumnWithoutNotNull,
    );

    // unsupported option
    assert_noop::<P>(
        table(
            &["animal", "population"],
            vec![
                not_null("animal", ColumnType::Varchar(None)),
                column("population", ColumnType::BigInt, vec![ColumnOption::NotNull, ColumnOption::Default]),
            ],
        ),
        CommitmentsError::ColumnWithUnsupportedOption,
    );
}

fn we_cannot_process_create_table_with_unsupported_column<P: CreateTableApiTestParams>() {
    // unsupported type parameter
    assert_noop::<P>(
        table(
            &["animal", "population"],
            vec![
                not_null("animal", ColumnType::Varchar(None)),
                not_null("population", ColumnType::BigInt),
                not_null("time", ColumnType::Timestamp(Some(9))),
            ],
        ),
        CommitmentsError::SupportedColumnWithUnsupportedParameter,
    );

    // invalid decimal scale
    assert_noop::<P>(
        table(
            &["animal", "population"],
            vec![
                not_null("animal", ColumnType::Varchar(None)),
                not_null("population", ColumnType::Decimal(DecimalParameters::PrecisionAndScale(75, 128))),
            ],
        ),
        CommitmentsError::DecimalColumnWithInvalidScale,
    );

    // unsupported data type
    assert_noop::<P>(
        table(
            &["animal", "population"],
            vec![
                not_null("animal", ColumnType::Varchar(None)),
                not_null("population", ColumnType::Other(b"REAL".to_vec())),
            ],
        ),
        CommitmentsError::ColumnWithUnsupportedDataType,
    );
}

fn we_cannot_process_create_table_twice<P: CreateTableApiTestParams>() {
    let mut pallet = default_pallet();
    assert!(P::new_valid().execute(&mut pallet).is_ok());
    let id = TableIdentifier::new(b"ANIMAL".to_vec(), b"POPULATION".to_vec());
    let before_hyper_kzg = pallet.table_commitment(&id, CommitmentScheme::HyperKzg);
    let before_dynamic_dory = pallet.table_commitment(&id, CommitmentScheme::DynamicDory);
    assert_eq!(P::new_valid().execute(&mut pallet), Err(CommitmentsError::TableAlreadyExists));
    assert_eq!(pallet.table_commitment(&id, CommitmentScheme::HyperKzg), before_hyper_kzg);
    assert_eq!(pallet.table_commitment(&id, CommitmentScheme::DynamicDory), before_dynamic_dory);
}

#[test]
fn test_create_table_we_cannot_process_invalid_create_table_from_snapshot() {
    we_cannot_process_invalid_create_table::<ProcessCreateTableTestParams>()
}

#[test]
fn test_create_table_we_cannot_process_create_table_with_unsupported_column_from_snapshot() {
    we_cannot_process_create_table_with_unsupported_column::<ProcessCreateTableTestParams>()
}

#[test]
fn we_cannot_process_create_table_if_table_already_exists() {
    we_cannot_process_create_table_twice::<ProcessCreateTableTestParams>()
}

#[test]
fn test_create_table_from_snapshot_we_cannot_process_invalid_create_table_from_snapshot() {
    we_cannot_process_invalid_create_table::<ProcessCreateTableFromSnapshotTestParams>()
}

#[test]
fn test_create_table_from_snapshot_we_cannot_process_create_table_with_unsupported_column_from_snapshot() {
    we_cannot_process_create_table_with_unsupported_column::<ProcessCreateTableFromSnapshotTestParams>()
}

#[test]
fn we_cannot_process_create_table_from_snapshot_if_table_already_exists() {
    we_cannot_process_create_table_twice::<ProcessCreateTableFromSnapshotTestParams>()
}

#[test]
fn we_can_process_create_table() {
    let mut pallet = default_pallet();
    let id = pallet
        .process_create_table_and_initiate_commitments(&animal_population(), &Ok(some_commitments()))
        .unwrap();
    assert_eq!(id, TableIdentifier::new(b"ANIMAL".to_vec(), b"POPULATION".to_vec()));
    assert_eq!(pallet.table_commitment(&id, CommitmentScheme::HyperKzg), Some(vec![1, 2, 3]));
    assert_eq!(pallet.table_commitment(&id, CommitmentScheme::DynamicDory), Some(vec![4, 5]));
}

#[test]
fn we_can_process_create_table_from_snapshot() {
    let mut pallet = default_pallet();
    let snapshot = TableCommitmentBytesPerCommitmentScheme { hyper_kzg: None, dynamic_dory: Some(vec![9, 9]) };
    let id = pallet
        .process_create_table_from_snapshot_and_initiate_commitments(&animal_population(), &Ok(snapshot))
        .unwrap();
    assert_eq!(id, TableIdentifier::new(b"ANIMAL".to_vec(), b"POPULATION".to_vec()));
    assert_eq!(pallet.table_commitment(&id, CommitmentScheme::HyperKzg), None);
    assert_eq!(pallet.table_commitment(&id, CommitmentScheme::DynamicDory), Some(vec![9, 9]));
}

#[test]
fn we_cannot_process_create_table_from_inappropriate_snapshot() {
    let mut pallet = default_pallet();
    assert_eq!(
        pallet.process_create_table_from_snapshot_and_initiate_commitments(
            &animal_population(),
            &Err(SnapshotError::Inappropriate)
        ),
        Err(CommitmentsError::InappropriateSnapshotCommitments)
    );
    assert_eq!(
        pallet.process_create_table_from_snapshot_and_initiate_commitments(
            &animal_population(),
            &Err(SnapshotError::Undecodable)
        ),
        Err(CommitmentsError::DeserializeCommitment)
    );
    // an undecodable snapshot is refused before the definition is looked at
    assert_eq!(
        pallet.process_create_table_from_snapshot_and_initiate_commitments(
            &table(&["animal", "population"], vec![]),
            &Err(SnapshotError::Undecodable)
        ),
        Err(CommitmentsError::DeserializeCommitment)
    );
    let id = TableIdentifier::new(b"ANIMAL".to_vec(), b"POPULATION".to_vec());
    assert_eq!(pallet.table_commitment(&id, CommitmentScheme::DynamicDory), None);
}

#[test]
fn we_can_process_create_table_with_dynamic_dory_only() {
    let mut pallet = default_pallet();
    let id = pallet
        .process_create_table_and_initiate_commitments_with_dynamic_dory(&animal_population(), &Ok(some_commitments()))
        .unwrap();
    assert_eq!(pallet.table_commitment(&id, CommitmentScheme::HyperKzg), None);
    assert_eq!(pallet.table_commitment(&id, CommitmentScheme::DynamicDory), Some(vec![4, 5]));
}

#[test]
fn serialization_errors_are_mapped() {
    let mut pallet = default_pallet();
    assert_eq!(
        pallet.process_create_table_and_initiate_commitments(
            &animal_population(),
            &Err(TableCommitmentToBytesError::TooManyColumns)
        ),
        Err(CommitmentsError::CommitmentWithTooManyColumns)
    );
    assert_eq!(
        pallet.process_create_table_and_initiate_commitments(
            &animal_population(),
            &Err(TableCommitmentToBytesError::Postcard)
        ),
        Err(CommitmentsError::SerializeCommitment)
    );
}

#[test]
fn decimal_and_identifier_rules() {
    let cases = vec![
        (ColumnType::Decimal(DecimalParameters::Unconstrained), Err(CommitmentsError::DecimalColumnWithoutPrecision)),
        (ColumnType::Decimal(DecimalParameters::Precision(0)), Err(CommitmentsError::DecimalColumnWithInvalidPrecision)),
        (ColumnType::Decimal(DecimalParameters::Precision(76)), Err(CommitmentsError::DecimalColumnWithInvalidPrecision)),
        (ColumnType::Decimal(DecimalParameters::PrecisionAndScale(75, 127)), Ok(())),
        (ColumnType::Decimal(DecimalParameters::PrecisionAndScale(75, 0)), Ok(())),
        (ColumnType::Varchar(Some(10)), Err(CommitmentsError::SupportedColumnWithUnsupportedParameter)),
        (ColumnType::Timestamp(None), Ok(())),
        (ColumnType::Boolean, Ok(())),
        (ColumnType::VarBinary, Ok(())),
    ];
    for (data_type, expected) in cases {
        let mut pallet = default_pallet();
        let t = table(&["animal", "population"], vec![not_null("animal", ColumnType::Varchar(None)), not_null("v", data_type)]);
        let r = pallet.process_create_table_and_initiate_commitments(&t, &Ok(some_commitments()));
        assert_eq!(r.map(|_| ()), expected);
    }
    // identifiers are compared in upper case
    let mut pallet = default_pallet();
    let t = table(
        &["animal", "population"],
        vec![not_null("Animal", ColumnType::Varchar(None)), not_null("ANIMAL", ColumnType::BigInt)],
    );
    assert_eq!(
        pallet.process_create_table_and_initiate_commitments(&t, &Ok(some_commitments())),
        Err(CommitmentsError::CreateTableWithDuplicateIdentifiers)
    );
    let t = table(&["animal", "population"], vec![not_null("Meta_x", ColumnType::BigInt)]);
    assert_eq!(
        pallet.process_create_table_and_initiate_commitments(&t, &Ok(some_commitments())),
        Err(CommitmentsError::CreateTableWithReservedMetadataPrefix)
    );
}
