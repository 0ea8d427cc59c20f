//! The connector registry: the descriptions a connection carries, the
//! interface every connector offers the engine, and the dispatch from
//! a connection's configuration to the connector that serves it.

use vstd::prelude::*;

use crate::epoch::SourceState;
use crate::types::{Operation, SourceSchema};

verus! {

/// Failures raised by connectors.
#[derive(Clone, PartialEq, Eq, Debug)]
pub enum ConnectorError {
    MissingConfiguration(String),
    MissingProvider(String),
    TableNotFound(String),
}

/// Description of one requested table.
#[derive(Clone, PartialEq, Eq, Debug)]
pub struct TableInfo {
    pub name: String,
    pub table_name: String,
    pub id: u32,
    pub columns: Option<Vec<ColumnInfo>>,
}

/// Description of one column of a requested table.
#[derive(Clone, PartialEq, Eq, Debug)]
pub struct ColumnInfo {
    pub name: String,
    pub data_type: Option<String>,
}

impl ColumnInfo {
    pub fn new(name: String, data_type: Option<String>) -> (r: Self)
        ensures
            r.name == name,
            r.data_type == data_type,
    {
        ColumnInfo { name, data_type }
    }
}

/// Per-table validation outcomes, keyed by table name.
pub type ValidationResults = Vec<(String, Vec<(Option<String>, Result<(), ConnectorError>)>)>;

/// The sink the engine hands a running connector: operations pumped
/// by the connector are collected here in order.
pub struct Ingestor {
    pub ops: Vec<Operation>,
}

impl Ingestor {
    pub fn new() -> (r: Self)
        ensures
            r.ops@.len() == 0,
    {
        Ingestor { ops: Vec::new() }
    }

    /// Accepts one operation from the connector.
    pub fn handle_message(&mut self, op: Operation)
        ensures
            final(self).ops@ == old(self).ops@.push(op),
    {
        self.ops.push(op);
    }
}

/// What every connector offers the engine.
pub trait Connector {
    fn validate(&self, tables: Option<Vec<TableInfo>>) -> Result<(), ConnectorError>;

    fn validate_schemas(&self, tables: &Vec<TableInfo>) -> Result<
        ValidationResults,
        ConnectorError,
    >;

    fn get_schemas(&self, table_names: Option<Vec<TableInfo>>) -> Result<
        Vec<SourceSchema>,
        ConnectorError,
    >;

    fn can_start_from(&self, last_checkpoint: SourceState) -> Result<bool, ConnectorError>;

    fn start(
        &self,
        last_checkpoint: Option<SourceState>,
        ingestor: &mut Ingestor,
        tables: Vec<TableInfo>,
    ) -> Result<(), ConnectorError>;

    fn get_tables(&self, tables: Option<&Vec<TableInfo>>) -> Result<Vec<TableInfo>, ConnectorError>;
}

/// The default table list a connector derives from its schemas: one
/// table per schema, named after it, with one column per field.
pub fn tables_from_schemas(schemas: &Vec<SourceSchema>) -> (r: Vec<TableInfo>)
    requires
        schemas@.len() <= u32::MAX,
    ensures
        r@.len() == schemas@.len(),
        forall|i: int|
            0 <= i < r@.len() ==> {
                let t = #[trigger] r@[i];
                &&& t.name@ == schemas@[i].name@
                &&& t.table_name@ == schemas@[i].name@
                &&& t.id == i
                &&& t.columns matches Option::Some(cols) && cols@.len() == schemas@[i].schema.fields@.len() && (forall|f: int|
                    0 <= f < cols@.len() ==> (#[trigger] cols@[f]).name@
                        == schemas@[i].schema.fields@[f].name@ && cols@[f].data_type is Some
                        && cols@[f].data_type->0@ == spec_field_type_name(
                        schemas@[i].schema.fields@[f].typ,
                    ))
            },
{
    let mut r: Vec<TableInfo> = Vec::new();
    let mut i: usize = 0;
    while i < schemas.len()
        invariant
            schemas@.len() <= u32::MAX,
            i <= schemas@.len(),
            r@.len() == i,
            forall|j: int|
                0 <= j < i ==> {
                    let t = #[trigger] r@[j];
                    &&& t.name@ == schemas@[j].name@
                    &&& t.table_name@ == schemas@[j].name@
                    &&& t.id == j
                    &&& t.columns matches Option::Some(cols) && cols@.len() == schemas@[j].schema.fields@.len() && (forall|f: int|
                        0 <= f < cols@.len() ==> (#[trigger] cols@[f]).name@
                            == schemas@[j].schema.fields@[f].name@ && cols@[f].data_type is Some
                            && cols@[f].data_type->0@ == spec_field_type_name(
                            schemas@[j].schema.fields@[f].typ,
                        ))
                },
        decreases schemas@.len() - i,
    {
        let s = &schemas[i];
        let mut columns: Vec<ColumnInfo> = Vec::new();
        let mut f: usize = 0;
        while f < s.schema.fields.len()
            invariant
                i < schemas@.len(),
                s == schemas@[i as int],
                f <= s.schema.fields@.len(),
                columns@.len() == f,
                forall|g: int|
                    0 <= g < f ==> (#[trigger] columns@[g]).name@ == s.schema.fields@[g].name@
                        && columns@[g].data_type is Some && columns@[g].data_type->0@
                        == spec_field_type_name(s.schema.fields@[g].typ),
            decreases s.schema.fields@.len() - f,
        {
            let fd = &s.schema.fields[f];
            columns.push(
                ColumnInfo::new(fd.name.clone(), Option::Some(field_type_name(fd.typ))),
            );
            f += 1;
        }
        r.push(
            TableInfo {
                name: s.name.clone(),
                table_name: s.name.clone(),
                id: i as u32,
                columns: Option::Some(columns),
            },
        );
        i += 1;
    }
    r
}

/// The display name of a field type.
pub open spec fn spec_field_type_name(t: crate::types::FieldType) -> Seq<char> {
    match t {
        crate::types::FieldType::UInt => "uint"@,
        crate::types::FieldType::Int => "int"@,
        crate::types::FieldType::Boolean => "boolean"@,
        crate::types::FieldType::String => "string"@,
        crate::types::FieldType::Text => "text"@,
        crate::types::FieldType::Binary => "binary"@,
    }
}

/// Renders a field type's display name.
pub fn field_type_name(t: crate::types::FieldType) -> (r: String)
    ensures
        r@ == spec_field_type_name(t),
{
    match t {
        crate::types::FieldType::UInt => String::from_str("uint"),
        crate::types::FieldType::Int => String::from_str("int"),
        crate::types::FieldType::Boolean => String::from_str("boolean"),
        crate::types::FieldType::String => String::from_str("string"),
        crate::types::FieldType::Text => String::from_str("text"),
        crate::types::FieldType::Binary => String::from_str("binary"),
    }
}

/// Provider selection inside a blockchain connection.
#[derive(Clone, PartialEq, Eq, Debug)]
pub enum EthProviderConfig {
    Log,
    Trace,
}

/// The configuration a connection carries, by connected system.
#[derive(Clone, PartialEq, Eq, Debug)]
pub enum ConnectionConfig {
    Postgres,
    Ethereum { provider: Option<EthProviderConfig> },
    Grpc,
    Snowflake,
    Kafka,
    S3Storage,
    LocalStorage,
}

/// A named connection with its optional configuration.
#[derive(Clone, PartialEq, Eq, Debug)]
pub struct Connection {
    pub name: String,
    pub config: Option<ConnectionConfig>,
}

/// Which connector serves a connection.
#[derive(Clone, PartialEq, Eq, Debug)]
pub enum ConnectorKind {
    Postgres { name: String },
    EthLog { name: String },
    EthTrace { name: String },
    Grpc { name: String },
    Snowflake { name: String },
    Kafka,
    ObjectStore,
}

/// Picks the connector a connection is served by.  A connection
/// without configuration is rejected; a blockchain connection must
/// name its provider.
pub fn get_connector(connection: Connection) -> (r: Result<ConnectorKind, ConnectorError>)
    ensures
        connection.config is None ==> (r matches Result::Err(e) && e
            matches ConnectorError::MissingConfiguration(n) && n@ == connection.name@),
        connection.config matches Option::Some(c) ==> match c {
            ConnectionConfig::Postgres => (r matches Result::Ok(k) && k
                matches ConnectorKind::Postgres { name } && name@ == connection.name@),
            ConnectionConfig::Ethereum { provider } => match provider {
                Option::Some(EthProviderConfig::Log) => (r matches Result::Ok(k) && k
                    matches ConnectorKind::EthLog { name } && name@ == connection.name@),
                Option::Some(EthProviderConfig::Trace) => (r matches Result::Ok(k) && k
                    matches ConnectorKind::EthTrace { name } && name@ == connection.name@),
                Option::None => (r matches Result::Err(e) && e
                    matches ConnectorError::MissingProvider(n) && n@ == connection.name@),
            },
            ConnectionConfig::Grpc => (r matches Result::Ok(k) && k
                matches ConnectorKind::Grpc { name } && name@ == connection.name@),
            ConnectionConfig::Snowflake => (r matches Result::Ok(k) && k
                matches ConnectorKind::Snowflake { name } && name@ == connection.name@),
            ConnectionConfig::Kafka => r == Result::<ConnectorKind, ConnectorError>::Ok(
                ConnectorKind::Kafka,
            ),
            ConnectionConfig::S3Storage => r == Result::<ConnectorKind, ConnectorError>::Ok(
                ConnectorKind::ObjectStore,
            ),
            ConnectionConfig::LocalStorage => r == Result::<ConnectorKind, ConnectorError>::Ok(
                ConnectorKind::ObjectStore,
            ),
        },
{
    let config = match connection.config {
        Option::Some(c) => c,
        Option::None => {
            return Result::Err(ConnectorError::MissingConfiguration(connection.name));
        }
    };
    match config {
        ConnectionConfig::Postgres => Result::Ok(
            ConnectorKind::Postgres { name: connection.name },
        ),
        ConnectionConfig::Ethereum { provider } => match provider {
            Option::Some(EthProviderConfig::Log) => Result::Ok(
                ConnectorKind::EthLog { name: connection.name },
            ),
            Option::Some(EthProviderConfig::Trace) => Result::Ok(
                ConnectorKind::EthTrace { name: connection.name },
            ),
            Option::None => Result::Err(ConnectorError::MissingProvider(connection.name)),
        },
        ConnectionConfig::Grpc => Result::Ok(ConnectorKind::Grpc { name: connection.name }),
        ConnectionConfig::Snowflake => Result::Ok(
            ConnectorKind::Snowflake { name: connection.name },
        ),
        ConnectionConfig::Kafka => Result::Ok(ConnectorKind::Kafka),
        ConnectionConfig::S3Storage => Result::Ok(ConnectorKind::ObjectStore),
        ConnectionConfig::LocalStorage => Result::Ok(ConnectorKind::ObjectStore),
    }
}

/// A renderable description of a connection's configuration: rows of
/// label/value pairs for display.
#[derive(Clone, PartialEq, Eq, Debug)]
pub struct ConnectorInfoTable {
    pub rows: Vec<(String, String)>,
}

/// The display name of a connection's configured system.
pub open spec fn spec_config_type_name(c: ConnectionConfig) -> Seq<char> {
    match c {
        ConnectionConfig::Postgres => "postgres"@,
        ConnectionConfig::Ethereum { .. } => "ethereum"@,
        ConnectionConfig::Grpc => "grpc"@,
        ConnectionConfig::Snowflake => "snowflake"@,
        ConnectionConfig::Kafka => "kafka"@,
        ConnectionConfig::S3Storage => "s3storage"@,
        ConnectionConfig::LocalStorage => "localstorage"@,
    }
}

/// Describes a configured connection for display; a connection
/// without configuration has nothing to show.
pub fn get_connector_info_table(connection: &Connection) -> (r: Option<ConnectorInfoTable>)
    ensures
        r is Some <==> connection.config is Some,
        r matches Option::Some(t) ==> t.rows@.len() == 1 && t.rows@[0].0@ == "connection_type"@
            && t.rows@[0].1@ == spec_config_type_name(connection.config->0),
{
    let kind_name = match &connection.config {
        Option::Some(ConnectionConfig::Postgres) => String::from_str("postgres"),
        Option::Some(ConnectionConfig::Ethereum { .. }) => String::from_str("ethereum"),
        Option::Some(ConnectionConfig::Grpc) => String::from_str("grpc"),
        Option::Some(ConnectionConfig::Snowflake) => String::from_str("snowflake"),
        Option::Some(ConnectionConfig::Kafka) => String::from_str("kafka"),
        Option::Some(ConnectionConfig::S3Storage) => String::from_str("s3storage"),
        Option::Some(ConnectionConfig::LocalStorage) => String::from_str("localstorage"),
        Option::None => {
            return Option::None;
        }
    };
    let mut rows: Vec<(String, String)> = Vec::new();
    rows.push((String::from_str("connection_type"), kind_name));
    Option::Some(ConnectorInfoTable { rows })
}

} // verus!
