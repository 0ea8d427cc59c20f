//! The typed record model flowing through the engine: field values,
//! field definitions, schemas, records and the operation variants that
//! travel on every edge of the execution graph.

use vstd::prelude::*;

verus! {

/// A single dynamically typed value inside a record.
///
/// The engine carries rows whose columns hold one of a fixed set of
/// primitive values.  A total order and a canonical byte encoding are
/// defined over these for indexed use.
#[derive(Clone, PartialEq, Eq, Debug)]
pub enum Field {
    UInt(u64),
    Int(i64),
    Boolean(bool),
    String(String),
    Text(String),
    Binary(Vec<u8>),
    Null,
}

/// The declared type of a column.
#[derive(Clone, Copy, PartialEq, Eq, Structural, Debug)]
pub enum FieldType {
    UInt,
    Int,
    Boolean,
    String,
    Text,
    Binary,
}

/// Where a column comes from: a concrete table of a connection, or a
/// dynamically discovered stream.
#[derive(Clone, PartialEq, Eq, Debug)]
pub enum SourceDefinition {
    Table { name: String, connection: String },
    Dynamic,
}

/// Declaration of one column of a schema.
#[derive(Clone, PartialEq, Eq, Debug)]
pub struct FieldDefinition {
    pub name: String,
    pub typ: FieldType,
    pub nullable: bool,
    pub source: SourceDefinition,
}

impl FieldDefinition {
    pub fn new(name: String, typ: FieldType, nullable: bool, source: SourceDefinition) -> (r:
        Self)
        ensures
            r.name == name,
            r.typ == typ,
            r.nullable == nullable,
            r.source == source,
    {
        FieldDefinition { name, typ, nullable, source }
    }
}

/// Identity of a schema: a stable id plus a version.
#[derive(Clone, Copy, PartialEq, Eq, Structural, Debug)]
pub struct SchemaIdentifier {
    pub id: u32,
    pub version: u16,
}

/// An ordered sequence of column definitions plus a primary-key index:
/// positions into `fields` naming the key columns.
#[derive(Clone, PartialEq, Eq, Debug)]
pub struct Schema {
    pub identifier: Option<SchemaIdentifier>,
    pub fields: Vec<FieldDefinition>,
    pub primary_index: Vec<usize>,
}

impl Schema {
    /// A schema is well formed when every primary-key position points
    /// at an existing field.
    pub open spec fn well_formed(self) -> bool {
        forall|i: int|
            0 <= i < self.primary_index@.len() ==> self.primary_index@[i] < self.fields@.len()
    }

    pub fn empty() -> (r: Self)
        ensures
            r.identifier is None,
            r.fields@.len() == 0,
            r.primary_index@.len() == 0,
            r.well_formed(),
    {
        Schema { identifier: None, fields: Vec::new(), primary_index: Vec::new() }
    }

    /// Appends a field; when `primary_key` is set the new field's
    /// position is added to the primary-key index.
    pub fn field(&mut self, f: FieldDefinition, primary_key: bool) -> (r: &mut Self)
        ensures
            (*r).fields@ == old(self).fields@.push(f),
            primary_key ==> (*r).primary_index@ == old(self).primary_index@.push(
                (old(self).fields@.len()) as usize,
            ),
            !primary_key ==> (*r).primary_index@ == old(self).primary_index@,
            (*r).identifier == old(self).identifier,
            old(self).well_formed() ==> (*r).well_formed(),
            *final(self) == *final(r),
    {
        let pos = self.fields.len();
        self.fields.push(f);
        if primary_key {
            self.primary_index.push(pos);
        }
        self
    }
}

/// An ordered tuple of field values with an optional schema identity
/// and an optional monotonic version.
#[derive(Clone, PartialEq, Eq, Debug)]
pub struct Record {
    pub schema_id: Option<SchemaIdentifier>,
    pub values: Vec<Field>,
    pub version: Option<u32>,
}

impl Record {
    pub fn new(schema_id: Option<SchemaIdentifier>, values: Vec<Field>, version: Option<u32>) -> (
        r: Self)
        ensures
            r.schema_id == schema_id,
            r.values == values,
            r.version == version,
    {
        Record { schema_id, values, version }
    }
}

/// One message on an edge of the execution graph: a data change, an
/// epoch marker carried in band, the end of a source's initial
/// snapshot, or the ordered shutdown marker.
#[derive(Clone, PartialEq, Eq, Debug)]
pub enum Operation {
    Insert { new: Record },
    Delete { old: Record },
    Update { old: Record, new: Record },
    Commit { epoch_id: u64 },
    SnapshottingDone,
    Terminate,
}

impl Operation {
    /// Data operations are the record changes; markers coordinate
    /// epochs and shutdown.
    pub open spec fn is_data(self) -> bool {
        self is Insert || self is Delete || self is Update
    }
}

/// Whether a connector reports fine-grained changes or only full
/// reloads for a table.
#[derive(Clone, Copy, PartialEq, Eq, Structural, Debug)]
pub enum ReplicationChangesTrackingType {
    FullChanges,
    OnlyPK,
    Nothing,
}

/// A named schema as declared by a source connector.
#[derive(Clone, PartialEq, Eq, Debug)]
pub struct SourceSchema {
    pub name: String,
    pub schema: Schema,
    pub replication_type: ReplicationChangesTrackingType,
}

impl SourceSchema {
    pub fn new(name: String, schema: Schema, replication_type: ReplicationChangesTrackingType)
        -> (r: Self)
        ensures
            r.name == name,
            r.schema == schema,
            r.replication_type == replication_type,
    {
        SourceSchema { name, schema, replication_type }
    }
}

} // verus!
