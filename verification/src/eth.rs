//! Mapping blockchain log events into the engine's record model.
//! Logs, contract descriptions and decoded parameter values are held
//! as plain values: the surrounding connector decodes the wire form
//! and fills these in, and the logic here is what turns them into
//! schemas and operations.

use vstd::prelude::*;

use crate::connectors::TableInfo;
use crate::types::{
    Field, FieldDefinition, FieldType, Operation, Record, ReplicationChangesTrackingType, Schema,
    SchemaIdentifier, SourceDefinition, SourceSchema,
};

verus! {

/// The table name used for raw log records.
pub const ETH_LOGS_TABLE: &'static str = "eth_logs";

/// A decoded event parameter value, already rendered to plain values.
/// Composite values carry the rendered parts of their elements.
#[derive(Clone, PartialEq, Eq, Debug)]
pub enum EthToken {
    Address(String),
    FixedBytes(Vec<u8>),
    Bytes(Vec<u8>),
    Int(u64),
    Uint(u64),
    Bool(bool),
    Str(String),
    Composite(Vec<String>),
}

/// The declared type of an event parameter.
#[derive(Clone, Copy, PartialEq, Eq, Structural, Debug)]
pub enum EthParamKind {
    Address,
    Bytes,
    FixedBytes,
    Int,
    Uint,
    Bool,
    Str,
    Composite,
}

/// One declared input of an event.
#[derive(Clone, PartialEq, Eq, Debug)]
pub struct EthEventInput {
    pub name: String,
    pub kind: EthParamKind,
}

/// One event of a contract's interface: its name, its topic
/// signature rendered as a string, and its declared inputs.
#[derive(Clone, PartialEq, Eq, Debug)]
pub struct EthEvent {
    pub name: String,
    pub signature: String,
    pub inputs: Vec<EthEventInput>,
}

/// A contract paired with the name it was registered under.
#[derive(Clone, PartialEq, Eq, Debug)]
pub struct ContractTuple {
    pub events: Vec<EthEvent>,
    pub name: String,
}

/// A chain log with everything the mapping reads held as plain
/// values.  `decoded` carries the event parameters when the log could
/// be parsed against the matched event's interface.
#[derive(Clone, PartialEq, Eq, Debug)]
pub struct EthLog {
    pub address: String,
    pub topics: Vec<String>,
    pub data: Vec<u8>,
    pub block_hash: Option<String>,
    pub block_number: Option<u64>,
    pub transaction_hash: Option<String>,
    pub transaction_index: Option<u64>,
    pub log_index: Option<u64>,
    pub transaction_log_index: Option<i64>,
    pub log_type: Option<String>,
    pub removed: Option<bool>,
    pub decoded: Option<Vec<EthToken>>,
}

/// The strings of a list joined with a separator: the first part,
/// then a separator before each further part.
pub open spec fn spec_join(parts: Seq<Seq<char>>, sep: Seq<char>) -> Seq<char> {
    spec_join_prefix(parts, sep, parts.len() as int)
}

/// Joins rendered parts with a separator.
pub fn join_strings(parts: &Vec<String>, sep: &str) -> (r: String)
    ensures
        r@ == spec_join(parts@.map_values(|p: String| p@), sep@),
{
    let ghost views = parts@.map_values(|p: String| p@);
    let mut r = String::new();
    let mut i: usize = 0;
    while i < parts.len()
        invariant
            views == parts@.map_values(|p: String| p@),
            i <= parts@.len(),
            r@ == spec_join_prefix(views, sep@, i as int),
        decreases parts@.len() - i,
    {
        if i > 0 {
            r.append(sep);
        }
        r.append(parts[i].as_str());
        proof {
            lemma_join_prefix_step(views, sep@, i as int);
        }
        i += 1;
    }
    r
}

/// The join of the first `i` parts, with a trailing separator rule
/// matching incremental construction.
pub open spec fn spec_join_prefix(parts: Seq<Seq<char>>, sep: Seq<char>, i: int) -> Seq<char>
    decreases i,
{
    if i <= 0 {
        Seq::empty()
    } else if i == 1 {
        parts[0]
    } else {
        spec_join_prefix(parts, sep, i - 1) + sep + parts[i - 1]
    }
}

proof fn lemma_join_prefix_step(parts: Seq<Seq<char>>, sep: Seq<char>, i: int)
    requires
        0 <= i < parts.len(),
    ensures
        i == 0 ==> spec_join_prefix(parts, sep, 1) == parts[0],
        i > 0 ==> spec_join_prefix(parts, sep, i + 1) == spec_join_prefix(parts, sep, i) + sep
            + parts[i],
{
}

/// The field a decoded parameter value maps to.
pub open spec fn spec_token_field(t: EthToken) -> Field {
    match t {
        EthToken::Address(s) => Field::String(s),
        EthToken::FixedBytes(b) => Field::Binary(b),
        EthToken::Bytes(b) => Field::Binary(b),
        EthToken::Int(x) => Field::UInt(x),
        EthToken::Uint(x) => Field::UInt(x),
        EthToken::Bool(b) => Field::Boolean(b),
        EthToken::Str(s) => Field::String(s),
        EthToken::Composite(_) => arbitrary(),
    }
}

/// Maps one decoded parameter value into a field.  Composite values
/// become text: their rendered parts joined with a comma.
pub fn map_abitype_to_field(f: EthToken) -> (r: Field)
    ensures
        spec_token_maps(f, r),
{
    match f {
        EthToken::Address(s) => Field::String(s),
        EthToken::FixedBytes(b) => Field::Binary(b),
        EthToken::Bytes(b) => Field::Binary(b),
        EthToken::Int(x) => Field::UInt(x),
        EthToken::Uint(x) => Field::UInt(x),
        EthToken::Bool(b) => Field::Boolean(b),
        EthToken::Str(s) => Field::String(s),
        EthToken::Composite(parts) => Field::Text(join_strings(&parts, ",")),
    }
}

/// The table name of one event of a registered contract.
pub fn get_table_name(contract_tuple: &ContractTuple, event_name: &str) -> (r: String)
    ensures
        r@ == contract_tuple.name@ + "_"@ + event_name@,
{
    let mut r = contract_tuple.name.clone();
    r.append("_");
    r.append(event_name);
    r
}

/// The synthetic record identifier of a log: its block number and
/// index combined so that identifiers over one chain are unique and
/// ordered.
pub fn get_id(log: &EthLog) -> (r: u64)
    requires
        log.block_number is Some,
        log.log_index is Some,
        log.block_number->0 * 100_000 + log.log_index->0 * 2 <= u64::MAX,
    ensures
        r == log.block_number->0 * 100_000 + log.log_index->0 * 2,
{
    let block_no = match log.block_number {
        Option::Some(b) => b,
        Option::None => 0,
    };
    let log_idx = match log.log_index {
        Option::Some(l) => l,
        Option::None => 0,
    };
    block_no * 100_000 + log_idx * 2
}

/// The twelve raw-log field values a log maps to, in schema order.
pub open spec fn spec_log_values_ok(log: EthLog, vals: Seq<Field>) -> bool {
    &&& vals.len() == 12
    &&& vals[0] == Field::UInt((log.block_number->0 * 100_000 + log.log_index->0 * 2) as u64)
    &&& (vals[1] matches Field::String(a) && a@ == log.address@)
    &&& (vals[2] matches Field::Text(t) && t@ == spec_join(
        log.topics@.map_values(|p: String| p@),
        " "@,
    ))
    &&& (vals[3] matches Field::Binary(b) && b@ == log.data@)
    &&& (log.block_hash is Some ==> (vals[4] matches Field::String(h) && h@
        == log.block_hash->0@))
    &&& (log.block_hash is None ==> vals[4] == Field::Null)
    &&& vals[5] == Field::UInt(log.block_number->0)
    &&& (log.transaction_hash is Some ==> (vals[6] matches Field::String(h) && h@
        == log.transaction_hash->0@))
    &&& (log.transaction_hash is None ==> vals[6] == Field::Null)
    &&& vals[7] == Field::UInt(log.transaction_index->0)
    &&& vals[8] == Field::UInt(log.log_index->0)
    &&& (log.transaction_log_index is Some ==> vals[9] == Field::Int(
        log.transaction_log_index->0,
    ))
    &&& (log.transaction_log_index is None ==> vals[9] == Field::Null)
    &&& (log.log_type is Some ==> (vals[10] matches Field::String(t) && t@ == log.log_type->0@))
    &&& (log.log_type is None ==> vals[10] == Field::Null)
    &&& (log.removed is Some ==> vals[11] == Field::Boolean(log.removed->0))
    &&& (log.removed is None ==> vals[11] == Field::Null)
}

/// The field values of a raw log record, in schema order.
pub fn map_log_to_values(log: &EthLog) -> (r: Vec<Field>)
    requires
        log.block_number is Some,
        log.transaction_index is Some,
        log.log_index is Some,
        log.block_number->0 * 100_000 + log.log_index->0 * 2 <= u64::MAX,
    ensures
        spec_log_values_ok(*log, r@),
{
    let idx = get_id(log);
    let block_no = match log.block_number {
        Option::Some(b) => b,
        Option::None => 0,
    };
    let txn_idx = match log.transaction_index {
        Option::Some(t) => t,
        Option::None => 0,
    };
    let log_idx = match log.log_index {
        Option::Some(l) => l,
        Option::None => 0,
    };
    let mut values: Vec<Field> = Vec::new();
    values.push(Field::UInt(idx));
    values.push(Field::String(log.address.clone()));
    values.push(Field::Text(join_strings(&log.topics, " ")));
    values.push(Field::Binary(crate::record_store::clone_bytes(&log.data)));
    values.push(
        match &log.block_hash {
            Option::Some(h) => Field::String(h.clone()),
            Option::None => Field::Null,
        },
    );
    values.push(Field::UInt(block_no));
    values.push(
        match &log.transaction_hash {
            Option::Some(h) => Field::String(h.clone()),
            Option::None => Field::Null,
        },
    );
    values.push(Field::UInt(txn_idx));
    values.push(Field::UInt(log_idx));
    values.push(
        match log.transaction_log_index {
            Option::Some(t) => Field::Int(t),
            Option::None => Field::Null,
        },
    );
    values.push(
        match &log.log_type {
            Option::Some(t) => Field::String(t.clone()),
            Option::None => Field::Null,
        },
    );
    values.push(
        match log.removed {
            Option::Some(b) => Field::Boolean(b),
            Option::None => Field::Null,
        },
    );
    proof {
        assert(spec_log_values_ok(*log, values@));
    }
    values
}

/// Whether some table in the request list carries the given name.
pub open spec fn spec_table_required(tables: Seq<TableInfo>, name: Seq<char>) -> bool {
    exists|i: int| 0 <= i < tables.len() && (#[trigger] tables[i]).table_name@ == name
}

fn table_required(tables: &Vec<TableInfo>, name: &String) -> (r: bool)
    ensures
        r == spec_table_required(tables@, name@),
{
    let mut i: usize = 0;
    while i < tables.len()
        invariant
            i <= tables@.len(),
            forall|j: int| 0 <= j < i ==> (#[trigger] tables@[j]).table_name@ != name@,
        decreases tables@.len() - i,
    {
        if tables[i].table_name.eq(name) {
            return true;
        }
        i += 1;
    }
    false
}

/// Maps a raw log into an insert of the raw-log table, provided that
/// table was requested and the log is not pending.
pub fn map_log_to_event(log: EthLog, tables: &Vec<TableInfo>) -> (r: Option<Operation>)
    requires
        log.log_index is Some ==> {
            &&& log.block_number is Some
            &&& log.transaction_index is Some
            &&& log.block_number->0 * 100_000 + log.log_index->0 * 2 <= u64::MAX
        },
    ensures
        !spec_table_required(tables@, ETH_LOGS_TABLE@) ==> r is None,
        spec_table_required(tables@, ETH_LOGS_TABLE@) && log.log_index is None ==> r is None,
        spec_table_required(tables@, ETH_LOGS_TABLE@) && log.log_index is Some ==> (r
            matches Option::Some(op) && op matches Operation::Insert { new } && new.schema_id
            == Option::Some(SchemaIdentifier { id: 1, version: 1 }) && new.version is None
            && spec_log_values_ok(log, new.values@)),
{
    let logs_table = String::from_str(ETH_LOGS_TABLE);
    if !table_required(tables, &logs_table) {
        Option::None
    } else if log.log_index.is_some() {
        let values = map_log_to_values(&log);
        Option::Some(
            Operation::Insert {
                new: Record {
                    schema_id: Option::Some(SchemaIdentifier { id: 1, version: 1 }),
                    values,
                    version: Option::None,
                },
            },
        )
    } else {
        Option::None
    }
}

/// The schema of the raw-log table: twelve columns keyed by the
/// synthetic identifier.
pub fn get_eth_schema() -> (r: Schema)
    ensures
        r.identifier == Option::Some(SchemaIdentifier { id: 1, version: 1 }),
        r.fields@.len() == 12,
        r.primary_index@ == seq![0usize],
        r.fields@[0].name@ == "id"@ && r.fields@[0].typ == FieldType::UInt && !r.fields@[0].nullable,
        r.fields@[1].name@ == "address"@ && r.fields@[1].typ == FieldType::String,
        r.fields@[2].name@ == "topics"@ && r.fields@[2].typ == FieldType::String,
        r.fields@[3].name@ == "data"@ && r.fields@[3].typ == FieldType::Binary,
        r.fields@[4].name@ == "block_hash"@ && r.fields@[4].typ == FieldType::String,
        r.fields@[5].name@ == "block_number"@ && r.fields@[5].typ == FieldType::UInt,
        r.fields@[6].name@ == "transaction_hash"@ && r.fields@[6].typ == FieldType::String,
        r.fields@[7].name@ == "transaction_index"@ && r.fields@[7].typ == FieldType::Int,
        r.fields@[8].name@ == "log_index"@ && r.fields@[8].typ == FieldType::Int,
        r.fields@[9].name@ == "transaction_log_index"@ && r.fields@[9].typ == FieldType::Int,
        r.fields@[10].name@ == "log_type"@ && r.fields@[10].typ == FieldType::String,
        r.fields@[11].name@ == "removed"@ && r.fields@[11].typ == FieldType::Boolean,
        forall|i: int| 1 <= i < 4 ==> !(#[trigger] r.fields@[i]).nullable,
        forall|i: int| 4 <= i < 12 ==> (#[trigger] r.fields@[i]).nullable,
        forall|i: int|
            0 <= i < 12 ==> (#[trigger] r.fields@[i]).source == SourceDefinition::Dynamic,
{
    let mut fields: Vec<FieldDefinition> = Vec::new();
    fields.push(
        FieldDefinition::new(
            String::from_str("id"),
            FieldType::UInt,
            false,
            SourceDefinition::Dynamic,
        ),
    );
    fields.push(
        FieldDefinition::new(
            String::from_str("address"),
            FieldType::String,
            false,
            SourceDefinition::Dynamic,
        ),
    );
    fields.push(
        FieldDefinition::new(
            String::from_str("topics"),
            FieldType::String,
            false,
            SourceDefinition::Dynamic,
        ),
    );
    fields.push(
        FieldDefinition::new(
            String::from_str("data"),
            FieldType::Binary,
            false,
            SourceDefinition::Dynamic,
        ),
    );
    fields.push(
        FieldDefinition::new(
            String::from_str("block_hash"),
            FieldType::String,
            true,
            SourceDefinition::Dynamic,
        ),
    );
    fields.push(
        FieldDefinition::new(
            String::from_str("block_number"),
            FieldType::UInt,
            true,
            SourceDefinition::Dynamic,
        ),
    );
    fields.push(
        FieldDefinition::new(
            String::from_str("transaction_hash"),
            FieldType::String,
            true,
            SourceDefinition::Dynamic,
        ),
    );
    fields.push(
        FieldDefinition::new(
            String::from_str("transaction_index"),
            FieldType::Int,
            true,
            SourceDefinition::Dynamic,
        ),
    );
    fields.push(
        FieldDefinition::new(
            String::from_str("log_index"),
            FieldType::Int,
            true,
            SourceDefinition::Dynamic,
        ),
    );
    fields.push(
        FieldDefinition::new(
            String::from_str("transaction_log_index"),
            FieldType::Int,
            true,
            SourceDefinition::Dynamic,
        ),
    );
    fields.push(
        FieldDefinition::new(
            String::from_str("log_type"),
            FieldType::String,
            true,
            SourceDefinition::Dynamic,
        ),
    );
    fields.push(
        FieldDefinition::new(
            String::from_str("removed"),
            FieldType::Boolean,
            true,
            SourceDefinition::Dynamic,
        ),
    );
    let mut primary_index: Vec<usize> = Vec::new();
    primary_index.push(0);
    proof {
        assert(primary_index@ =~= seq![0usize]);
    }
    Schema {
        identifier: Option::Some(SchemaIdentifier { id: 1, version: 1 }),
        fields,
        primary_index,
    }
}

/// The schema one contract event maps to, under the given schema id.
pub fn event_to_schema(
    contract_tuple: &ContractTuple,
    event: &EthEvent,
    schema_id: u32,
) -> (r: SourceSchema)
    ensures
        r.name@ == contract_tuple.name@ + "_"@ + event.name@,
        r.schema.identifier == Option::Some(SchemaIdentifier { id: schema_id, version: 1 }),
        r.schema.fields@.len() == event.inputs@.len(),
        forall|i: int|
            0 <= i < event.inputs@.len() ==> {
                let fd = #[trigger] r.schema.fields@[i];
                &&& fd.name@ == event.inputs@[i].name@
                &&& fd.typ == spec_param_field_type(event.inputs@[i].kind)
                &&& !fd.nullable
            },
        r.schema.primary_index@.len() == 0,
        r.replication_type == ReplicationChangesTrackingType::Nothing,
{
    let mut fields: Vec<FieldDefinition> = Vec::new();
    let mut i: usize = 0;
    while i < event.inputs.len()
        invariant
            i <= event.inputs@.len(),
            fields@.len() == i,
            forall|j: int|
                0 <= j < i ==> {
                    let fd = #[trigger] fields@[j];
                    &&& fd.name@ == event.inputs@[j].name@
                    &&& fd.typ == spec_param_field_type(event.inputs@[j].kind)
                    &&& !fd.nullable
                },
        decreases event.inputs@.len() - i,
    {
        let input = &event.inputs[i];
        fields.push(
            FieldDefinition::new(
                input.name.clone(),
                param_field_type(input.kind),
                false,
                SourceDefinition::Dynamic,
            ),
        );
        i += 1;
    }
    let name = get_table_name(contract_tuple, event.name.as_str());
    SourceSchema::new(
        name,
        Schema {
            identifier: Option::Some(SchemaIdentifier { id: schema_id, version: 1 }),
            fields,
            primary_index: Vec::new(),
        },
        ReplicationChangesTrackingType::Nothing,
    )
}

/// The field type a declared parameter kind maps to.
pub open spec fn spec_param_field_type(k: EthParamKind) -> FieldType {
    match k {
        EthParamKind::Address => FieldType::String,
        EthParamKind::Bytes => FieldType::Binary,
        EthParamKind::FixedBytes => FieldType::Binary,
        EthParamKind::Int => FieldType::UInt,
        EthParamKind::Uint => FieldType::UInt,
        EthParamKind::Bool => FieldType::Boolean,
        EthParamKind::Str => FieldType::String,
        EthParamKind::Composite => FieldType::Text,
    }
}

fn param_field_type(k: EthParamKind) -> (r: FieldType)
    ensures
        r == spec_param_field_type(k),
{
    match k {
        EthParamKind::Address => FieldType::String,
        EthParamKind::Bytes => FieldType::Binary,
        EthParamKind::FixedBytes => FieldType::Binary,
        EthParamKind::Int => FieldType::UInt,
        EthParamKind::Uint => FieldType::UInt,
        EthParamKind::Bool => FieldType::Boolean,
        EthParamKind::Str => FieldType::String,
        EthParamKind::Composite => FieldType::Text,
    }
}

/// Every event's signature was assigned a schema id.
pub open spec fn spec_signatures_assigned(
    contracts: Seq<ContractTuple>,
    schema_map: Seq<(String, u32)>,
) -> bool {
    forall|c: int, e: int|
        0 <= c < contracts.len() && 0 <= e < contracts[c].events@.len() ==> exists|i: int|
            0 <= i < schema_map.len() && (#[trigger] schema_map[i]).0@ == (
            #[trigger] contracts[c].events@[e]).signature@
}

/// What the schema built for one event looks like: named after the
/// contract and event, carrying the schema id its signature was
/// assigned, one non-nullable field per declared input, no primary
/// key, and no change tracking.
pub open spec fn spec_event_schema_ok(
    tuple: ContractTuple,
    event: EthEvent,
    schema_map: Seq<(String, u32)>,
    s: SourceSchema,
) -> bool {
    &&& s.name@ == tuple.name@ + "_"@ + event.name@
    &&& s.schema.identifier is Some
    &&& s.schema.identifier->0.version == 1
    &&& exists|i: int|
        0 <= i < schema_map.len() && (#[trigger] schema_map[i]).0@ == event.signature@
            && schema_map[i].1 == s.schema.identifier->0.id
    &&& s.schema.fields@.len() == event.inputs@.len()
    &&& forall|f: int|
        0 <= f < event.inputs@.len() ==> (#[trigger] s.schema.fields@[f]).name@
            == event.inputs@[f].name@ && s.schema.fields@[f].typ == spec_param_field_type(
            event.inputs@[f].kind,
        ) && !s.schema.fields@[f].nullable
    &&& s.schema.primary_index@.len() == 0
    &&& s.replication_type == ReplicationChangesTrackingType::Nothing
}

/// The number of events over the first `c` registered contracts.
pub open spec fn spec_total_events_prefix(contracts: Seq<ContractTuple>, c: int) -> int
    decreases c,
{
    if c <= 0 {
        0
    } else {
        spec_total_events_prefix(contracts, c - 1) + contracts[c - 1].events@.len()
    }
}

/// The number of events over all registered contracts.
pub open spec fn spec_total_events(contracts: Seq<ContractTuple>) -> int {
    spec_total_events_prefix(contracts, contracts.len() as int)
}

/// Looks a signature up in the schema map.
fn schema_of_signature(schema_map: &Vec<(String, u32)>, signature: &String) -> (r: Option<u32>)
    ensures
        match r {
            Option::Some(id) => exists|i: int|
                0 <= i < schema_map@.len() && (#[trigger] schema_map@[i]).0@ == signature@
                    && schema_map@[i].1 == id,
            Option::None => forall|i: int|
                0 <= i < schema_map@.len() ==> (#[trigger] schema_map@[i]).0@ != signature@,
        },
{
    let mut i: usize = 0;
    while i < schema_map.len()
        invariant
            i <= schema_map@.len(),
            forall|j: int| 0 <= j < i ==> (#[trigger] schema_map@[j]).0@ != signature@,
        decreases schema_map@.len() - i,
    {
        if schema_map[i].0.eq(signature) {
            return Option::Some(schema_map[i].1);
        }
        i += 1;
    }
    Option::None
}

/// Builds one schema per event of every registered contract, keyed by
/// the signatures in the schema map.
pub fn get_contract_event_schemas(
    contracts: &Vec<ContractTuple>,
    schema_map: &Vec<(String, u32)>,
) -> (r: Vec<SourceSchema>)
    requires
        spec_signatures_assigned(contracts@, schema_map@),
    ensures
        r@.len() == spec_total_events(contracts@),
        // The schema of event `e` of contract `c` stands at the
        // position the earlier contracts' events leave it.
        forall|c: int, e: int|
            0 <= c < contracts@.len() && 0 <= e < contracts@[c].events@.len()
                ==> spec_event_schema_ok(
                #[trigger] contracts@[c],
                #[trigger] contracts@[c].events@[e],
                schema_map@,
                r@[spec_total_events_prefix(contracts@, c) + e],
            ),
{
    let mut schemas: Vec<SourceSchema> = Vec::new();
    let mut c: usize = 0;
    while c < contracts.len()
        invariant
            spec_signatures_assigned(contracts@, schema_map@),
            c <= contracts@.len(),
            schemas@.len() == spec_total_events_prefix(contracts@, c as int),
            forall|c0: int, e0: int|
                0 <= c0 < c && 0 <= e0 < contracts@[c0].events@.len() ==> spec_event_schema_ok(
                    #[trigger] contracts@[c0],
                    #[trigger] contracts@[c0].events@[e0],
                    schema_map@,
                    schemas@[spec_total_events_prefix(contracts@, c0) + e0],
                ),
        decreases contracts@.len() - c,
    {
        let contract = &contracts[c];
        let mut e: usize = 0;
        while e < contract.events.len()
            invariant
                spec_signatures_assigned(contracts@, schema_map@),
                c < contracts@.len(),
                contract == contracts@[c as int],
                e <= contract.events@.len(),
                schemas@.len() == spec_total_events_prefix(contracts@, c as int) + e,
                forall|c0: int, e0: int|
                    0 <= c0 < c && 0 <= e0 < contracts@[c0].events@.len() ==> spec_event_schema_ok(
                        #[trigger] contracts@[c0],
                        #[trigger] contracts@[c0].events@[e0],
                        schema_map@,
                        schemas@[spec_total_events_prefix(contracts@, c0) + e0],
                    ),
                forall|e0: int|
                    0 <= e0 < e ==> spec_event_schema_ok(
                        contracts@[c as int],
                        #[trigger] contracts@[c as int].events@[e0],
                        schema_map@,
                        schemas@[spec_total_events_prefix(contracts@, c as int) + e0],
                    ),
            decreases contract.events@.len() - e,
        {
            let event = &contract.events[e];
            let schema_id = match schema_of_signature(schema_map, &event.signature) {
                Option::Some(id) => id,
                Option::None => {
                    proof {
                        assert(contracts@[c as int].events@[e as int] == *event);
                        assert(false);
                    }
                    0
                }
            };
            let ghost pre_schemas = schemas@;
            let built = event_to_schema(contract, event, schema_id);
            proof {
                assert(spec_event_schema_ok(
                    contracts@[c as int],
                    contracts@[c as int].events@[e as int],
                    schema_map@,
                    built,
                ));
            }
            schemas.push(built);
            proof {
                assert forall|c0: int, e0: int|
                    0 <= c0 < c && 0 <= e0 < contracts@[c0].events@.len() implies spec_event_schema_ok(
                    #[trigger] contracts@[c0],
                    #[trigger] contracts@[c0].events@[e0],
                    schema_map@,
                    schemas@[spec_total_events_prefix(contracts@, c0) + e0],
                ) by {
                    lemma_prefix_bound(contracts@, c0, c as int, e0);
                    assert(schemas@[spec_total_events_prefix(contracts@, c0) + e0]
                        == pre_schemas[spec_total_events_prefix(contracts@, c0) + e0]);
                }
                lemma_prefix_nonneg(contracts@, c as int);
                assert forall|e0: int| 0 <= e0 < e + 1 implies spec_event_schema_ok(
                    contracts@[c as int],
                    #[trigger] contracts@[c as int].events@[e0],
                    schema_map@,
                    schemas@[spec_total_events_prefix(contracts@, c as int) + e0],
                ) by {
                    if e0 < e as int {
                        assert(schemas@[spec_total_events_prefix(contracts@, c as int) + e0]
                            == pre_schemas[spec_total_events_prefix(contracts@, c as int) + e0]);
                    } else {
                        assert(schemas@[spec_total_events_prefix(contracts@, c as int) + e0]
                            == built);
                    }
                }
            }
            e += 1;
        }
        proof {
            assert forall|e0: int|
                0 <= e0 < contracts@[c as int].events@.len() implies spec_event_schema_ok(
                contracts@[c as int],
                #[trigger] contracts@[c as int].events@[e0],
                schema_map@,
                schemas@[spec_total_events_prefix(contracts@, c as int) + e0],
            ) by {
            }
        }
        c += 1;
    }
    schemas
}

/// Events of earlier contracts stand strictly before the running
/// position: the prefix totals are monotone.
proof fn lemma_prefix_bound(contracts: Seq<ContractTuple>, c0: int, c: int, e0: int)
    requires
        0 <= c0 < c <= contracts.len(),
        0 <= e0 < contracts[c0].events@.len(),
    ensures
        0 <= spec_total_events_prefix(contracts, c0),
        spec_total_events_prefix(contracts, c0) + e0 < spec_total_events_prefix(contracts, c),
    decreases c,
{
    if c0 + 1 == c {
        lemma_prefix_nonneg(contracts, c0);
    } else {
        lemma_prefix_bound(contracts, c0, c - 1, e0);
    }
}

/// Prefix totals never go negative.
proof fn lemma_prefix_nonneg(contracts: Seq<ContractTuple>, c: int)
    ensures
        0 <= spec_total_events_prefix(contracts, c),
    decreases c,
{
    if c > 0 {
        lemma_prefix_nonneg(contracts, c - 1);
    }
}

/// The first registration under the given key, scanning from `i`.
pub open spec fn spec_find_key(
    contracts: Seq<(String, ContractTuple)>,
    key: Seq<char>,
    i: int,
) -> Option<int>
    decreases contracts.len() - i,
{
    if i < 0 || i >= contracts.len() {
        Option::None
    } else if contracts[i].0@ == key {
        Option::Some(i)
    } else {
        spec_find_key(contracts, key, i + 1)
    }
}

/// The contract a log is decoded against: the one registered under
/// its address, else the wildcard registration.
pub open spec fn spec_selected_contract(
    contracts: Seq<(String, ContractTuple)>,
    address: Seq<char>,
) -> Option<int> {
    match spec_find_key(contracts, address, 0) {
        Option::Some(i) => Option::Some(i),
        Option::None => spec_find_key(contracts, "*"@, 0),
    }
}

/// The first event with the given signature, scanning from `i`.
pub open spec fn spec_find_event(events: Seq<EthEvent>, sig: Seq<char>, i: int) -> Option<int>
    decreases events.len() - i,
{
    if i < 0 || i >= events.len() {
        Option::None
    } else if events[i].signature@ == sig {
        Option::Some(i)
    } else {
        spec_find_event(events, sig, i + 1)
    }
}

/// Whether the schema map assigns the signature some id.
pub open spec fn spec_sig_known(schema_map: Seq<(String, u32)>, sig: Seq<char>) -> bool {
    exists|i: int| 0 <= i < schema_map.len() && (#[trigger] schema_map[i]).0@ == sig
}

/// How one decoded parameter maps into a field.
pub open spec fn spec_token_maps(tok: EthToken, f: Field) -> bool {
    match tok {
        EthToken::Composite(parts) => f matches Field::Text(t) && t@ == spec_join(
            parts@.map_values(|p: String| p@),
            ","@,
        ),
        _ => f == spec_token_field(tok),
    }
}

/// When decoding a log succeeds: it has a topic, a contract is
/// registered for its address (or the wildcard), that contract has an
/// event whose signature is the first topic, the schema map knows the
/// signature, the event's table was requested, and the parameters
/// were decoded.
pub open spec fn spec_decode_accepts(
    log: EthLog,
    contracts: Seq<(String, ContractTuple)>,
    tables: Seq<TableInfo>,
    schema_map: Seq<(String, u32)>,
) -> bool {
    &&& log.topics@.len() > 0
    &&& spec_selected_contract(contracts, log.address@) is Some
    &&& {
        let tuple = contracts[spec_selected_contract(contracts, log.address@)->0].1;
        let ev = spec_find_event(tuple.events@, log.topics@[0]@, 0);
        &&& ev is Some
        &&& spec_sig_known(schema_map, tuple.events@[ev->0].signature@)
        &&& spec_table_required(tables, tuple.name@ + "_"@ + tuple.events@[ev->0].name@)
        &&& log.decoded is Some
    }
}

/// Decodes one log against the registered contracts: finds the
/// contract registered under the log's address (else under `*`), the
/// first event whose signature is the log's first topic, checks that
/// the event's table was requested, and turns the decoded parameters
/// into an insert under the signature's schema id.
pub fn decode_event(
    log: EthLog,
    contracts: &Vec<(String, ContractTuple)>,
    tables: &Vec<TableInfo>,
    schema_map: &Vec<(String, u32)>,
) -> (r: Option<Operation>)
    ensures
        r is Some <==> spec_decode_accepts(log, contracts@, tables@, schema_map@),
        r matches Option::Some(op) ==> (op matches Operation::Insert { new } && new.version
            is None && new.schema_id is Some && new.schema_id->0.version == 1 && {
            let tuple = contracts@[spec_selected_contract(contracts@, log.address@)->0].1;
            let ev = spec_find_event(tuple.events@, log.topics@[0]@, 0);
            &&& exists|i: int|
                0 <= i < schema_map@.len() && (#[trigger] schema_map@[i]).0@
                    == tuple.events@[ev->0].signature@ && schema_map@[i].1
                    == new.schema_id->0.id
            &&& log.decoded matches Option::Some(tokens) && new.values@.len() == tokens@.len()
            &&& forall|t: int|
                0 <= t < new.values@.len() ==> spec_token_maps(
                    log.decoded->0@[t],
                    #[trigger] new.values@[t],
                )
        }),
{
    if log.topics.len() == 0 {
        return Option::None;
    }
    // Find the contract registered under the address, else the
    // wildcard registration.
    let mut found: Option<usize> = Option::None;
    let mut i: usize = 0;
    while i < contracts.len()
        invariant
            i <= contracts@.len(),
            match found {
                Option::Some(f) => f < contracts@.len() && spec_find_key(
                    contracts@,
                    log.address@,
                    0,
                ) == Option::Some(f as int),
                Option::None => spec_find_key(contracts@, log.address@, 0) == spec_find_key(
                    contracts@,
                    log.address@,
                    i as int,
                ),
            },
        decreases contracts@.len() - i,
    {
        if found.is_none() && contracts[i].0.eq(&log.address) {
            found = Option::Some(i);
        }
        i += 1;
    }
    if found.is_none() {
        let wildcard = String::from_str("*");
        let mut i: usize = 0;
        while i < contracts.len()
            invariant
                wildcard@ == "*"@,
                spec_find_key(contracts@, log.address@, 0) is None,
                i <= contracts@.len(),
                match found {
                    Option::Some(f) => f < contracts@.len() && spec_find_key(
                        contracts@,
                        "*"@,
                        0,
                    ) == Option::Some(f as int),
                    Option::None => spec_find_key(contracts@, "*"@, 0) == spec_find_key(
                        contracts@,
                        "*"@,
                        i as int,
                    ),
                },
            decreases contracts@.len() - i,
        {
            if found.is_none() && contracts[i].0.eq(&wildcard) {
                found = Option::Some(i);
            }
            i += 1;
        }
    }
    let ci = match found {
        Option::Some(f) => f,
        Option::None => {
            return Option::None;
        }
    };
    proof {
        assert(spec_selected_contract(contracts@, log.address@) == Option::Some(ci as int));
    }
    let contract_tuple = &contracts[ci].1;
    // Find the first event whose signature is the first topic.
    let name = &log.topics[0];
    let mut event_idx: Option<usize> = Option::None;
    let mut e: usize = 0;
    while e < contract_tuple.events.len()
        invariant
            contract_tuple == contracts@[ci as int].1,
            name == log.topics@[0],
            e <= contract_tuple.events@.len(),
            match event_idx {
                Option::Some(f) => f < contract_tuple.events@.len() && spec_find_event(
                    contract_tuple.events@,
                    log.topics@[0]@,
                    0,
                ) == Option::Some(f as int),
                Option::None => spec_find_event(contract_tuple.events@, log.topics@[0]@, 0)
                    == spec_find_event(contract_tuple.events@, log.topics@[0]@, e as int),
            },
        decreases contract_tuple.events@.len() - e,
    {
        if event_idx.is_none() && contract_tuple.events[e].signature.eq(name) {
            event_idx = Option::Some(e);
        }
        e += 1;
    }
    let ei = match event_idx {
        Option::Some(f) => f,
        Option::None => {
            return Option::None;
        }
    };
    let event = &contract_tuple.events[ei];
    let schema_id = match schema_of_signature(schema_map, &event.signature) {
        Option::Some(id) => id,
        Option::None => {
            return Option::None;
        }
    };
    let table_name = get_table_name(contract_tuple, event.name.as_str());
    if !table_required(tables, &table_name) {
        return Option::None;
    }
    match log.decoded {
        Option::Some(tokens) => {
            let ghost toks0 = tokens@;
            let mut values: Vec<Field> = Vec::new();
            let mut rest = tokens;
            while rest.len() > 0
                invariant
                    values@.len() + rest@.len() == toks0.len(),
                    rest@ == toks0.skip(values@.len() as int),
                    forall|t: int|
                        0 <= t < values@.len() ==> spec_token_maps(
                            toks0[t],
                            #[trigger] values@[t],
                        ),
                decreases rest@.len(),
            {
                let ghost n0 = values@.len() as int;
                let tok = rest.remove(0);
                proof {
                    assert(tok == toks0[n0]);
                    assert(toks0.skip(n0).skip(1) =~= toks0.skip(n0 + 1));
                }
                values.push(map_abitype_to_field(tok));
                proof {
                    assert(spec_token_maps(toks0[n0], values@[n0]));
                }
            }
            Option::Some(
                Operation::Insert {
                    new: Record {
                        schema_id: Option::Some(
                            SchemaIdentifier { id: schema_id, version: 1 },
                        ),
                        values,
                        version: Option::None,
                    },
                },
            )
        }
        Option::None => Option::None,
    }
}

} // verus!
