use dozer_core::aggregation::CountAggregator;
use dozer_core::barrier::{BarrierAction, BarrierState};
use dozer_core::builder_dag::BuilderDag;
use dozer_core::channel::Channel;
use dozer_core::codec::{
    field_to_bytes, i64_from_be_bytes, i64_to_be_bytes, record_to_bytes, string_to_bytes,
    u32_to_be_bytes, u64_from_be_bytes, u64_to_be_bytes,
};
use dozer_core::connectors::{
    get_connector, get_connector_info_table, tables_from_schemas, ColumnInfo, Connection,
    ConnectionConfig, ConnectorError, ConnectorKind, EthProviderConfig, TableInfo,
};
use dozer_core::dag::{BuildError, Dag};
use dozer_core::epoch::{checkpoint_to_bytes, EpochManager, SourceState};
use dozer_core::eth::{
    decode_event, get_eth_schema, get_id, get_table_name, join_strings, map_abitype_to_field,
    map_log_to_event, map_log_to_values, ContractTuple, EthEvent, EthEventInput, EthLog,
    EthParamKind, EthToken,
};
use dozer_core::execution_dag::ExecutionDag;
use dozer_core::node::{Endpoint, NodeHandle, PortPersistence, ProcessorKind, SinkKind, SourceKind};
use dozer_core::record_store::{
    PrefixTransaction, PrimaryKeyWriter, RecordReader, RecordStore,
};
use dozer_core::types::{
    Field, FieldDefinition, FieldType, Operation, Record, Schema, SourceDefinition, SourceSchema,
    ReplicationChangesTrackingType,
};
use dozer_core::broadcast::{grpc_service_name, SchemaBootstrap};
use dozer_core::admin::AdminCliConfig;
use dozer_core::{COUNTING_SINK_INPUT_PORT, DEFAULT_PORT_HANDLE, GENERATOR_SOURCE_OUTPUT_PORT};

fn sample_record(id: u64) -> Record {
    Record::new(None, vec![Field::UInt(id), Field::UInt(id)], None)
}

#[test]
fn test_planner_with_aggregator() {
    // Two household rows grouped under one key are counted through
    // the aggregation operator, each state feeding the next call.
    let store = RecordStore::new();
    let txn = store.begin();
    let mut ptx = PrefixTransaction::new(txn, vec![1u8]);

    let rec1 = vec![
        Field::String("John Smith".to_string()),
        Field::String("Johor".to_string()),
        Field::String("Malaysia".to_string()),
        Field::Int(2),
        Field::Int(1),
    ];
    let rec2 = vec![
        Field::String("Todd Enton".to_string()),
        Field::String("Johor".to_string()),
        Field::String("Malaysia".to_string()),
        Field::Int(2),
        Field::Int(2),
    ];

    let r1 = CountAggregator::insert(None, &rec1[0], FieldType::Int, &mut ptx).unwrap();
    assert_eq!(r1.value, Field::Int(1));
    let state1 = r1.state.unwrap();
    let r2 = CountAggregator::insert(Some(state1.as_slice()), &rec2[0], FieldType::Int, &mut ptx)
        .unwrap();
    assert_eq!(r2.value, Field::Int(2));
}

#[test]
fn count_aggregator_update_and_delete() {
    let store = RecordStore::new();
    let txn = store.begin();
    let mut ptx = PrefixTransaction::new(txn, vec![1u8]);
    let f = Field::Int(7);
    let a = CountAggregator::insert(None, &f, FieldType::Int, &mut ptx).unwrap();
    let s1 = a.state.unwrap();
    let b = CountAggregator::update(Some(s1.as_slice()), &f, &f, FieldType::Int, &mut ptx)
        .unwrap();
    assert_eq!(b.value, Field::Int(1));
    let s2 = b.state.unwrap();
    let c = CountAggregator::delete(Some(s2.as_slice()), &f, FieldType::Int, &mut ptx).unwrap();
    assert_eq!(c.value, Field::Int(0));
}

#[test]
fn be_bytes_roundtrip() {
    let v: u64 = 0x0123_4567_89ab_cdef;
    let b = u64_to_be_bytes(v);
    assert_eq!(b, vec![0x01, 0x23, 0x45, 0x67, 0x89, 0xab, 0xcd, 0xef]);
    assert_eq!(u64_from_be_bytes(b.as_slice()), v);
    let x: i64 = -42;
    let ib = i64_to_be_bytes(x);
    assert_eq!(i64_from_be_bytes(ib.as_slice()), x);
    assert_eq!(u32_to_be_bytes(0x0102_0304), vec![1, 2, 3, 4]);
}

#[test]
fn string_and_record_encoding() {
    let b = string_to_bytes("ab");
    // Character count, then each scalar as four big-endian bytes.
    assert_eq!(b, vec![0, 0, 0, 2, 0, 0, 0, 0x61, 0, 0, 0, 0x62]);
    let f = field_to_bytes(&Field::UInt(5));
    assert_eq!(f, vec![1, 0, 0, 0, 0, 0, 0, 0, 5]);
    let r = sample_record(3);
    let rb = record_to_bytes(&r);
    // No schema id, no version, two fields.
    assert_eq!(&rb[0..2], &[0, 0]);
    assert_eq!(&rb[2..6], &[0, 0, 0, 2]);
}

#[test]
fn channel_is_fifo() {
    let mut ch = Channel::new(4);
    assert!(ch.send(Operation::Insert { new: sample_record(1) }));
    assert!(ch.send(Operation::Insert { new: sample_record(2) }));
    assert!(ch.send(Operation::Terminate));
    let a = ch.recv().unwrap();
    let b = ch.recv().unwrap();
    let c = ch.recv().unwrap();
    assert_eq!(a, Operation::Insert { new: sample_record(1) });
    assert_eq!(b, Operation::Insert { new: sample_record(2) });
    assert_eq!(c, Operation::Terminate);
    assert!(ch.recv().is_none());
}

#[test]
fn channel_bounded() {
    let mut ch = Channel::new(1);
    assert!(ch.send(Operation::Terminate));
    assert!(!ch.send(Operation::Terminate));
    assert_eq!(ch.len(), 1);
}

#[test]
fn cycle_is_rejected() {
    let mut dag = Dag::new();
    let a = NodeHandle::new(None, "a".to_string());
    let b = NodeHandle::new(None, "b".to_string());
    dag.add_processor(a.clone(), ProcessorKind::Passthrough).unwrap();
    dag.add_processor(b.clone(), ProcessorKind::Passthrough).unwrap();
    dag.connect(
        Endpoint::new(a.clone(), DEFAULT_PORT_HANDLE),
        Endpoint::new(b.clone(), DEFAULT_PORT_HANDLE),
    )
    .unwrap();
    dag.connect(
        Endpoint::new(b, DEFAULT_PORT_HANDLE),
        Endpoint::new(a, DEFAULT_PORT_HANDLE),
    )
    .unwrap();
    assert_eq!(dag.build().unwrap_err(), BuildError::CycleDetected);
}

#[test]
fn build_accepts_a_line() {
    let mut dag = Dag::new();
    let src = NodeHandle::new(None, "src".to_string());
    let proc = NodeHandle::new(None, "proc".to_string());
    let sink = NodeHandle::new(None, "sink".to_string());
    dag.add_source(src.clone(), SourceKind::Generator { count: 10, persisted: false }).unwrap();
    dag.add_processor(proc.clone(), ProcessorKind::Passthrough).unwrap();
    dag.add_sink(sink.clone(), SinkKind::Counting { expected: 10 }).unwrap();
    dag.connect(
        Endpoint::new(src, GENERATOR_SOURCE_OUTPUT_PORT),
        Endpoint::new(proc.clone(), DEFAULT_PORT_HANDLE),
    )
    .unwrap();
    dag.connect(
        Endpoint::new(proc, DEFAULT_PORT_HANDLE),
        Endpoint::new(sink, COUNTING_SINK_INPUT_PORT),
    )
    .unwrap();
    let built: BuilderDag = dag.build().unwrap();
    assert_eq!(built.edges.len(), 2);
    // One channel per edge in the runtime topology.
    let exec = ExecutionDag::new(built, 16);
    assert_eq!(exec.edges.len(), 2);
}

#[test]
fn build_rejects_unconnected_input() {
    let mut dag = Dag::new();
    let sink = NodeHandle::new(None, "sink".to_string());
    dag.add_sink(sink, SinkKind::Counting { expected: 0 }).unwrap();
    assert_eq!(dag.build().unwrap_err(), BuildError::UnconnectedInputPort);
}

#[test]
fn duplicate_handles_and_bad_ports() {
    let mut dag = Dag::new();
    let a = NodeHandle::new(None, "a".to_string());
    dag.add_source(a.clone(), SourceKind::Generator { count: 1, persisted: false }).unwrap();
    assert_eq!(
        dag.add_source(a.clone(), SourceKind::Generator { count: 1, persisted: false }),
        Err(BuildError::DuplicateNodeHandle)
    );
    let missing = NodeHandle::new(None, "missing".to_string());
    assert_eq!(
        dag.connect(
            Endpoint::new(a.clone(), GENERATOR_SOURCE_OUTPUT_PORT),
            Endpoint::new(missing, 1),
        ),
        Err(BuildError::InvalidNodeHandle)
    );
    let b = NodeHandle::new(None, "b".to_string());
    dag.add_processor(b.clone(), ProcessorKind::NoopJoin).unwrap();
    assert_eq!(
        dag.connect(Endpoint::new(a.clone(), 7), Endpoint::new(b.clone(), 1)),
        Err(BuildError::UnknownPort)
    );
    dag.connect(Endpoint::new(a.clone(), GENERATOR_SOURCE_OUTPUT_PORT), Endpoint::new(b.clone(), 1))
        .unwrap();
    assert_eq!(
        dag.connect(Endpoint::new(a, GENERATOR_SOURCE_OUTPUT_PORT), Endpoint::new(b, 1)),
        Err(BuildError::InputPortAlreadyConnected)
    );
}

#[test]
fn merge_rewrites_namespaces() {
    let mut parent = Dag::new();
    let src = NodeHandle::new(None, "src".to_string());
    parent.add_source(src.clone(), SourceKind::Generator { count: 5, persisted: false }).unwrap();
    let mut child = Dag::new();
    let proc = NodeHandle::new(None, "proc".to_string());
    let sink = NodeHandle::new(None, "sink".to_string());
    child.add_processor(proc.clone(), ProcessorKind::NoopJoin).unwrap();
    child.add_sink(sink.clone(), SinkKind::Counting { expected: 10 }).unwrap();
    child
        .connect(
            Endpoint::new(proc.clone(), DEFAULT_PORT_HANDLE),
            Endpoint::new(sink, COUNTING_SINK_INPUT_PORT),
        )
        .unwrap();
    parent.merge(Some(0), child).unwrap();
    // The child's nodes now carry the namespace.
    parent
        .connect(
            Endpoint::new(src.clone(), GENERATOR_SOURCE_OUTPUT_PORT),
            Endpoint::new(NodeHandle::new(Some(0), "proc".to_string()), 1),
        )
        .unwrap();
    parent
        .connect(
            Endpoint::new(src, GENERATOR_SOURCE_OUTPUT_PORT),
            Endpoint::new(NodeHandle::new(Some(0), "proc".to_string()), 2),
        )
        .unwrap();
    assert!(parent.build().is_ok());
}

#[test]
fn epoch_manager_seals_and_is_monotonic() {
    let mut m = EpochManager::new(2);
    assert!(m.report(0, SourceState { txid: 1, seqno: 0 }).is_none());
    let e0 = m.report(1, SourceState { txid: 2, seqno: 0 }).unwrap();
    assert_eq!(e0.id, 0);
    assert_eq!(e0.states[0], SourceState { txid: 1, seqno: 0 });
    assert_eq!(e0.states[1], SourceState { txid: 2, seqno: 0 });
    assert!(m.report(0, SourceState { txid: 3, seqno: 1 }).is_none());
    let e1 = m.report(1, SourceState { txid: 2, seqno: 5 }).unwrap();
    assert_eq!(e1.id, 1);
    assert!(e1.states[0].txid >= e0.states[0].txid);
    assert!(e1.states[1].txid > e0.states[1].txid || e1.states[1].seqno >= e0.states[1].seqno);
}

#[test]
fn epoch_seals_under_idleness() {
    // One source goes idle after its last report; the epoch still
    // seals carrying its last position.
    let mut m = EpochManager::new(2);
    assert!(m.report(0, SourceState { txid: 10, seqno: 4 }).is_none());
    let e0 = m.report(1, SourceState { txid: 1, seqno: 0 }).unwrap();
    assert_eq!(e0.states[0], SourceState { txid: 10, seqno: 4 });
    assert!(m.report_idle(0).is_none());
    let e1 = m.report_idle(1).unwrap();
    assert_eq!(e1.id, 1);
    assert_eq!(e1.states[0], SourceState { txid: 10, seqno: 4 });
}

#[test]
fn epoch_deregister_shrinks_barrier() {
    let mut m = EpochManager::new(2);
    m.deregister(1);
    let e = m.report(0, SourceState { txid: 1, seqno: 1 }).unwrap();
    assert_eq!(e.id, 0);
}

#[test]
fn barrier_commit_waits_for_all_ports() {
    let mut b = BarrierState::new(2);
    assert_eq!(b.step(0, Operation::SnapshottingDone), BarrierAction::ForwardSnapshottingDone);
    assert_eq!(b.step(1, Operation::SnapshottingDone), BarrierAction::ForwardSnapshottingDone);
    // The first commit holds at the barrier; the second completes it.
    assert_eq!(b.step(0, Operation::Commit { epoch_id: 0 }), BarrierAction::Hold);
    assert_eq!(
        b.step(1, Operation::Commit { epoch_id: 0 }),
        BarrierAction::CommitAndForward(0)
    );
    // Terminate drains port by port; the last forwards and exits.
    assert_eq!(b.step(0, Operation::Terminate), BarrierAction::Hold);
    assert!(!b.exited);
    assert_eq!(b.step(1, Operation::Terminate), BarrierAction::ForwardTerminateAndExit);
    assert!(b.exited);
}

#[test]
fn barrier_delivers_data() {
    let mut b = BarrierState::new(1);
    let op = Operation::Insert { new: sample_record(1) };
    assert_eq!(b.step(0, op.clone()), BarrierAction::Deliver(op));
}

#[test]
fn store_put_get_delete() {
    let store = RecordStore::new();
    let mut txn = store.begin();
    txn.put(vec![1, 2], vec![9]);
    assert_eq!(txn.get(&[1, 2]), Some(vec![9]));
    txn.put(vec![1, 2], vec![8]);
    assert_eq!(txn.get(&[1, 2]), Some(vec![8]));
    txn.delete(&[1, 2]);
    assert_eq!(txn.get(&[1, 2]), None);
}

#[test]
fn prefix_transactions_do_not_collide() {
    let store = RecordStore::new();
    let txn = store.begin();
    let mut p1 = PrefixTransaction::new(txn, vec![1]);
    p1.put(&[7], vec![1]);
    let txn = p1.into_inner();
    let mut p2 = PrefixTransaction::new(txn, vec![2]);
    assert_eq!(p2.get(&[7]), None);
    p2.put(&[7], vec![2]);
    let txn = p2.into_inner();
    let p1 = PrefixTransaction::new(txn, vec![1]);
    assert_eq!(p1.get(&[7]), Some(vec![1]));
}

#[test]
fn three_records_then_lookup() {
    // A primary-key writer persists inserts; once committed, a reader
    // for the same prefix observes the record stored under its key.
    let mut store = RecordStore::new();
    let mut txn = store.begin();
    let writer = PrimaryKeyWriter::new(vec![5], vec![0usize]);
    for i in 0..10u64 {
        let op = Operation::Insert { new: sample_record(i) };
        writer.write(&op, &mut txn);
    }
    store.commit(txn);
    let reader = RecordReader::new(vec![5]);
    let key = field_to_bytes(&Field::UInt(5));
    let got = reader.get(&store, key.as_slice()).unwrap();
    assert_eq!(got, record_to_bytes(&sample_record(5)));
    let missing = field_to_bytes(&Field::UInt(55));
    assert!(reader.get(&store, missing.as_slice()).is_none());
}

#[test]
fn writer_applies_deletes_and_updates() {
    let mut store = RecordStore::new();
    let mut txn = store.begin();
    let writer = PrimaryKeyWriter::new(vec![], vec![0usize]);
    writer.write(&Operation::Insert { new: sample_record(1) }, &mut txn);
    writer.write(
        &Operation::Update { old: sample_record(1), new: sample_record(2) },
        &mut txn,
    );
    writer.write(&Operation::Delete { old: sample_record(2) }, &mut txn);
    store.commit(txn);
    let reader = RecordReader::new(vec![]);
    let k1 = field_to_bytes(&Field::UInt(1));
    let k2 = field_to_bytes(&Field::UInt(2));
    assert!(reader.get(&store, k1.as_slice()).is_none());
    assert!(reader.get(&store, k2.as_slice()).is_none());
}

#[test]
fn checkpoint_record_layout() {
    let handles = vec![NodeHandle::new(None, "s".to_string())];
    let states = vec![SourceState { txid: 3, seqno: 9 }];
    let b = checkpoint_to_bytes(7, &handles, &states);
    // Epoch id, then the source count.
    assert_eq!(&b[0..8], &[0, 0, 0, 0, 0, 0, 0, 7]);
    assert_eq!(&b[8..12], &[0, 0, 0, 1]);
    // Namespace marker, name, transaction id, sequence number.
    assert_eq!(b[12], 0);
    assert_eq!(&b[13..17], &[0, 0, 0, 1]);
    assert_eq!(&b[17..21], &[0, 0, 0, 0x73]);
    assert_eq!(&b[21..29], &[0, 0, 0, 0, 0, 0, 0, 3]);
    assert_eq!(&b[29..37], &[0, 0, 0, 0, 0, 0, 0, 9]);
}

#[test]
fn collecting_senders_and_receivers() {
    let mut dag = Dag::new();
    let src = NodeHandle::new(None, "src".to_string());
    let sink = NodeHandle::new(None, "sink".to_string());
    dag.add_source(src.clone(), SourceKind::Generator { count: 3, persisted: true }).unwrap();
    dag.add_sink(sink.clone(), SinkKind::Counting { expected: 3 }).unwrap();
    dag.connect(
        Endpoint::new(src, GENERATOR_SOURCE_OUTPUT_PORT),
        Endpoint::new(sink, COUNTING_SINK_INPUT_PORT),
    )
    .unwrap();
    let built = dag.build().unwrap();
    assert_eq!(built.edges[0].port_type, PortPersistence::PrimaryKey);
    let mut exec = ExecutionDag::new(built, 8);
    let (senders, writers) = exec.collect_senders_and_record_writers(0);
    assert_eq!(senders.len(), 1);
    assert_eq!(writers.len(), 1);
    // The writer was moved out: a second collection finds none.
    let (_, writers2) = exec.collect_senders_and_record_writers(0);
    assert!(writers2.is_empty());
    let (receivers, readers) = exec.collect_receivers_and_record_readers(1);
    assert_eq!(receivers.len(), 1);
    assert_eq!(readers.len(), 1);
    let node = exec.take_node(0);
    assert!(node.is_some());
    assert!(exec.take_node(0).is_none());
}

#[test]
fn eth_id_and_values() {
    let log = EthLog {
        address: "0xabc".to_string(),
        topics: vec!["t0".to_string(), "t1".to_string()],
        data: vec![1, 2],
        block_hash: Some("bh".to_string()),
        block_number: Some(12),
        transaction_hash: None,
        transaction_index: Some(3),
        log_index: Some(4),
        transaction_log_index: None,
        log_type: None,
        removed: Some(false),
        decoded: None,
    };
    assert_eq!(get_id(&log), 12 * 100_000 + 4 * 2);
    let values = map_log_to_values(&log);
    assert_eq!(values.len(), 12);
    assert_eq!(values[0], Field::UInt(1_200_008));
    assert_eq!(values[1], Field::String("0xabc".to_string()));
    assert_eq!(values[2], Field::Text("t0 t1".to_string()));
    assert_eq!(values[6], Field::Null);
    assert_eq!(values[11], Field::Boolean(false));
}

#[test]
fn eth_log_event_requires_table() {
    let log = EthLog {
        address: "a".to_string(),
        topics: vec![],
        data: vec![],
        block_hash: None,
        block_number: Some(1),
        transaction_hash: None,
        transaction_index: Some(0),
        log_index: Some(0),
        transaction_log_index: None,
        log_type: None,
        removed: None,
        decoded: None,
    };
    assert!(map_log_to_event(log.clone(), &vec![]).is_none());
    let tables = vec![TableInfo {
        name: "eth_logs".to_string(),
        table_name: "eth_logs".to_string(),
        id: 0,
        columns: None,
    }];
    let op = map_log_to_event(log, &tables).unwrap();
    match op {
        Operation::Insert { new } => assert_eq!(new.values.len(), 12),
        _ => panic!("expected an insert"),
    }
}

#[test]
fn eth_schema_shape() {
    let s = get_eth_schema();
    assert_eq!(s.fields.len(), 12);
    assert_eq!(s.primary_index, vec![0]);
    assert_eq!(s.fields[0].name, "id");
    assert_eq!(s.fields[0].typ, FieldType::UInt);
    assert_eq!(s.fields[11].name, "removed");
}

#[test]
fn eth_token_mapping() {
    assert_eq!(
        map_abitype_to_field(EthToken::Uint(9)),
        Field::UInt(9)
    );
    assert_eq!(
        map_abitype_to_field(EthToken::Composite(vec!["a".to_string(), "b".to_string()])),
        Field::Text("a,b".to_string())
    );
    assert_eq!(join_strings(&vec![], ","), "".to_string());
    assert_eq!(join_strings(&vec!["x".to_string()], ","), "x".to_string());
}

#[test]
fn eth_decode_event_matches_contract() {
    let event = EthEvent {
        name: "Transfer".to_string(),
        signature: "sig0".to_string(),
        inputs: vec![EthEventInput { name: "from".to_string(), kind: EthParamKind::Address }],
    };
    let tuple = ContractTuple { events: vec![event], name: "erc20".to_string() };
    assert_eq!(get_table_name(&tuple, "Transfer"), "erc20_Transfer".to_string());
    let contracts = vec![("0xfeed".to_string(), tuple)];
    let schema_map = vec![("sig0".to_string(), 4u32)];
    let tables = vec![TableInfo {
        name: "erc20_Transfer".to_string(),
        table_name: "erc20_Transfer".to_string(),
        id: 0,
        columns: None,
    }];
    let log = EthLog {
        address: "0xfeed".to_string(),
        topics: vec!["sig0".to_string()],
        data: vec![],
        block_hash: None,
        block_number: Some(1),
        transaction_hash: None,
        transaction_index: Some(0),
        log_index: Some(0),
        transaction_log_index: None,
        log_type: None,
        removed: None,
        decoded: Some(vec![EthToken::Address("0xsender".to_string())]),
    };
    let op = decode_event(log.clone(), &contracts, &tables, &schema_map).unwrap();
    match op {
        Operation::Insert { new } => {
            assert_eq!(new.values, vec![Field::String("0xsender".to_string())]);
        }
        _ => panic!("expected an insert"),
    }
    // An unknown address finds no contract.
    let mut other = log;
    other.address = "0xother".to_string();
    assert!(decode_event(other, &contracts, &tables, &schema_map).is_none());
}

#[test]
fn connector_dispatch() {
    let c = Connection { name: "pg".to_string(), config: Some(ConnectionConfig::Postgres) };
    assert_eq!(get_connector(c).unwrap(), ConnectorKind::Postgres { name: "pg".to_string() });
    let c = Connection { name: "n".to_string(), config: None };
    assert_eq!(
        get_connector(c).unwrap_err(),
        ConnectorError::MissingConfiguration("n".to_string())
    );
    let c = Connection {
        name: "e".to_string(),
        config: Some(ConnectionConfig::Ethereum { provider: Some(EthProviderConfig::Log) }),
    };
    assert_eq!(get_connector(c).unwrap(), ConnectorKind::EthLog { name: "e".to_string() });
    let c = Connection {
        name: "e2".to_string(),
        config: Some(ConnectionConfig::Ethereum { provider: None }),
    };
    assert_eq!(
        get_connector(c).unwrap_err(),
        ConnectorError::MissingProvider("e2".to_string())
    );
    let c = Connection { name: "s".to_string(), config: Some(ConnectionConfig::LocalStorage) };
    assert_eq!(get_connector(c).unwrap(), ConnectorKind::ObjectStore);
}

#[test]
fn connector_info_table() {
    let c = Connection { name: "pg".to_string(), config: Some(ConnectionConfig::Postgres) };
    let t = get_connector_info_table(&c).unwrap();
    assert_eq!(t.rows.len(), 1);
    assert_eq!(t.rows[0].0, "connection_type");
    assert_eq!(t.rows[0].1, "postgres");
    let none = Connection { name: "x".to_string(), config: None };
    assert!(get_connector_info_table(&none).is_none());
}

#[test]
fn default_tables_from_schemas() {
    let mut schema = Schema::empty();
    schema.field(
        FieldDefinition::new(
            "c1".to_string(),
            FieldType::Int,
            false,
            SourceDefinition::Dynamic,
        ),
        false,
    );
    let schemas = vec![SourceSchema::new(
        "t1".to_string(),
        schema,
        ReplicationChangesTrackingType::Nothing,
    )];
    let tables = tables_from_schemas(&schemas);
    assert_eq!(tables.len(), 1);
    assert_eq!(tables[0].name, "t1");
    assert_eq!(tables[0].id, 0);
    let cols = tables[0].columns.as_ref().unwrap();
    assert_eq!(cols[0], ColumnInfo::new("c1".to_string(), Some("int".to_string())));
}

#[test]
fn admin_config_defaults() {
    let c = AdminCliConfig::default();
    assert_eq!(c.port, 8081);
    assert_eq!(c.ui_port, 3000);
    assert_eq!(c.host, "[::0]");
    assert!(c.cors);
    assert_eq!(c.home_dir, "./.dozer");
    assert_eq!(c.ui_path, "./ui");
}

#[test]
fn schema_bootstrap_waits_for_all() {
    let mut b = SchemaBootstrap::new(2);
    assert!(!b.ready());
    b.insert("a".to_string(), Schema::empty());
    b.insert("a".to_string(), Schema::empty());
    assert!(!b.ready());
    b.insert("b".to_string(), Schema::empty());
    assert!(b.ready());
}

#[test]
fn service_name_is_camel_cased() {
    assert_eq!(grpc_service_name("api_service"), "Dozer.ApiServiceService");
    assert_eq!(grpc_service_name("films"), "Dozer.FilmsService");
}
