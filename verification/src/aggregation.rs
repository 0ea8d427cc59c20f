//! Aggregation operators over persisted state.  The count aggregator
//! keeps one signed counter as 8 big-endian state bytes: inserts add
//! one, deletes subtract one, updates leave the count unchanged.

use vstd::prelude::*;

use crate::codec::{
    i64_from_be_bytes, i64_to_be_bytes, spec_i64_from_be_bytes, spec_i64_to_be_bytes,
};
use crate::record_store::PrefixTransaction;
use crate::types::{Field, FieldType};

verus! {

/// Failures inside the aggregation pipeline.
#[derive(Clone, PartialEq, Eq, Debug)]
pub enum PipelineError {
    InvalidOperandType(String),
}

/// The value an aggregator computed plus the state bytes to persist.
#[derive(Clone, PartialEq, Eq, Debug)]
pub struct AggregationResult {
    pub value: Field,
    pub state: Option<Vec<u8>>,
}

impl AggregationResult {
    pub fn new(value: Field, state: Option<Vec<u8>>) -> (r: Self)
        ensures
            r.value == value,
            r.state == state,
    {
        AggregationResult { value, state }
    }
}

/// The counter a stored state denotes: absent state counts as zero.
pub open spec fn spec_count_state(cur_state: Option<Seq<u8>>) -> i64 {
    match cur_state {
        Option::None => 0,
        Option::Some(s) => spec_i64_from_be_bytes(s),
    }
}

/// State bytes are either absent or a full 8-byte counter.
pub open spec fn spec_state_wf(cur_state: Option<Seq<u8>>) -> bool {
    match cur_state {
        Option::None => true,
        Option::Some(s) => s.len() == 8,
    }
}

/// Reads the counter out of optional state bytes.
fn read_count(cur_state: Option<&[u8]>) -> (r: i64)
    requires
        spec_state_wf(spec_state_view(cur_state)),
    ensures
        r == spec_count_state(spec_state_view(cur_state)),
{
    match cur_state {
        Option::None => 0,
        Option::Some(s) => i64_from_be_bytes(s),
    }
}

/// The byte view of an optional state slice.
pub open spec fn spec_state_view(cur_state: Option<&[u8]>) -> Option<Seq<u8>> {
    match cur_state {
        Option::None => Option::None,
        Option::Some(s) => Option::Some(s@),
    }
}

/// Counts records grouped under one key.
pub struct CountAggregator {}

impl CountAggregator {
    /// A new record arrived: the count grows by one.
    pub fn insert(
        cur_state: Option<&[u8]>,
        _new: &Field,
        _return_type: FieldType,
        _txn: &mut PrefixTransaction,
    ) -> (r: Result<AggregationResult, PipelineError>)
        requires
            spec_state_wf(spec_state_view(cur_state)),
            spec_count_state(spec_state_view(cur_state)) < i64::MAX,
        ensures
            *final(_txn) == *old(_txn),
            match r {
                Result::Ok(a) => {
                    &&& a.value == Field::Int(
                        (spec_count_state(spec_state_view(cur_state)) + 1) as i64,
                    )
                    &&& a.state is Some
                    &&& a.state->0@ == spec_i64_to_be_bytes(
                        (spec_count_state(spec_state_view(cur_state)) + 1) as i64,
                    )
                },
                Result::Err(_) => false,
            },
    {
        let prev = read_count(cur_state);
        let buf = i64_to_be_bytes(prev + 1);
        proof {
            crate::codec::lemma_i64_be_bytes_roundtrip((prev + 1) as i64);
        }
        Result::Ok(AggregationResult::new(Self::get_value(buf.as_slice()), Option::Some(buf)))
    }

    /// An existing record changed: the count is unchanged.
    pub fn update(
        cur_state: Option<&[u8]>,
        _old: &Field,
        _new: &Field,
        _return_type: FieldType,
        _txn: &mut PrefixTransaction,
    ) -> (r: Result<AggregationResult, PipelineError>)
        requires
            spec_state_wf(spec_state_view(cur_state)),
        ensures
            *final(_txn) == *old(_txn),
            match r {
                Result::Ok(a) => {
                    &&& a.value == Field::Int(spec_count_state(spec_state_view(cur_state)))
                    &&& a.state is Some
                    &&& a.state->0@ == spec_i64_to_be_bytes(
                        spec_count_state(spec_state_view(cur_state)),
                    )
                },
                Result::Err(_) => false,
            },
    {
        let prev = read_count(cur_state);
        let buf = i64_to_be_bytes(prev);
        proof {
            crate::codec::lemma_i64_be_bytes_roundtrip(prev);
        }
        Result::Ok(AggregationResult::new(Self::get_value(buf.as_slice()), Option::Some(buf)))
    }

    /// A record left: the count shrinks by one.
    pub fn delete(
        cur_state: Option<&[u8]>,
        _old: &Field,
        _return_type: FieldType,
        _txn: &mut PrefixTransaction,
    ) -> (r: Result<AggregationResult, PipelineError>)
        requires
            spec_state_wf(spec_state_view(cur_state)),
            spec_count_state(spec_state_view(cur_state)) > i64::MIN,
        ensures
            *final(_txn) == *old(_txn),
            match r {
                Result::Ok(a) => {
                    &&& a.value == Field::Int(
                        (spec_count_state(spec_state_view(cur_state)) - 1) as i64,
                    )
                    &&& a.state is Some
                    &&& a.state->0@ == spec_i64_to_be_bytes(
                        (spec_count_state(spec_state_view(cur_state)) - 1) as i64,
                    )
                },
                Result::Err(_) => false,
            },
    {
        let prev = read_count(cur_state);
        let buf = i64_to_be_bytes(prev - 1);
        proof {
            crate::codec::lemma_i64_be_bytes_roundtrip((prev - 1) as i64);
        }
        Result::Ok(AggregationResult::new(Self::get_value(buf.as_slice()), Option::Some(buf)))
    }

    /// The field value a stored counter denotes.
    pub fn get_value(f: &[u8]) -> (r: Field)
        requires
            f@.len() == 8,
        ensures
            r == Field::Int(spec_i64_from_be_bytes(f@)),
    {
        Field::Int(i64_from_be_bytes(f))
    }
}

} // verus!
