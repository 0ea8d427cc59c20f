//! The bridge toward the serving layer: collecting one schema per
//! endpoint before the dynamic services start, and naming the service
//! each endpoint is served under.

use vstd::prelude::*;

use crate::types::Schema;

verus! {

/// Collects the schema events emitted at startup, one per endpoint;
/// the serving layer proceeds only when every endpoint has reported.
pub struct SchemaBootstrap {
    pub expected: usize,
    pub schemas: Vec<(String, Schema)>,
}

impl SchemaBootstrap {
    /// No endpoint is recorded twice.
    pub open spec fn wf(self) -> bool {
        forall|i: int, j: int|
            0 <= i < j < self.schemas@.len() ==> (#[trigger] self.schemas@[i]).0@ != (
            #[trigger] self.schemas@[j]).0@
    }

    pub fn new(expected: usize) -> (r: Self)
        ensures
            r.wf(),
            r.expected == expected,
            r.schemas@.len() == 0,
    {
        SchemaBootstrap { expected, schemas: Vec::new() }
    }

    /// Records an endpoint's schema; a repeated endpoint replaces
    /// nothing and is ignored.
    pub fn insert(&mut self, endpoint: String, schema: Schema)
        requires
            old(self).wf(),
        ensures
            final(self).wf(),
            final(self).expected == old(self).expected,
            (exists|i: int|
                0 <= i < old(self).schemas@.len() && (#[trigger] old(self).schemas@[i]).0@
                    == endpoint@) ==> *final(self) == *old(self),
            !(exists|i: int|
                0 <= i < old(self).schemas@.len() && (#[trigger] old(self).schemas@[i]).0@
                    == endpoint@) ==> final(self).schemas@ == old(self).schemas@.push(
                (endpoint, schema),
            ),
    {
        let mut i: usize = 0;
        while i < self.schemas.len()
            invariant
                *self == *old(self),
                old(self).wf(),
                i <= self.schemas@.len(),
                forall|j: int| 0 <= j < i ==> (#[trigger] self.schemas@[j]).0@ != endpoint@,
            decreases self.schemas@.len() - i,
        {
            if self.schemas[i].0.eq(&endpoint) {
                return ;
            }
            i += 1;
        }
        self.schemas.push((endpoint, schema));
    }

    /// Whether every endpoint has reported its schema.
    pub fn ready(&self) -> (r: bool)
        ensures
            r == (self.schemas@.len() >= self.expected),
    {
        self.schemas.len() >= self.expected
    }
}

/// The upper-camel-case rendering of a name, as the case-folding
/// library computes it from the characters alone.
pub uninterp spec fn upper_camel_of(s: Seq<char>) -> Seq<char>;

/// Relies on heck's `ToUpperCamelCase` for `str`: the rendering
/// depends on the input characters alone.
#[verifier::external_body]
fn to_upper_camel(s: &str) -> (r: String)
    ensures
        r@ == upper_camel_of(s@),
{
    heck::ToUpperCamelCase::to_upper_camel_case(s)
}

/// The service name an endpoint's schema is served under.
pub fn grpc_service_name(schema_name: &str) -> (r: String)
    ensures
        r@ == "Dozer."@ + upper_camel_of(schema_name@) + "Service"@,
{
    let mut r = String::from_str("Dozer.");
    let camel = to_upper_camel(schema_name);
    r.append(camel.as_str());
    r.append("Service");
    r
}

} // verus!
