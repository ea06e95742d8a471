//! The closed set of typed values that the embedded graph engine returns,
//! together with their mathematical views and canonical string forms.
//!
//! Scalars carry their payload directly.  Floating-point results and values
//! of kinds this core does not inspect are carried as the engine's own text
//! rendering, since the projection only ever displays them.

use vstd::prelude::*;
use vstd::string::StringExecFns;
use crate::text::{spec_i64_string, spec_u64_string, i64_to_string, u64_to_string};

verus! {

/// The engine's stable address for one stored entity instance.
#[derive(Clone, Copy, Debug, PartialEq, Eq, Structural)]
pub struct InternalId {
    pub table_id: u64,
    pub offset: u64,
}

/// One typed value out of a query result row.
#[derive(Debug)]
pub enum Value {
    /// A string scalar.
    Text(String),
    Int8(i8),
    Int16(i16),
    Int32(i32),
    Int64(i64),
    /// A 32-bit float, carried as its decimal text rendering.
    Float32Text(String),
    /// A 64-bit float, carried as its decimal text rendering.
    Float64Text(String),
    Boolean(bool),
    /// A bare internal identifier.
    Id(InternalId),
    /// A node instance.
    Node(NodeValue),
    /// A relationship instance.
    Rel(RelValue),
    /// Any other engine value, carried as its text rendering.
    Other(String),
}

/// A node instance: its identifier, its entity type name, and its ordered
/// property list.  Property keys are not guaranteed unique by the engine, so
/// lookups must take the first match.
#[derive(Debug)]
pub struct NodeValue {
    pub id: InternalId,
    pub label: String,
    pub props: Vec<(String, Value)>,
}

/// A relationship instance: its type name and its two endpoints.
#[derive(Debug)]
pub struct RelValue {
    pub label: String,
    pub src: InternalId,
    pub dst: InternalId,
}

/// Mathematical view of a `Value`.
#[verifier::ext_equal]
pub ghost enum SpecValue {
    Text(Seq<char>),
    Int8(i8),
    Int16(i16),
    Int32(i32),
    Int64(i64),
    Float32Text(Seq<char>),
    Float64Text(Seq<char>),
    Boolean(bool),
    Id(InternalId),
    Node(SpecNodeValue),
    Rel(SpecRelValue),
    Other(Seq<char>),
}

/// Mathematical view of a `NodeValue`.
#[verifier::ext_equal]
pub ghost struct SpecNodeValue {
    pub id: InternalId,
    pub label: Seq<char>,
    pub props: Seq<(Seq<char>, SpecValue)>,
}

/// Mathematical view of a `RelValue`.
#[verifier::ext_equal]
pub ghost struct SpecRelValue {
    pub label: Seq<char>,
    pub src: InternalId,
    pub dst: InternalId,
}

pub open spec fn spec_value(v: Value) -> SpecValue
    decreases v,
{
    match v {
        Value::Text(s) => SpecValue::Text(s@),
        Value::Int8(n) => SpecValue::Int8(n),
        Value::Int16(n) => SpecValue::Int16(n),
        Value::Int32(n) => SpecValue::Int32(n),
        Value::Int64(n) => SpecValue::Int64(n),
        Value::Float32Text(s) => SpecValue::Float32Text(s@),
        Value::Float64Text(s) => SpecValue::Float64Text(s@),
        Value::Boolean(b) => SpecValue::Boolean(b),
        Value::Id(id) => SpecValue::Id(id),
        Value::Node(n) => SpecValue::Node(spec_node_value(n)),
        Value::Rel(r) => SpecValue::Rel(spec_rel_value(r)),
        Value::Other(s) => SpecValue::Other(s@),
    }
}

pub open spec fn spec_node_value(n: NodeValue) -> SpecNodeValue
    decreases n,
{
    SpecNodeValue { id: n.id, label: n.label@, props: spec_props(n.props@) }
}

pub open spec fn spec_rel_value(r: RelValue) -> SpecRelValue {
    SpecRelValue { label: r.label@, src: r.src, dst: r.dst }
}

pub open spec fn spec_props(ps: Seq<(String, Value)>) -> Seq<(Seq<char>, SpecValue)>
    decreases ps,
{
    if ps.len() == 0 {
        Seq::empty()
    } else {
        spec_props(ps.drop_last()).push((ps.last().0@, spec_value(ps.last().1)))
    }
}

pub proof fn lemma_spec_props_index(ps: Seq<(String, Value)>)
    ensures
        spec_props(ps).len() == ps.len(),
        forall|i: int|
            0 <= i < ps.len() ==> spec_props(ps)[i] == (ps[i].0@, spec_value(ps[i].1)),
    decreases ps,
{
    if ps.len() > 0 {
        lemma_spec_props_index(ps.drop_last());
        assert forall|i: int| 0 <= i < ps.len() implies spec_props(ps)[i] == (
        ps[i].0@,
        spec_value(ps[i].1),
        ) by {
            if i < ps.len() - 1 {
                assert(ps.drop_last()[i] == ps[i]);
            }
        }
    }
}

impl View for Value {
    type V = SpecValue;

    open spec fn view(&self) -> SpecValue {
        spec_value(*self)
    }
}

impl DeepView for Value {
    type V = SpecValue;

    open spec fn deep_view(&self) -> SpecValue {
        spec_value(*self)
    }
}

impl View for NodeValue {
    type V = SpecNodeValue;

    open spec fn view(&self) -> SpecNodeValue {
        spec_node_value(*self)
    }
}

impl View for RelValue {
    type V = SpecRelValue;

    open spec fn view(&self) -> SpecRelValue {
        spec_rel_value(*self)
    }
}

/// The canonical string form of an internal identifier: the table id and the
/// offset in decimal, joined by ':'.
pub open spec fn spec_id_string(id: InternalId) -> Seq<char> {
    spec_u64_string(id.table_id as nat) + seq![':'] + spec_u64_string(id.offset as nat)
}

/// The display string of a value: string scalars verbatim, numbers and
/// booleans in their decimal form, floats and unrecognized values as the text
/// they carry, and entity values by their identifier or type name.
pub open spec fn spec_value_string(v: SpecValue) -> Seq<char> {
    match v {
        SpecValue::Text(s) => s,
        SpecValue::Int8(n) => spec_i64_string(n as int),
        SpecValue::Int16(n) => spec_i64_string(n as int),
        SpecValue::Int32(n) => spec_i64_string(n as int),
        SpecValue::Int64(n) => spec_i64_string(n as int),
        SpecValue::Float32Text(s) => s,
        SpecValue::Float64Text(s) => s,
        SpecValue::Boolean(b) => if b {
            "true"@
        } else {
            "false"@
        },
        SpecValue::Id(id) => spec_id_string(id),
        SpecValue::Node(n) => spec_id_string(n.id),
        SpecValue::Rel(r) => r.label,
        SpecValue::Other(s) => s,
    }
}

/// Renders an internal identifier in its canonical `table:offset` form.
pub fn id_to_string(id: &InternalId) -> (r: String)
    ensures
        r@ == spec_id_string(*id),
{
    let mut r = u64_to_string(id.table_id);
    r.append(":");
    proof {
        reveal_strlit(":");
        assert(r@ =~= spec_u64_string(id.table_id as nat) + seq![':']);
    }
    r.append(u64_to_string(id.offset).as_str());
    proof {
        assert(r@ =~= spec_id_string(*id));
    }
    r
}

/// Renders a value as its display string.
pub fn value_to_string(v: &Value) -> (r: String)
    ensures
        r@ == spec_value_string(v@),
{
    match v {
        Value::Text(s) => s.clone(),
        Value::Int8(n) => i64_to_string(*n as i64),
        Value::Int16(n) => i64_to_string(*n as i64),
        Value::Int32(n) => i64_to_string(*n as i64),
        Value::Int64(n) => i64_to_string(*n),
        Value::Float32Text(s) => s.clone(),
        Value::Float64Text(s) => s.clone(),
        Value::Boolean(b) => {
            if *b {
                String::from_str("true")
            } else {
                String::from_str("false")
            }
        },
        Value::Id(id) => id_to_string(id),
        Value::Node(n) => id_to_string(&n.id),
        Value::Rel(r) => r.label.clone(),
        Value::Other(s) => s.clone(),
    }
}

} // verus!
