//! The graph projector: turns raw, heterogeneously typed query result rows
//! into a deduplicated node/link graph whose links only ever reference nodes
//! that are present in the same graph.
//!
//! Two extraction modes exist.  Overview mode consumes the fixed query pair
//! (an entity enumeration and a relationship enumeration).  Ad hoc mode
//! consumes the rows of one arbitrary query and scans every column of every
//! row.  Both are pure functions from rows to a graph; malformed rows are
//! skipped individually rather than failing the whole projection.

use vstd::prelude::*;
use vstd::string::StringExecFns;
use crate::text::str_eq;
use crate::value::{
    id_to_string, lemma_spec_props_index, spec_id_string, spec_node_value, spec_props,
    spec_rel_value, spec_value, spec_value_string, value_to_string, NodeValue, SpecNodeValue,
    SpecRelValue, SpecValue, Value,
};

verus! {

/// The fixed overview query enumerating entities as (entity, label, id)
/// rows, capped to the overview row limit.
pub const OVERVIEW_NODE_QUERY: &'static str =
    "MATCH (n) RETURN n, LABEL(n) as label, ID(n) as nodeId LIMIT 500";

/// The fixed overview query enumerating relationships as (source id,
/// target id, label) rows, capped to the overview row limit.
pub const OVERVIEW_LINK_QUERY: &'static str =
    "MATCH (a)-[r]->(b) RETURN ID(a) as src, ID(b) as dst, LABEL(r) as relType LIMIT 500";

/// One displayed node of a produced graph.
#[derive(Debug)]
pub struct GraphNode {
    pub id: String,
    pub name: String,
    pub label: String,
}

/// One displayed link of a produced graph; `source` and `target` are
/// canonical internal-identifier strings.
#[derive(Debug)]
pub struct GraphLink {
    pub source: String,
    pub target: String,
    pub label: String,
}

/// A visualization-ready graph: nodes in first-seen order, links in
/// discovery order after referential filtering.
#[derive(Debug)]
pub struct GraphData {
    pub nodes: Vec<GraphNode>,
    pub links: Vec<GraphLink>,
}

/// Mathematical view of a `GraphNode`.
#[verifier::ext_equal]
pub ghost struct SpecGraphNode {
    pub id: Seq<char>,
    pub name: Seq<char>,
    pub label: Seq<char>,
}

/// Mathematical view of a `GraphLink`.
#[verifier::ext_equal]
pub ghost struct SpecGraphLink {
    pub source: Seq<char>,
    pub target: Seq<char>,
    pub label: Seq<char>,
}

/// Mathematical view of a `GraphData`.
#[verifier::ext_equal]
pub ghost struct SpecGraphData {
    pub nodes: Seq<SpecGraphNode>,
    pub links: Seq<SpecGraphLink>,
}

impl View for GraphNode {
    type V = SpecGraphNode;

    open spec fn view(&self) -> SpecGraphNode {
        SpecGraphNode { id: self.id@, name: self.name@, label: self.label@ }
    }
}

impl DeepView for GraphNode {
    type V = SpecGraphNode;

    open spec fn deep_view(&self) -> SpecGraphNode {
        self.view()
    }
}

impl View for GraphLink {
    type V = SpecGraphLink;

    open spec fn view(&self) -> SpecGraphLink {
        SpecGraphLink { source: self.source@, target: self.target@, label: self.label@ }
    }
}

impl DeepView for GraphLink {
    type V = SpecGraphLink;

    open spec fn deep_view(&self) -> SpecGraphLink {
        self.view()
    }
}

impl View for GraphData {
    type V = SpecGraphData;

    open spec fn view(&self) -> SpecGraphData {
        SpecGraphData { nodes: self.nodes.deep_view(), links: self.links.deep_view() }
    }
}

/// The first property of `props` whose key is `key`, if any.
pub open spec fn spec_find_prop(props: Seq<(Seq<char>, SpecValue)>, key: Seq<char>) -> Option<
    SpecValue,
>
    decreases props,
{
    if props.len() == 0 {
        None
    } else if props[0].0 == key {
        Some(props[0].1)
    } else {
        spec_find_prop(props.drop_first(), key)
    }
}

/// The display name of a node: the first property named `name`, else `id`,
/// else `title`, rendered as a string; `"Node"` when none is present.
pub open spec fn spec_resolve_name(props: Seq<(Seq<char>, SpecValue)>) -> Seq<char> {
    match spec_find_prop(props, "name"@) {
        Some(v) => spec_value_string(v),
        None => match spec_find_prop(props, "id"@) {
            Some(v) => spec_value_string(v),
            None => match spec_find_prop(props, "title"@) {
                Some(v) => spec_value_string(v),
                None => "Node"@,
            },
        },
    }
}

/// The graph node denoted by one row of the overview entity query, whose
/// columns are (entity, label, internal-id); `None` when the row is too
/// short or its id column is not an internal identifier.
pub open spec fn spec_overview_node(row: Seq<SpecValue>) -> Option<SpecGraphNode> {
    if row.len() < 3 {
        None
    } else {
        match row[2] {
            SpecValue::Id(id) => Some(
                SpecGraphNode {
                    id: spec_id_string(id),
                    name: match row[0] {
                        SpecValue::Node(n) => spec_resolve_name(n.props),
                        _ => "Node"@,
                    },
                    label: match row[1] {
                        SpecValue::Text(s) => s,
                        _ => "Node"@,
                    },
                },
            ),
            _ => None,
        }
    }
}

/// The candidate link denoted by one row of the overview relationship
/// query, whose columns are (source id, target id, label); `None` when the
/// row is too short or an endpoint column is not an internal identifier.
pub open spec fn spec_overview_link(row: Seq<SpecValue>) -> Option<SpecGraphLink> {
    if row.len() < 3 {
        None
    } else {
        match (row[0], row[1]) {
            (SpecValue::Id(s), SpecValue::Id(d)) => Some(
                SpecGraphLink {
                    source: spec_id_string(s),
                    target: spec_id_string(d),
                    label: match row[2] {
                        SpecValue::Text(t) => t,
                        _ => Seq::empty(),
                    },
                },
            ),
            _ => None,
        }
    }
}

/// All graph nodes denoted by the overview entity rows, in row order.
pub open spec fn spec_overview_nodes(rows: Seq<Seq<SpecValue>>) -> Seq<SpecGraphNode>
    decreases rows,
{
    if rows.len() == 0 {
        Seq::empty()
    } else {
        let rest = spec_overview_nodes(rows.drop_last());
        match spec_overview_node(rows.last()) {
            Some(n) => rest.push(n),
            None => rest,
        }
    }
}

/// All candidate links denoted by the overview relationship rows, in row
/// order, before referential filtering.
pub open spec fn spec_overview_links(rows: Seq<Seq<SpecValue>>) -> Seq<SpecGraphLink>
    decreases rows,
{
    if rows.len() == 0 {
        Seq::empty()
    } else {
        let rest = spec_overview_links(rows.drop_last());
        match spec_overview_link(rows.last()) {
            Some(l) => rest.push(l),
            None => rest,
        }
    }
}

/// Whether some node of `nodes` has the id `id`.
pub open spec fn spec_has_node_id(nodes: Seq<SpecGraphNode>, id: Seq<char>) -> bool {
    exists|j: int| 0 <= j < nodes.len() && nodes[j].id == id
}

/// The candidate links whose source and target both occur as node ids, in
/// candidate order.
pub open spec fn spec_filter_links(
    cands: Seq<SpecGraphLink>,
    nodes: Seq<SpecGraphNode>,
) -> Seq<SpecGraphLink>
    decreases cands,
{
    if cands.len() == 0 {
        Seq::empty()
    } else {
        let rest = spec_filter_links(cands.drop_last(), nodes);
        let l = cands.last();
        if spec_has_node_id(nodes, l.source) && spec_has_node_id(nodes, l.target) {
            rest.push(l)
        } else {
            rest
        }
    }
}

/// Overview mode: the nodes of the entity rows, and the links of the
/// relationship rows restricted to those whose endpoints are both present.
pub open spec fn spec_overview_graph(
    node_rows: Seq<Seq<SpecValue>>,
    link_rows: Seq<Seq<SpecValue>>,
) -> SpecGraphData {
    let nodes = spec_overview_nodes(node_rows);
    SpecGraphData { nodes, links: spec_filter_links(spec_overview_links(link_rows), nodes) }
}

/// The graph node recorded for a node instance encountered in ad hoc mode.
pub open spec fn spec_node_entry(n: SpecNodeValue) -> SpecGraphNode {
    SpecGraphNode { id: spec_id_string(n.id), name: spec_resolve_name(n.props), label: n.label }
}

/// The candidate link recorded for a relationship instance encountered in
/// ad hoc mode.
pub open spec fn spec_link_entry(r: SpecRelValue) -> SpecGraphLink {
    SpecGraphLink { source: spec_id_string(r.src), target: spec_id_string(r.dst), label: r.label }
}

/// Accumulated state of the ad hoc scan: nodes in first-seen order and the
/// unfiltered link candidates in discovery order.
#[verifier::ext_equal]
pub ghost struct SpecAccum {
    pub nodes: Seq<SpecGraphNode>,
    pub cands: Seq<SpecGraphLink>,
}

/// One cell of one row, folded into the ad hoc scan state: a node instance
/// is recorded once per id (the first occurrence wins), a relationship
/// instance always adds a candidate link, anything else is ignored.
pub open spec fn spec_scan_cell(st: SpecAccum, v: SpecValue) -> SpecAccum {
    match v {
        SpecValue::Node(n) => {
            if spec_has_node_id(st.nodes, spec_id_string(n.id)) {
                st
            } else {
                SpecAccum { nodes: st.nodes.push(spec_node_entry(n)), cands: st.cands }
            }
        },
        SpecValue::Rel(r) => SpecAccum { nodes: st.nodes, cands: st.cands.push(spec_link_entry(r)) },
        _ => st,
    }
}

/// One row folded into the ad hoc scan state, cell by cell in column order.
pub open spec fn spec_scan_row(st: SpecAccum, row: Seq<SpecValue>) -> SpecAccum
    decreases row,
{
    if row.len() == 0 {
        st
    } else {
        spec_scan_cell(spec_scan_row(st, row.drop_last()), row.last())
    }
}

/// All rows folded into the ad hoc scan state, in row order.
pub open spec fn spec_scan_rows(st: SpecAccum, rows: Seq<Seq<SpecValue>>) -> SpecAccum
    decreases rows,
{
    if rows.len() == 0 {
        st
    } else {
        spec_scan_row(spec_scan_rows(st, rows.drop_last()), rows.last())
    }
}

/// The empty ad hoc scan state.
pub open spec fn spec_scan_init() -> SpecAccum {
    SpecAccum { nodes: Seq::empty(), cands: Seq::empty() }
}

/// Ad hoc mode: scan every column of every row, then keep only the
/// candidate links whose endpoints are both among the accumulated nodes.
pub open spec fn spec_query_graph(rows: Seq<Seq<SpecValue>>) -> SpecGraphData {
    let st = spec_scan_rows(spec_scan_init(), rows);
    SpecGraphData { nodes: st.nodes, links: spec_filter_links(st.cands, st.nodes) }
}

proof fn lemma_filter_links_referential(cands: Seq<SpecGraphLink>, nodes: Seq<SpecGraphNode>)
    ensures
        forall|i: int|
            0 <= i < spec_filter_links(cands, nodes).len() ==> spec_has_node_id(
                nodes,
                #[trigger] spec_filter_links(cands, nodes)[i].source,
            ) && spec_has_node_id(nodes, spec_filter_links(cands, nodes)[i].target),
    decreases cands,
{
    if cands.len() > 0 {
        lemma_filter_links_referential(cands.drop_last(), nodes);
        let full = spec_filter_links(cands, nodes);
        let rest = spec_filter_links(cands.drop_last(), nodes);
        assert forall|i: int| 0 <= i < full.len() implies spec_has_node_id(
            nodes,
            #[trigger] full[i].source,
        ) && spec_has_node_id(nodes, full[i].target) by {
            if i < rest.len() {
                assert(full[i] == rest[i]);
            }
        }
    }
}

/// Law: in an overview graph, every link's source and target are ids of
/// nodes present in the same graph.
pub proof fn lemma_overview_graph_referential_integrity(
    node_rows: Seq<Seq<SpecValue>>,
    link_rows: Seq<Seq<SpecValue>>,
)
    ensures
        forall|i: int|
            0 <= i < spec_overview_graph(node_rows, link_rows).links.len() ==> spec_has_node_id(
                spec_overview_graph(node_rows, link_rows).nodes,
                #[trigger] spec_overview_graph(node_rows, link_rows).links[i].source,
            ) && spec_has_node_id(
                spec_overview_graph(node_rows, link_rows).nodes,
                spec_overview_graph(node_rows, link_rows).links[i].target,
            ),
{
    lemma_filter_links_referential(
        spec_overview_links(link_rows),
        spec_overview_nodes(node_rows),
    );
}

/// Law: in an ad hoc graph, every link's source and target are ids of nodes
/// present in the same graph.
pub proof fn lemma_query_graph_referential_integrity(rows: Seq<Seq<SpecValue>>)
    ensures
        forall|i: int|
            0 <= i < spec_query_graph(rows).links.len() ==> spec_has_node_id(
                spec_query_graph(rows).nodes,
                #[trigger] spec_query_graph(rows).links[i].source,
            ) && spec_has_node_id(
                spec_query_graph(rows).nodes,
                spec_query_graph(rows).links[i].target,
            ),
{
    let st = spec_scan_rows(spec_scan_init(), rows);
    lemma_filter_links_referential(st.cands, st.nodes);
}

/// The first node instance among `cells` whose identifier renders as `id`.
pub open spec fn spec_first_node_cell(cells: Seq<SpecValue>, id: Seq<char>) -> Option<SpecNodeValue>
    decreases cells,
{
    if cells.len() == 0 {
        None
    } else {
        match cells[0] {
            SpecValue::Node(n) => if spec_id_string(n.id) == id {
                Some(n)
            } else {
                spec_first_node_cell(cells.drop_first(), id)
            },
            _ => spec_first_node_cell(cells.drop_first(), id),
        }
    }
}

/// No two nodes of `nodes` share an id.
pub open spec fn spec_nodes_distinct(nodes: Seq<SpecGraphNode>) -> bool {
    forall|k1: int, k2: int| 0 <= k1 < k2 < nodes.len() ==> nodes[k1].id != nodes[k2].id
}

/// The node instance recorded for one cell when no earlier cell matched:
/// the cell itself when it is a node instance whose identifier renders as
/// `id`, nothing otherwise.
pub open spec fn spec_cell_node_match(c: SpecValue, id: Seq<char>) -> Option<SpecNodeValue> {
    match c {
        SpecValue::Node(n) => if spec_id_string(n.id) == id {
            Some(n)
        } else {
            None
        },
        _ => None,
    }
}

proof fn lemma_first_node_cell_push(cells: Seq<SpecValue>, c: SpecValue, id: Seq<char>)
    ensures
        spec_first_node_cell(cells.push(c), id) == (if spec_first_node_cell(cells, id) is Some {
            spec_first_node_cell(cells, id)
        } else {
            spec_cell_node_match(c, id)
        }),
    decreases cells,
{
    reveal_with_fuel(spec_first_node_cell, 3);
    if cells.len() == 0 {
        assert(cells.push(c)[0] == c);
        assert(cells.push(c).drop_first() =~= Seq::<SpecValue>::empty());
    } else {
        assert(cells.push(c)[0] == cells[0]);
        assert(cells.push(c).drop_first() =~= cells.drop_first().push(c));
        lemma_first_node_cell_push(cells.drop_first(), c, id);
    }
}

proof fn lemma_scan_cells_first(cells: Seq<SpecValue>)
    ensures
        ({
            let st = spec_scan_row(spec_scan_init(), cells);
            &&& spec_nodes_distinct(st.nodes)
            &&& forall|k: int|
                0 <= k < st.nodes.len() ==> match spec_first_node_cell(
                    cells,
                    (#[trigger] st.nodes[k]).id,
                ) {
                    Some(n) => st.nodes[k] == spec_node_entry(n),
                    None => false,
                }
            &&& forall|id: Seq<char>|
                spec_has_node_id(st.nodes, id) <==> #[trigger] spec_first_node_cell(
                    cells,
                    id,
                ) is Some
        }),
    decreases cells,
{
    if cells.len() == 0 {
    } else {
        let pre = cells.drop_last();
        let c = cells.last();
        let st0 = spec_scan_row(spec_scan_init(), pre);
        let st = spec_scan_row(spec_scan_init(), cells);
        lemma_scan_cells_first(pre);
        assert(pre.push(c) =~= cells);
        assert(st == spec_scan_cell(st0, c));
        assert forall|id: Seq<char>|
            spec_has_node_id(st.nodes, id) <==> #[trigger] spec_first_node_cell(
                cells,
                id,
            ) is Some by {
            lemma_first_node_cell_push(pre, c, id);
            if spec_has_node_id(st.nodes, id) {
                let j = choose|j: int| 0 <= j < st.nodes.len() && st.nodes[j].id == id;
                if j < st0.nodes.len() {
                    assert(st.nodes[j] == st0.nodes[j]);
                    assert(spec_has_node_id(st0.nodes, id));
                } else {
                    assert(spec_first_node_cell(pre, id) is None);
                }
            }
            if spec_first_node_cell(cells, id) is Some {
                if spec_first_node_cell(pre, id) is Some {
                    assert(spec_has_node_id(st0.nodes, id));
                    let j = choose|j: int| 0 <= j < st0.nodes.len() && st0.nodes[j].id == id;
                    assert(st.nodes[j].id == id);
                    assert(spec_has_node_id(st.nodes, id));
                } else {
                    assert(!spec_has_node_id(st0.nodes, id));
                    assert(st.nodes.len() == st0.nodes.len() + 1);
                    assert(st.nodes[st0.nodes.len() as int].id == id);
                    assert(spec_has_node_id(st.nodes, id));
                }
            }
        }
        assert forall|k: int| 0 <= k < st.nodes.len() implies match spec_first_node_cell(
            cells,
            (#[trigger] st.nodes[k]).id,
        ) {
            Some(n) => st.nodes[k] == spec_node_entry(n),
            None => false,
        } by {
            lemma_first_node_cell_push(pre, c, st.nodes[k].id);
            if k < st0.nodes.len() {
                assert(st.nodes[k] == st0.nodes[k]);
            }
        }
        assert forall|k1: int, k2: int|
            0 <= k1 < k2 < st.nodes.len() implies st.nodes[k1].id != st.nodes[k2].id by {
            if k2 == st.nodes.len() - 1 && st.nodes.len() > st0.nodes.len() {
                assert(st.nodes[k1] == st0.nodes[k1]);
                assert(!spec_has_node_id(st0.nodes, st.nodes[k2].id));
            }
        }
    }
}

proof fn lemma_scan_row_append(st: SpecAccum, a: Seq<SpecValue>, b: Seq<SpecValue>)
    ensures
        spec_scan_row(st, a + b) == spec_scan_row(spec_scan_row(st, a), b),
    decreases b,
{
    if b.len() == 0 {
        assert(a + b =~= a);
    } else {
        assert((a + b).drop_last() =~= a + b.drop_last());
        assert((a + b).last() == b.last());
        lemma_scan_row_append(st, a, b.drop_last());
    }
}

proof fn lemma_scan_rows_flat(st: SpecAccum, rows: Seq<Seq<SpecValue>>)
    ensures
        spec_scan_rows(st, rows) == spec_scan_row(st, rows.flatten()),
    decreases rows,
{
    if rows.len() == 0 {
        assert(rows.flatten() =~= Seq::<SpecValue>::empty());
    } else {
        lemma_scan_rows_flat(st, rows.drop_last());
        assert(rows.drop_last().push(rows.last()) =~= rows);
        rows.drop_last().lemma_flatten_push(rows.last());
        assert(rows.flatten() =~= rows.drop_last().flatten() + rows.last());
        lemma_scan_row_append(st, rows.drop_last().flatten(), rows.last());
    }
}

/// Law: in an ad hoc graph, node ids are deduplicated.  Every node instance
/// that occurs anywhere in the rows is represented by exactly one graph
/// node, and that node carries the name and label resolved from the first
/// occurrence of its id, in row order then column order.
pub proof fn lemma_query_graph_deduplicates(rows: Seq<Seq<SpecValue>>)
    ensures
        spec_nodes_distinct(spec_query_graph(rows).nodes),
        forall|k: int|
            0 <= k < spec_query_graph(rows).nodes.len() ==> match spec_first_node_cell(
                rows.flatten(),
                (#[trigger] spec_query_graph(rows).nodes[k]).id,
            ) {
                Some(n) => spec_query_graph(rows).nodes[k] == spec_node_entry(n),
                None => false,
            },
        forall|id: Seq<char>|
            spec_has_node_id(spec_query_graph(rows).nodes, id) <==> #[trigger] spec_first_node_cell(
                rows.flatten(),
                id,
            ) is Some,
{
    lemma_scan_rows_flat(spec_scan_init(), rows);
    lemma_scan_cells_first(rows.flatten());
}

proof fn lemma_find_prop_skip(props: Seq<(Seq<char>, SpecValue)>, key: Seq<char>, i: int)
    requires
        0 <= i <= props.len(),
        forall|j: int| 0 <= j < i ==> props[j].0 != key,
    ensures
        spec_find_prop(props, key) == spec_find_prop(props.skip(i), key),
    decreases i,
{
    if i > 0 {
        lemma_find_prop_skip(props.drop_first(), key, i - 1);
        assert(props.drop_first().skip(i - 1) =~= props.skip(i));
    } else {
        assert(props.skip(0) =~= props);
    }
}

/// A reference to the value of the first property of `props` named `key`.
fn find_prop<'a>(props: &'a Vec<(String, Value)>, key: &str) -> (r: Option<&'a Value>)
    ensures
        match r {
            Some(v) => spec_find_prop(spec_props(props@), key@) == Some(spec_value(*v)),
            None => spec_find_prop(spec_props(props@), key@) is None,
        },
{
    proof {
        lemma_spec_props_index(props@);
    }
    let ghost sp = spec_props(props@);
    let mut i: usize = 0;
    while i < props.len()
        invariant
            i <= props.len(),
            sp == spec_props(props@),
            sp.len() == props@.len(),
            forall|j: int|
                0 <= j < props@.len() ==> sp[j] == (props@[j].0@, spec_value(props@[j].1)),
            forall|j: int| 0 <= j < i ==> sp[j].0 != key@,
        decreases props.len() - i,
    {
        if str_eq(props[i].0.as_str(), key) {
            proof {
                lemma_find_prop_skip(sp, key@, i as int);
                assert(sp.skip(i as int)[0] == sp[i as int]);
                assert(sp.skip(i as int).len() > 0);
            }
            return Some(&props[i].1);
        }
        i += 1;
    }
    proof {
        lemma_find_prop_skip(sp, key@, props@.len() as int);
        assert(sp.skip(props@.len() as int).len() == 0);
    }
    None
}

/// Resolves the display name of a node instance from its property list,
/// trying the keys `name`, `id`, `title` in that order.
pub fn resolve_display_name(n: &NodeValue) -> (r: String)
    ensures
        r@ == spec_resolve_name(spec_node_value(*n).props),
{
    let found = match find_prop(&n.props, "name") {
        Some(v) => Some(v),
        None => match find_prop(&n.props, "id") {
            Some(v) => Some(v),
            None => find_prop(&n.props, "title"),
        },
    };
    match found {
        Some(v) => value_to_string(v),
        None => String::from_str("Node"),
    }
}

/// The graph node denoted by one overview entity row, if the row is well
/// formed.
fn overview_node(row: &Vec<Value>) -> (r: Option<GraphNode>)
    ensures
        match r {
            Some(n) => spec_overview_node(row.deep_view()) == Some(n@),
            None => spec_overview_node(row.deep_view()) is None,
        },
{
    if row.len() < 3 {
        return None;
    }
    let id = match &row[2] {
        Value::Id(id) => id_to_string(id),
        _ => {
            return None;
        },
    };
    let label = match &row[1] {
        Value::Text(s) => s.clone(),
        _ => String::from_str("Node"),
    };
    let name = match &row[0] {
        Value::Node(n) => resolve_display_name(n),
        _ => String::from_str("Node"),
    };
    Some(GraphNode { id, name, label })
}

/// The candidate link denoted by one overview relationship row, if the row
/// is well formed.
fn overview_link(row: &Vec<Value>) -> (r: Option<GraphLink>)
    ensures
        match r {
            Some(l) => spec_overview_link(row.deep_view()) == Some(l@),
            None => spec_overview_link(row.deep_view()) is None,
        },
{
    if row.len() < 3 {
        return None;
    }
    let source = match &row[0] {
        Value::Id(id) => id_to_string(id),
        _ => {
            return None;
        },
    };
    let target = match &row[1] {
        Value::Id(id) => id_to_string(id),
        _ => {
            return None;
        },
    };
    let label = match &row[2] {
        Value::Text(s) => s.clone(),
        _ => String::new(),
    };
    Some(GraphLink { source, target, label })
}

/// Whether `id` is the id of some node of `nodes`.
fn contains_node_id(nodes: &Vec<GraphNode>, id: &String) -> (r: bool)
    ensures
        r == spec_has_node_id(nodes.deep_view(), id@),
{
    let mut j: usize = 0;
    while j < nodes.len()
        invariant
            j <= nodes.len(),
            forall|k: int| 0 <= k < j ==> nodes.deep_view()[k].id != id@,
        decreases nodes.len() - j,
    {
        if nodes[j].id == *id {
            assert(nodes.deep_view()[j as int].id == id@);
            return true;
        }
        j += 1;
    }
    false
}

/// Keeps the candidate links whose endpoints both occur among `nodes`.
fn filter_links(cands: Vec<GraphLink>, nodes: &Vec<GraphNode>) -> (r: Vec<GraphLink>)
    ensures
        r.deep_view() == spec_filter_links(cands.deep_view(), nodes.deep_view()),
{
    let mut links: Vec<GraphLink> = Vec::new();
    proof {
        assert(links.deep_view() =~= Seq::<SpecGraphLink>::empty());
        assert(cands.deep_view().take(0) =~= Seq::<SpecGraphLink>::empty());
    }
    let mut k: usize = 0;
    while k < cands.len()
        invariant
            k <= cands.len(),
            links.deep_view() == spec_filter_links(
                cands.deep_view().take(k as int),
                nodes.deep_view(),
            ),
        decreases cands.len() - k,
    {
        let ghost pre = cands.deep_view().take(k as int);
        let l = &cands[k];
        let keep = contains_node_id(nodes, &l.source) && contains_node_id(nodes, &l.target);
        if keep {
            links.push(GraphLink {
                source: l.source.clone(),
                target: l.target.clone(),
                label: l.label.clone(),
            });
        }
        proof {
            assert(cands.deep_view().take(k + 1 as int).drop_last() =~= pre);
            assert(cands.deep_view().take(k + 1 as int).last() == cands.deep_view()[k as int]);
        }
        k += 1;
    }
    proof {
        assert(cands.deep_view().take(cands.len() as int) =~= cands.deep_view());
    }
    links
}

/// Overview mode: builds the graph of the fixed query pair.  The node rows
/// are consumed first, and every link candidate is kept only when both its
/// endpoints were enumerated as nodes.
pub fn project_overview(node_rows: &Vec<Vec<Value>>, link_rows: &Vec<Vec<Value>>) -> (g: GraphData)
    ensures
        g@ == spec_overview_graph(node_rows.deep_view(), link_rows.deep_view()),
        forall|i: int|
            0 <= i < g@.links.len() ==> spec_has_node_id(g@.nodes, #[trigger] g@.links[i].source)
                && spec_has_node_id(g@.nodes, g@.links[i].target),
{
    proof {
        lemma_overview_graph_referential_integrity(node_rows.deep_view(), link_rows.deep_view());
    }
    let mut nodes: Vec<GraphNode> = Vec::new();
    proof {
        assert(nodes.deep_view() =~= Seq::<SpecGraphNode>::empty());
        assert(node_rows.deep_view().take(0) =~= Seq::<Seq<SpecValue>>::empty());
    }
    let mut i: usize = 0;
    while i < node_rows.len()
        invariant
            i <= node_rows.len(),
            nodes.deep_view() == spec_overview_nodes(node_rows.deep_view().take(i as int)),
        decreases node_rows.len() - i,
    {
        let ghost pre = node_rows.deep_view().take(i as int);
        match overview_node(&node_rows[i]) {
            Some(n) => nodes.push(n),
            None => (),
        }
        proof {
            assert(node_rows.deep_view().take(i + 1 as int).drop_last() =~= pre);
            assert(node_rows.deep_view().take(i + 1 as int).last() == node_rows.deep_view()[
            i as int
            ]);
        }
        i += 1;
    }
    proof {
        assert(node_rows.deep_view().take(node_rows.len() as int) =~= node_rows.deep_view());
    }
    let mut cands: Vec<GraphLink> = Vec::new();
    proof {
        assert(cands.deep_view() =~= Seq::<SpecGraphLink>::empty());
        assert(link_rows.deep_view().take(0) =~= Seq::<Seq<SpecValue>>::empty());
    }
    let mut j: usize = 0;
    while j < link_rows.len()
        invariant
            j <= link_rows.len(),
            nodes.deep_view() == spec_overview_nodes(node_rows.deep_view()),
            cands.deep_view() == spec_overview_links(link_rows.deep_view().take(j as int)),
        decreases link_rows.len() - j,
    {
        let ghost pre = link_rows.deep_view().take(j as int);
        match overview_link(&link_rows[j]) {
            Some(l) => cands.push(l),
            None => (),
        }
        proof {
            assert(link_rows.deep_view().take(j + 1 as int).drop_last() =~= pre);
            assert(link_rows.deep_view().take(j + 1 as int).last() == link_rows.deep_view()[
            j as int
            ]);
        }
        j += 1;
    }
    proof {
        assert(link_rows.deep_view().take(link_rows.len() as int) =~= link_rows.deep_view());
    }
    let links = filter_links(cands, &nodes);
    GraphData { nodes, links }
}

/// Ad hoc mode: scans every column of every row, collecting each node
/// instance once (first occurrence wins) and every relationship instance as
/// a candidate link, then keeps only the links whose endpoints are both
/// present.
pub fn project_query(rows: &Vec<Vec<Value>>) -> (g: GraphData)
    ensures
        g@ == spec_query_graph(rows.deep_view()),
        forall|i: int|
            0 <= i < g@.links.len() ==> spec_has_node_id(g@.nodes, #[trigger] g@.links[i].source)
                && spec_has_node_id(g@.nodes, g@.links[i].target),
        spec_nodes_distinct(g@.nodes),
{
    proof {
        lemma_query_graph_referential_integrity(rows.deep_view());
        lemma_query_graph_deduplicates(rows.deep_view());
    }
    let mut nodes: Vec<GraphNode> = Vec::new();
    let mut cands: Vec<GraphLink> = Vec::new();
    proof {
        assert(nodes.deep_view() =~= Seq::<SpecGraphNode>::empty());
        assert(cands.deep_view() =~= Seq::<SpecGraphLink>::empty());
        assert(rows.deep_view().take(0) =~= Seq::<Seq<SpecValue>>::empty());
    }
    let mut i: usize = 0;
    while i < rows.len()
        invariant
            i <= rows.len(),
            (SpecAccum { nodes: nodes.deep_view(), cands: cands.deep_view() }) == spec_scan_rows(
                spec_scan_init(),
                rows.deep_view().take(i as int),
            ),
        decreases rows.len() - i,
    {
        let ghost row_start = spec_scan_rows(spec_scan_init(), rows.deep_view().take(i as int));
        let row = &rows[i];
        proof {
            assert(row.deep_view().take(0) =~= Seq::<SpecValue>::empty());
        }
        let mut j: usize = 0;
        while j < row.len()
            invariant
                j <= row.len(),
                row_start == spec_scan_rows(spec_scan_init(), rows.deep_view().take(i as int)),
                row == &rows@[i as int],
                i < rows@.len(),
                (SpecAccum { nodes: nodes.deep_view(), cands: cands.deep_view() })
                    == spec_scan_row(row_start, row.deep_view().take(j as int)),
            decreases row.len() - j,
        {
            let ghost pre = SpecAccum { nodes: nodes.deep_view(), cands: cands.deep_view() };
            let ghost cell = row.deep_view()[j as int];
            match &row[j] {
                Value::Node(n) => {
                    let nid = id_to_string(&n.id);
                    if !contains_node_id(&nodes, &nid) {
                        let name = resolve_display_name(n);
                        let label = n.label.clone();
                        nodes.push(GraphNode { id: nid, name, label });
                        assert(nodes.deep_view() =~= pre.nodes.push(
                            spec_node_entry(spec_node_value(*n)),
                        ));
                    }
                },
                Value::Rel(r) => {
                    let source = id_to_string(&r.src);
                    let target = id_to_string(&r.dst);
                    let label = r.label.clone();
                    cands.push(GraphLink { source, target, label });
                    assert(cands.deep_view() =~= pre.cands.push(
                        spec_link_entry(spec_rel_value(*r)),
                    ));
                },
                _ => (),
            }
            proof {
                assert(SpecAccum { nodes: nodes.deep_view(), cands: cands.deep_view() }
                    == spec_scan_cell(pre, cell));
                assert(row.deep_view().take(j + 1 as int).drop_last() =~= row.deep_view().take(
                    j as int,
                ));
                assert(row.deep_view().take(j + 1 as int).last() == cell);
            }
            j += 1;
        }
        proof {
            assert(row.deep_view().take(row@.len() as int) =~= row.deep_view());
            assert(rows.deep_view().take(i + 1 as int).drop_last() =~= rows.deep_view().take(
                i as int,
            ));
            assert(rows.deep_view().take(i + 1 as int).last() == rows.deep_view()[i as int]);
            assert(rows.deep_view()[i as int] == row.deep_view());
        }
        i += 1;
    }
    proof {
        assert(rows.deep_view().take(rows.len() as int) =~= rows.deep_view());
    }
    let links = filter_links(cands, &nodes);
    GraphData { nodes, links }
}

} // verus!
