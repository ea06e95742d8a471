use graphscope::graph::{project_overview, project_query};
use graphscope::value::{InternalId, NodeValue, RelValue, Value};

fn iid(table_id: u64, offset: u64) -> InternalId {
    InternalId { table_id, offset }
}

fn node(table_id: u64, offset: u64, label: &str, props: Vec<(&str, Value)>) -> Value {
    Value::Node(NodeValue {
        id: iid(table_id, offset),
        label: String::from(label),
        props: props.into_iter().map(|(k, v)| (String::from(k), v)).collect(),
    })
}

fn rel(label: &str, src: InternalId, dst: InternalId) -> Value {
    Value::Rel(RelValue { label: String::from(label), src, dst })
}

fn text(s: &str) -> Value {
    Value::Text(String::from(s))
}

/// An overview node row: (entity, label, internal id).
fn overview_node_row(table_id: u64, offset: u64, label: &str, name: &str) -> Vec<Value> {
    vec![
        node(table_id, offset, label, vec![("name", text(name))]),
        text(label),
        Value::Id(iid(table_id, offset)),
    ]
}

/// An overview link row: (source id, target id, label).
fn overview_link_row(src: InternalId, dst: InternalId, label: &str) -> Vec<Value> {
    vec![Value::Id(src), Value::Id(dst), text(label)]
}

#[test]
fn overview_keeps_only_links_between_enumerated_nodes() {
    // Nodes A, B, C are enumerated; candidate links A->B and B->D, where D
    // never appears as a node.  Only A->B survives.
    let node_rows = vec![
        overview_node_row(0, 0, "Person", "A"),
        overview_node_row(0, 1, "Person", "B"),
        overview_node_row(0, 2, "Person", "C"),
    ];
    let link_rows = vec![
        overview_link_row(iid(0, 0), iid(0, 1), "KNOWS"),
        overview_link_row(iid(0, 1), iid(9, 9), "KNOWS"),
    ];
    let g = project_overview(&node_rows, &link_rows);
    let names: Vec<&str> = g.nodes.iter().map(|n| n.name.as_str()).collect();
    assert_eq!(names, vec!["A", "B", "C"]);
    assert_eq!(g.links.len(), 1);
    assert_eq!(g.links[0].source, "0:0");
    assert_eq!(g.links[0].target, "0:1");
    assert_eq!(g.links[0].label, "KNOWS");
}

#[test]
fn overview_skips_malformed_rows() {
    let node_rows = vec![
        vec![text("too"), text("short")],
        vec![node(0, 0, "X", vec![]), text("X"), text("not an id")],
        overview_node_row(0, 1, "Person", "B"),
    ];
    let link_rows = vec![
        vec![Value::Id(iid(0, 1))],
        vec![text("bad"), Value::Id(iid(0, 1)), text("L")],
        vec![Value::Id(iid(0, 1)), Value::Id(iid(0, 1)), Value::Int64(7)],
    ];
    let g = project_overview(&node_rows, &link_rows);
    assert_eq!(g.nodes.len(), 1);
    assert_eq!(g.nodes[0].id, "0:1");
    // The self-link row has a non-string label, which defaults to "".
    assert_eq!(g.links.len(), 1);
    assert_eq!(g.links[0].label, "");
}

#[test]
fn overview_defaults_label_and_name() {
    let node_rows = vec![vec![text("not a node"), Value::Int64(3), Value::Id(iid(2, 5))]];
    let g = project_overview(&node_rows, &vec![]);
    assert_eq!(g.nodes.len(), 1);
    assert_eq!(g.nodes[0].id, "2:5");
    assert_eq!(g.nodes[0].name, "Node");
    assert_eq!(g.nodes[0].label, "Node");
}

#[test]
fn query_without_entity_values_yields_empty_graph() {
    let rows = vec![
        vec![text("a"), Value::Int64(1), Value::Boolean(true)],
        vec![Value::Float64Text(String::from("2.5")), Value::Other(String::from("x"))],
    ];
    let g = project_query(&rows);
    assert!(g.nodes.is_empty());
    assert!(g.links.is_empty());
}

#[test]
fn query_name_resolution_prefers_name_then_id_then_title() {
    // A node with {id: "x1", title: "T"} and no `name` property resolves
    // its display name to "x1".
    let rows = vec![vec![node(1, 1, "Doc", vec![("id", text("x1")), ("title", text("T"))])]];
    let g = project_query(&rows);
    assert_eq!(g.nodes.len(), 1);
    assert_eq!(g.nodes[0].name, "x1");

    let rows2 = vec![vec![node(1, 2, "Doc", vec![("title", text("T2")), ("id", text("x2"))])]];
    let g2 = project_query(&rows2);
    assert_eq!(g2.nodes[0].name, "x2");

    let rows3 = vec![vec![node(1, 3, "Doc", vec![("title", text("T3"))])]];
    let g3 = project_query(&rows3);
    assert_eq!(g3.nodes[0].name, "T3");

    let rows4 = vec![vec![node(1, 4, "Doc", vec![("other", text("zzz"))])]];
    let g4 = project_query(&rows4);
    assert_eq!(g4.nodes[0].name, "Node");
}

#[test]
fn query_takes_first_match_among_duplicate_keys() {
    let rows = vec![vec![node(1, 1, "Doc", vec![("name", text("first")), ("name", text("second"))])]];
    let g = project_query(&rows);
    assert_eq!(g.nodes[0].name, "first");
}

#[test]
fn query_deduplicates_nodes_first_occurrence_wins() {
    // The same node id appears three times with different names; exactly
    // one graph node comes out, carrying the first occurrence's name.
    let rows = vec![
        vec![node(0, 7, "Person", vec![("name", text("first"))])],
        vec![
            node(0, 7, "Person", vec![("name", text("second"))]),
            node(0, 7, "Other", vec![("name", text("third"))]),
        ],
    ];
    let g = project_query(&rows);
    assert_eq!(g.nodes.len(), 1);
    assert_eq!(g.nodes[0].id, "0:7");
    assert_eq!(g.nodes[0].name, "first");
    assert_eq!(g.nodes[0].label, "Person");
}

#[test]
fn query_filters_links_to_present_endpoints() {
    let rows = vec![
        vec![node(0, 0, "P", vec![("name", text("A"))])],
        vec![node(0, 1, "P", vec![("name", text("B"))])],
        // A -> B kept; B -> missing dropped; missing -> A dropped.
        vec![rel("KNOWS", iid(0, 0), iid(0, 1))],
        vec![rel("KNOWS", iid(0, 1), iid(5, 5))],
        vec![rel("KNOWS", iid(5, 5), iid(0, 0))],
    ];
    let g = project_query(&rows);
    assert_eq!(g.nodes.len(), 2);
    assert_eq!(g.links.len(), 1);
    assert_eq!(g.links[0].source, "0:0");
    assert_eq!(g.links[0].target, "0:1");
    // Every link endpoint is a node id of the same graph.
    for l in &g.links {
        assert!(g.nodes.iter().any(|n| n.id == l.source));
        assert!(g.nodes.iter().any(|n| n.id == l.target));
    }
}

#[test]
fn query_sees_relationships_before_their_nodes() {
    // The link is discovered before its endpoints are; the filter runs
    // only after all rows are consumed, so the link survives.
    let rows = vec![
        vec![rel("REL", iid(0, 0), iid(0, 1))],
        vec![node(0, 0, "P", vec![]), node(0, 1, "P", vec![])],
    ];
    let g = project_query(&rows);
    assert_eq!(g.nodes.len(), 2);
    assert_eq!(g.links.len(), 1);
}
