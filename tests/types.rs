use beautiful_mermaid::types::{Direction, MermaidSubgraph};

#[test]
fn nested_subgraph_clones_deeply() {
    let inner = MermaidSubgraph {
        id: "inner".to_string(),
        label: "Inner".to_string(),
        node_ids: vec!["n2".to_string()],
        children: Vec::new(),
        direction: Some(Direction::LR),
    };
    let outer = MermaidSubgraph {
        id: "outer".to_string(),
        label: "Outer".to_string(),
        node_ids: vec!["n1".to_string(), "n3".to_string()],
        children: vec![inner],
        direction: None,
    };
    let copy = outer.clone();
    assert_eq!(copy, outer);
    assert_eq!(copy.children[0].id, "inner");
    assert_eq!(copy.children[0].direction, Some(Direction::LR));
}
