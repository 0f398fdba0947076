//! The graph model that diagram parsers produce and renderers consume.

use vstd::prelude::*;

verus! {

/// Flow direction of a graph or subgraph.
#[derive(Debug, Clone, Copy, PartialEq, Eq)]
pub enum Direction {
    TD,
    TB,
    LR,
    BT,
    RL,
}

/// The outline drawn around a node.
#[derive(Debug, Clone, PartialEq, Eq)]
pub enum NodeShape {
    Rectangle,
    Rounded,
    Diamond,
    Stadium,
    Circle,
    Subroutine,
    Doublecircle,
    Hexagon,
    Cylinder,
    Asymmetric,
    Trapezoid,
    TrapezoidAlt,
    StateStart,
    StateEnd,
}

/// Line style of an edge.
#[derive(Debug, Clone, Copy, PartialEq, Eq)]
pub enum EdgeStyle {
    Solid,
    Dotted,
    Thick,
}

/// A node: identifier, label and shape.
#[derive(Debug, Clone, PartialEq, Eq)]
pub struct MermaidNode {
    pub id: String,
    pub label: String,
    pub shape: NodeShape,
}

/// An edge between two nodes.
#[derive(Debug, Clone, PartialEq, Eq)]
pub struct MermaidEdge {
    pub source: String,
    pub target: String,
    pub label: Option<String>,
    pub style: EdgeStyle,
    pub has_arrow_start: bool,
    pub has_arrow_end: bool,
}

/// A group of nodes, possibly nested, with its own direction.
#[derive(Debug, PartialEq)]
pub struct MermaidSubgraph {
    pub id: String,
    pub label: String,
    pub node_ids: Vec<String>,
    pub children: Vec<MermaidSubgraph>,
    pub direction: Option<Direction>,
}

/// A deep copy of `g`, children included.
fn copy_subgraph(g: &MermaidSubgraph) -> (r: MermaidSubgraph)
    decreases g,
{
    let mut children: Vec<MermaidSubgraph> = Vec::new();
    let mut i: usize = 0;
    while i < g.children.len()
        invariant
            i <= g.children@.len(),
        decreases g.children@.len() - i,
    {
        proof {
            assert(decreases_to!(*g => g.children@[i as int]));
        }
        children.push(copy_subgraph(&g.children[i]));
        i += 1;
    }
    MermaidSubgraph {
        id: g.id.clone(),
        label: g.label.clone(),
        node_ids: g.node_ids.clone(),
        children,
        direction: g.direction,
    }
}

impl Clone for MermaidSubgraph {
    fn clone(&self) -> Self {
        copy_subgraph(self)
    }
}

} // verus!
