use vstd::prelude::*;
use crate::action_optimization::graph_entity::{
    spec_to_graph,
    strip_all,
    to_graph,
    ActionGraph,
    OptimizeError,
    MAX_ACTIONS,
};
use crate::action_optimization::net::{dot_text, RawEdge, RelationType};
use crate::actions::base::All;
use crate::text::{append, replace, replaced};

verus! {

/// How the edges of a relation are drawn: bold for `Move`, solid else.
pub open spec fn spec_edge_style(relation_type: RelationType) -> Seq<char> {
    match relation_type {
        RelationType::Move => "bold"@,
        _ => "solid"@,
    }
}

/// The colour in which the edges of a relation are drawn.
pub open spec fn spec_edge_color(relation_type: RelationType) -> Seq<char> {
    match relation_type {
        RelationType::Move => "black"@,
        RelationType::Unblock => "green"@,
        RelationType::Clear => "grey"@,
        RelationType::Socket => "red"@,
        RelationType::Goal => "blue"@,
    }
}

/// The attributes of an edge in the language of Graphviz.
pub open spec fn spec_edge_attr(relation_type: RelationType) -> Seq<char> {
    "style=\""@ + spec_edge_style(relation_type) + "\" color=\""@ + spec_edge_color(relation_type)
        + "\""@
}

/// The colour with which the node of an action is filled.
pub open spec fn spec_node_color(action: All) -> Seq<char> {
    match action {
        All::Bunkerize(_) | All::Move(_) => "white"@,
        All::DragonKill(_) => "silver"@,
        All::Goal(_) => "blue"@,
        All::HuaKill(_) => "gold"@,
    }
}

/// The attributes of a node in the language of Graphviz: a filled box
/// with the action in words, quotation marks escaped.
pub open spec fn spec_node_attr(action: All) -> Seq<char> {
    "style=\"filled\" fillcolor=\""@ + spec_node_color(action) + "\" label=\""@ + replaced(
        action.spec_text(),
        "\""@,
        "\\\""@,
    ) + "\" shape=\"rect\""@
}

/// The name of a relation.
pub open spec fn spec_relation_text(relation_type: RelationType) -> Seq<char> {
    match relation_type {
        RelationType::Move => "Move"@,
        RelationType::Unblock => "Unblock"@,
        RelationType::Clear => "Clear"@,
        RelationType::Socket => "Socket"@,
        RelationType::Goal => "Goal"@,
    }
}

/// The name of a relation.
pub fn relation_text(relation_type: &RelationType) -> (result: String)
    ensures
        result@ == spec_relation_text(*relation_type),
{
    match relation_type {
        RelationType::Move => "Move".to_owned(),
        RelationType::Unblock => "Unblock".to_owned(),
        RelationType::Clear => "Clear".to_owned(),
        RelationType::Socket => "Socket".to_owned(),
        RelationType::Goal => "Goal".to_owned(),
    }
}

/// The attributes of an edge in the language of Graphviz.
pub fn edge_attr(relation_type: &RelationType) -> (result: String)
    ensures
        result@ == spec_edge_attr(*relation_type),
{
    let edge_style = match relation_type {
        RelationType::Move => "bold",
        RelationType::Unblock
        | RelationType::Clear
        | RelationType::Socket
        | RelationType::Goal => "solid",
    };
    let edge_color = match relation_type {
        RelationType::Move => "black",
        RelationType::Unblock => "green",
        RelationType::Clear => "grey",
        RelationType::Socket => "red",
        RelationType::Goal => "blue",
    };
    let mut result = "style=\"".to_owned();
    append(&mut result, edge_style);
    append(&mut result, "\" color=\"");
    append(&mut result, edge_color);
    append(&mut result, "\"");
    result
}

/// The attributes of a node in the language of Graphviz.
pub fn node_attr(action: &All) -> (result: String)
    ensures
        result@ == spec_node_attr(*action),
{
    let node_color = match action {
        All::Bunkerize(_) | All::Move(_) => "white",
        All::DragonKill(_) => "silver",
        All::Goal(_) => "blue",
        All::HuaKill(_) => "gold",
    };
    proof {
        reveal_strlit("\"");
    }
    let label = replace(action.to_string().as_str(), "\"", "\\\"");
    let mut result = "style=\"filled\" fillcolor=\"".to_owned();
    append(&mut result, node_color);
    append(&mut result, "\" label=\"");
    append(&mut result, label.as_str());
    append(&mut result, "\" shape=\"rect\"");
    result
}

/// The dependency graph in the language of Graphviz.
#[must_use]
pub fn dot_actiongraph(graph: &ActionGraph) -> (result: String)
    ensures
        result@ == dot_text(graph.nodes(), graph.tagged()),
{
    graph.dot()
}

/// The dependency graph of a sequence of actions in the language of
/// Graphviz; nothing for more actions than a graph is built for.
#[must_use]
pub fn dot_actions(actions: &[All]) -> (result: Result<String, OptimizeError>)
    ensures
        match result {
            Ok(text) => actions@.len() <= MAX_ACTIONS && exists|tagged: Seq<RawEdge>|
                strip_all(tagged) == spec_to_graph(actions@).edges && text@ == #[trigger] dot_text(
                    spec_to_graph(actions@).nodes,
                    tagged,
                ),
            Err(error) => error == OptimizeError::TooLarge && actions@.len() > MAX_ACTIONS,
        },
{
    match to_graph(actions) {
        Ok(graph) => {
            let text = dot_actiongraph(&graph);
            assert(strip_all(graph.tagged()) == spec_to_graph(actions@).edges);
            assert(text@ == dot_text(spec_to_graph(actions@).nodes, graph.tagged()));
            Ok(text)
        },
        Err(error) => Err(error),
    }
}

} // verus!
