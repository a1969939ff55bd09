use vstd::prelude::*;
use crate::order::{sort_strings, sort_u32s, strings_sorted, u32s_sorted};
use crate::text::{opt_str_is, str_eq};

verus! {

broadcast use vstd::seq_lib::group_to_multiset_ensures;

/// The sink whose monitor output is moved from one physical sink to the next.
pub const VIRTUAL_SINK_TO_CYCLE: &'static str = "X1";

/// Property block of a PipeWire node, as `pw-dump` reports it.
pub struct PwProps {
    pub media_class: Option<String>,
    pub node_name: Option<String>,
    pub factory_name: Option<String>,
}

/// The `info` block of a PipeWire node.
pub struct PwInfo {
    pub props: Option<PwProps>,
}

/// One object of `pw-dump`'s output.
pub struct PwNode {
    pub id: u32,
    pub info: Option<PwInfo>,
}

/// Sinks of our own that are never treated as hardware outputs.
pub open spec fn is_ignored_sink(name: Seq<char>) -> bool {
    name == "X1"@ || name == "X2"@
}

/// The name of `node` when it is a physical audio sink: an `Audio/Sink` that
/// is not a null sink and not one of the ignored virtual sinks.
pub open spec fn physical_sink_name(node: PwNode) -> Option<String> {
    match node.info {
        Some(info) => match info.props {
            Some(props) => {
                if props.media_class is Some && props.media_class->0@ == "Audio/Sink"@ && !(
                props.factory_name is Some && props.factory_name->0@
                    == "support.null-audio-sink"@) {
                    match props.node_name {
                        Some(name) => if !is_ignored_sink(name@) {
                            Some(name)
                        } else {
                            None
                        },
                        None => None,
                    }
                } else {
                    None
                }
            },
            None => None,
        },
        None => None,
    }
}

/// Names of the physical sinks among `nodes`, in the order of `nodes`.
pub open spec fn physical_names(nodes: Seq<PwNode>) -> Seq<String>
    decreases nodes.len(),
{
    if nodes.len() == 0 {
        Seq::empty()
    } else {
        let rest = physical_names(nodes.drop_last());
        match physical_sink_name(nodes.last()) {
            Some(n) => rest.push(n),
            None => rest,
        }
    }
}

/// Ids of the physical sinks among `nodes`, in the order of `nodes`.
pub open spec fn physical_ids(nodes: Seq<PwNode>) -> Seq<u32>
    decreases nodes.len(),
{
    if nodes.len() == 0 {
        Seq::empty()
    } else {
        let rest = physical_ids(nodes.drop_last());
        if physical_sink_name(nodes.last()) is Some {
            rest.push(nodes.last().id)
        } else {
            rest
        }
    }
}

/// The name of `node` if it is a physical sink.
pub fn physical_name_of(node: &PwNode) -> (r: Option<String>)
    ensures
        r == physical_sink_name(*node),
{
    if let Some(info) = &node.info {
        if let Some(props) = &info.props {
            if !opt_str_is(&props.media_class, "Audio/Sink") {
                return None;
            }
            if opt_str_is(&props.factory_name, "support.null-audio-sink") {
                return None;
            }
            if let Some(name) = &props.node_name {
                if !str_eq(name.as_str(), "X1") && !str_eq(name.as_str(), "X2") {
                    return Some(name.clone());
                }
            }
        }
    }
    None
}

/// Names of the physical sinks among `nodes`, sorted.
pub fn get_physical_sink_names(nodes: &[PwNode]) -> (r: Vec<String>)
    ensures
        strings_sorted(r@),
        r@.to_multiset() == physical_names(nodes@).to_multiset(),
{
    let mut sinks: Vec<String> = Vec::new();
    let mut i: usize = 0;
    while i < nodes.len()
        invariant
            i <= nodes@.len(),
            sinks@ == physical_names(nodes@.take(i as int)),
        decreases nodes@.len() - i,
    {
        let ghost pre = nodes@.take(i as int);
        assert(nodes@.take(i + 1).drop_last() =~= pre);
        if let Some(name) = physical_name_of(&nodes[i]) {
            sinks.push(name);
        }
        i += 1;
    }
    assert(nodes@.take(nodes@.len() as int) =~= nodes@);
    sort_strings(sinks)
}

/// Ids of the physical sinks among `nodes`, sorted.
pub fn get_physical_sink_ids(nodes: &[PwNode]) -> (r: Vec<u32>)
    ensures
        u32s_sorted(r@),
        r@.to_multiset() == physical_ids(nodes@).to_multiset(),
{
    let mut ids: Vec<u32> = Vec::new();
    let mut i: usize = 0;
    while i < nodes.len()
        invariant
            i <= nodes@.len(),
            ids@ == physical_ids(nodes@.take(i as int)),
        decreases nodes@.len() - i,
    {
        let ghost pre = nodes@.take(i as int);
        assert(nodes@.take(i + 1).drop_last() =~= pre);
        if physical_name_of(&nodes[i]).is_some() {
            ids.push(nodes[i].id);
        }
        i += 1;
    }
    assert(nodes@.take(nodes@.len() as int) =~= nodes@);
    sort_u32s(ids)
}


/// A node whose properties are `props` is a physical sink exactly when its
/// media class is `Audio/Sink`, it has a node name other than `X1` and `X2`,
/// and its factory is not `support.null-audio-sink`: any other factory, or
/// none, leaves it a physical sink. It is then named by its node name.
pub proof fn lemma_physical_sink_selection(node: PwNode, props: PwProps)
    requires
        node.info matches Some(info) && info.props == Some(props),
    ensures
        physical_sink_name(node) is Some <==> (props.media_class is Some
            && props.media_class->0@ == "Audio/Sink"@ && props.node_name is Some
            && props.node_name->0@ != "X1"@ && props.node_name->0@ != "X2"@ && !(
        props.factory_name is Some && props.factory_name->0@ == "support.null-audio-sink"@)),
        physical_sink_name(node) matches Some(n) ==> props.node_name == Some(n),
{
}

/// A node without properties is never a physical sink.
pub proof fn lemma_no_props_no_sink(node: PwNode)
    requires
        node.info is None || node.info->0.props is None,
    ensures
        physical_sink_name(node) is None,
{
}

/// The sink names are exactly the names of the physical sinks among `nodes`:
/// no physical sink is left out and nothing else is added.
pub proof fn lemma_physical_names_members(nodes: Seq<PwNode>, name: String)
    ensures
        physical_names(nodes).contains(name) <==> exists|i: int|
            0 <= i < nodes.len() && physical_sink_name(#[trigger] nodes[i]) == Some(name),
    decreases nodes.len(),
{
    if nodes.len() > 0 {
        let pre = nodes.drop_last();
        lemma_physical_names_members(pre, name);
        let rest = physical_names(pre);
        if physical_names(nodes).contains(name) {
            let k = choose|k: int| 0 <= k < physical_names(nodes).len() && physical_names(nodes)[k] == name;
            if k < rest.len() {
                assert(physical_names(nodes)[k] == rest[k]);
                assert(rest.contains(name));
                let i = choose|i: int| 0 <= i < pre.len() && physical_sink_name(#[trigger] pre[i]) == Some(name);
                assert(nodes[i] == pre[i]);
            } else {
                assert(physical_sink_name(nodes[nodes.len() - 1]) == Some(name));
            }
        }
        if exists|i: int| 0 <= i < nodes.len() && physical_sink_name(#[trigger] nodes[i]) == Some(name) {
            let i = choose|i: int| 0 <= i < nodes.len() && physical_sink_name(#[trigger] nodes[i]) == Some(name);
            if i < nodes.len() - 1 {
                assert(pre[i] == nodes[i]);
                assert(rest.contains(name));
                let k = choose|k: int| 0 <= k < rest.len() && rest[k] == name;
                match physical_sink_name(nodes.last()) {
                    Some(n) => assert(physical_names(nodes)[k] == rest[k]),
                    None => {},
                }
            } else {
                assert(physical_names(nodes) == rest.push(name));
                assert(physical_names(nodes)[rest.len() as int] == name);
            }
        }
    }
}

/// The sink ids are exactly the ids of the physical sinks among `nodes`.
pub proof fn lemma_physical_ids_members(nodes: Seq<PwNode>, id: u32)
    ensures
        physical_ids(nodes).contains(id) <==> exists|i: int|
            0 <= i < nodes.len() && physical_sink_name(#[trigger] nodes[i]) is Some && nodes[i].id == id,
    decreases nodes.len(),
{
    if nodes.len() > 0 {
        let pre = nodes.drop_last();
        lemma_physical_ids_members(pre, id);
        let rest = physical_ids(pre);
        if physical_ids(nodes).contains(id) {
            let k = choose|k: int| 0 <= k < physical_ids(nodes).len() && physical_ids(nodes)[k] == id;
            if k < rest.len() {
                assert(physical_ids(nodes)[k] == rest[k]);
                assert(rest.contains(id));
                let i = choose|i: int|
                    0 <= i < pre.len() && physical_sink_name(#[trigger] pre[i]) is Some && pre[i].id == id;
                assert(nodes[i] == pre[i]);
            } else {
                assert(physical_sink_name(nodes[nodes.len() - 1]) is Some);
            }
        }
        if exists|i: int|
            0 <= i < nodes.len() && physical_sink_name(#[trigger] nodes[i]) is Some && nodes[i].id == id {
            let i = choose|i: int|
                0 <= i < nodes.len() && physical_sink_name(#[trigger] nodes[i]) is Some && nodes[i].id == id;
            if i < nodes.len() - 1 {
                assert(pre[i] == nodes[i]);
                assert(rest.contains(id));
                let k = choose|k: int| 0 <= k < rest.len() && rest[k] == id;
                if physical_sink_name(nodes.last()) is Some {
                    assert(physical_ids(nodes)[k] == rest[k]);
                }
            } else {
                assert(physical_ids(nodes) == rest.push(id));
                assert(physical_ids(nodes)[rest.len() as int] == id);
            }
        }
    }
}

} // verus!
