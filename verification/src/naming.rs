//! Gateway-side names of node-advertised tools.

use vstd::prelude::*;
use crate::tool_def::NodeToolSchema;

verus! {

/// The characters of `node__<node_id>__<tool_name>`.
pub open spec fn spec_qualified_name(node_id: Seq<char>, tool_name: Seq<char>) -> Seq<char> {
    seq!['n', 'o', 'd', 'e', '_', '_'] + node_id + seq!['_', '_'] + tool_name
}

/// Build the qualified tool name: `node__<node_id>__<tool_name>`.
///
/// The node id is used as-is (UUIDs with hyphens are valid in tool names), so
/// different node ids never collapse into the same name.
pub fn qualified_name(node_id: &str, tool_name: &str) -> (r: String)
    ensures
        r@ == spec_qualified_name(node_id@, tool_name@),
        r@.len() == 8 + node_id@.len() + tool_name@.len(),
        r@.take(6) == seq!['n', 'o', 'd', 'e', '_', '_'],
        r@.subrange(6, 6 + node_id@.len() as int) == node_id@,
        r@.subrange(6 + node_id@.len() as int, 8 + node_id@.len() as int) == seq!['_', '_'],
        r@.skip(8 + node_id@.len() as int) == tool_name@,
{
    proof {
        lemma_qualified_name_parts(node_id@, tool_name@);
    }
    let prefix = "node__";
    let sep = "__";
    proof {
        reveal_strlit("node__");
        reveal_strlit("__");
    }
    let mut r = String::from_str(prefix);
    r.append(node_id);
    r.append(sep);
    r.append(tool_name);
    r
}

/// A qualified name is `node__`, then the node id, then `__`, then the tool
/// name, each character for character.
pub proof fn lemma_qualified_name_parts(node_id: Seq<char>, tool_name: Seq<char>)
    ensures
        spec_qualified_name(node_id, tool_name).len() == 8 + node_id.len() + tool_name.len(),
        spec_qualified_name(node_id, tool_name).take(6) == seq!['n', 'o', 'd', 'e', '_', '_'],
        spec_qualified_name(node_id, tool_name).subrange(6, 6 + node_id.len() as int) == node_id,
        spec_qualified_name(node_id, tool_name).subrange(6 + node_id.len() as int, 8 + node_id.len() as int)
            == seq!['_', '_'],
        spec_qualified_name(node_id, tool_name).skip(8 + node_id.len() as int) == tool_name,
{
    let q = spec_qualified_name(node_id, tool_name);
    let k = node_id.len() as int;
    assert(q.take(6) =~= seq!['n', 'o', 'd', 'e', '_', '_']);
    assert(q.subrange(6, 6 + k) =~= node_id);
    assert(q.subrange(6 + k, 8 + k) =~= seq!['_', '_']);
    assert(q.skip(8 + k) =~= tool_name);
}

/// Within one node, qualified names are distinct exactly when the tool names are.
pub proof fn lemma_qualified_name_injective_in_tool(node_id: Seq<char>, t1: Seq<char>, t2: Seq<char>)
    ensures
        spec_qualified_name(node_id, t1) == spec_qualified_name(node_id, t2) <==> t1 == t2,
{
    let q1 = spec_qualified_name(node_id, t1);
    let q2 = spec_qualified_name(node_id, t2);
    let k = 8 + node_id.len();
    if q1 == q2 {
        assert(q1.skip(k as int) =~= t1);
        assert(q2.skip(k as int) =~= t2);
    }
}

/// For one tool name, different node ids always give different qualified
/// names, whatever characters the ids hold.
pub proof fn lemma_qualified_name_injective_in_node(n1: Seq<char>, n2: Seq<char>, tool_name: Seq<char>)
    ensures
        spec_qualified_name(n1, tool_name) == spec_qualified_name(n2, tool_name) <==> n1 == n2,
{
    let q1 = spec_qualified_name(n1, tool_name);
    let q2 = spec_qualified_name(n2, tool_name);
    if q1 == q2 {
        assert(q1.len() == n1.len() + tool_name.len() + 8);
        assert(q2.len() == n2.len() + tool_name.len() + 8);
        assert forall|j: int| 0 <= j < n1.len() implies n1[j] == n2[j] by {
            assert(q1[6 + j] == n1[j]);
            assert(q2[6 + j] == n2[j]);
        }
        assert(n1 =~= n2);
    }
}

/// Node ids that hold no underscore (such as UUIDs) never share a qualified
/// name: equal qualified names come from the same node id and the same tool name.
pub proof fn lemma_qualified_name_injective(n1: Seq<char>, t1: Seq<char>, n2: Seq<char>, t2: Seq<char>)
    requires
        !n1.contains('_'),
        !n2.contains('_'),
        spec_qualified_name(n1, t1) == spec_qualified_name(n2, t2),
    ensures
        n1 == n2,
        t1 == t2,
{
    let q1 = spec_qualified_name(n1, t1);
    let q2 = spec_qualified_name(n2, t2);
    if n1.len() < n2.len() {
        let i = 6 + n1.len();
        assert(q1[i as int] == '_');
        assert(q2[i as int] == n2[n1.len() as int]);
        assert(n2.contains(n2[n1.len() as int]));
    } else if n2.len() < n1.len() {
        let i = 6 + n2.len();
        assert(q2[i as int] == '_');
        assert(q1[i as int] == n1[n2.len() as int]);
        assert(n1.contains(n1[n2.len() as int]));
    }
    assert(n1.len() == n2.len());
    assert forall|j: int| 0 <= j < n1.len() implies n1[j] == n2[j] by {
        assert(q1[6 + j] == n1[j]);
        assert(q2[6 + j] == n2[j]);
    }
    assert(n1 =~= n2);
    lemma_qualified_name_injective_in_tool(n1, t1, t2);
}

/// The qualified names under which a node's advertised tools are registered,
/// one per tool, in the order the node advertised them.
pub fn node_tool_names(node_id: &str, defs: &[NodeToolSchema]) -> (r: Vec<String>)
    ensures
        r@.len() == defs@.len(),
        forall|i: int|
            0 <= i < defs@.len() ==> (#[trigger] r@[i])@ == spec_qualified_name(
                node_id@,
                defs@[i].name@,
            ),
{
    let mut r: Vec<String> = Vec::new();
    let mut i: usize = 0;
    while i < defs.len()
        invariant
            i <= defs@.len(),
            r@.len() == i,
            forall|j: int|
                0 <= j < i ==> (#[trigger] r@[j])@ == spec_qualified_name(node_id@, defs@[j].name@),
        decreases defs@.len() - i,
    {
        let q = qualified_name(node_id, defs[i].name.as_str());
        r.push(q);
        i = i + 1;
    }
    r
}

/// What a newly connected node's tools are registered as: each advertised
/// tool under its qualified name, in the order the node advertised them.
pub fn node_registrations(node_id: &str, defs: &[NodeToolSchema]) -> (r: Vec<(String, NodeToolSchema)>)
    ensures
        r@.len() == defs@.len(),
        forall|i: int|
            0 <= i < defs@.len() ==> (#[trigger] r@[i]).0@ == spec_qualified_name(
                node_id@,
                defs@[i].name@,
            ) && r@[i].1 == defs@[i],
{
    let mut r: Vec<(String, NodeToolSchema)> = Vec::new();
    let mut i: usize = 0;
    while i < defs.len()
        invariant
            i <= defs@.len(),
            r@.len() == i,
            forall|j: int|
                0 <= j < i ==> (#[trigger] r@[j]).0@ == spec_qualified_name(node_id@, defs@[j].name@)
                    && r@[j].1 == defs@[j],
        decreases defs@.len() - i,
    {
        let q = qualified_name(node_id, defs[i].name.as_str());
        r.push((q, defs[i].clone()));
        i = i + 1;
    }
    r
}

/// A node whose advertised tools have distinct names registers them under
/// distinct qualified names.
pub proof fn lemma_node_tool_names_distinct(node_id: Seq<char>, tool_names: Seq<Seq<char>>)
    requires
        tool_names.no_duplicates(),
    ensures
        tool_names.map_values(|t: Seq<char>| spec_qualified_name(node_id, t)).no_duplicates(),
{
    let q = tool_names.map_values(|t: Seq<char>| spec_qualified_name(node_id, t));
    assert forall|i: int, j: int| 0 <= i < q.len() && 0 <= j < q.len() && i != j implies q[i] != q[j] by {
        lemma_qualified_name_injective_in_tool(node_id, tool_names[i], tool_names[j]);
    }
}

/// Two nodes with different ids that hold no underscore never register a
/// tool under the same qualified name.
pub proof fn lemma_nodes_do_not_collide(n1: Seq<char>, n2: Seq<char>, t1: Seq<char>, t2: Seq<char>)
    requires
        !n1.contains('_'),
        !n2.contains('_'),
        n1 != n2,
    ensures
        spec_qualified_name(n1, t1) != spec_qualified_name(n2, t2),
{
    if spec_qualified_name(n1, t1) == spec_qualified_name(n2, t2) {
        lemma_qualified_name_injective(n1, t1, n2, t2);
    }
}

} // verus!
