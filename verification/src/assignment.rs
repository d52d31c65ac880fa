//! Giving each witness node of a compiled program its value.
use std::sync::Arc;

use vstd::prelude::*;

use crate::frontend::Frontend;
use crate::layout::{layout, law_layout_follows_nodes, witnesses_before, LayoutNode};
use crate::text::same_text;

verus! {

/// Whether `v` can be the answer to the question for the value of a witness.
pub open spec fn answers<F: Frontend>(
    witness_values: F::WitnessValues,
    name: Seq<char>,
    v: Result<F::Value, String>,
) -> bool {
    exists|text: &str|
        text@ == name && #[trigger] call_ensures(F::witness_value, (&witness_values, text), v)
}

/// Whether a witness can be given a value.
pub open spec fn has_value<F: Frontend>(
    witness_values: F::WitnessValues,
    name: Seq<char>,
) -> bool {
    exists|v: F::Value| #[trigger] answers::<F>(witness_values, name, Ok(v))
}

/// What giving the entries of a layout their values comes to: for each entry the value of its
/// name, the same one wherever the name stands again, or the message for the first name without
/// one.
pub open spec fn assigned<F: Frontend>(
    witness_values: F::WitnessValues,
    entries: Seq<(String, F::Final)>,
    r: Result<Vec<Arc<F::Value>>, String>,
) -> bool {
    match r {
        Ok(values) => {
            &&& values.len() == entries.len()
            &&& forall|k: int|
                0 <= k < entries.len() ==> answers::<F>(
                    witness_values,
                    (#[trigger] entries[k]).0@,
                    Ok(*values[k]),
                )
            &&& forall|j: int, k: int|
                0 <= j < entries.len() && 0 <= k < entries.len() && (#[trigger] entries[j]).0@ == (
                #[trigger] entries[k]).0@ ==> *values[j] == *values[k]
        },
        Err(e) => exists|k: int, text: String|
            0 <= k < entries.len() && #[trigger] answers::<F>(
                witness_values,
                entries[k].0@,
                Err(text),
            ) && e@ == text@ && forall|j: int|
                0 <= j < k ==> has_value::<F>(witness_values, (#[trigger] entries[j]).0@),
    }
}

/// The first place before `k` at which the name of the entry `k` stands, if there is one.
fn earlier<T>(entries: &Vec<(String, T)>, k: usize) -> (r: Option<usize>)
    requires
        k < entries.len(),
    ensures
        match r {
            Some(j) => j < k && entries[j as int].0@ == entries[k as int].0@,
            None => forall|j: int| 0 <= j < k ==> (#[trigger] entries[j]).0@ != entries[k as int].0@,
        },
{
    let name = entries[k].0.as_str();
    let mut j: usize = 0;
    while j < k
        invariant
            j <= k < entries.len(),
            name@ == entries[k as int].0@,
            forall|i: int| 0 <= i < j ==> (#[trigger] entries[i]).0@ != entries[k as int].0@,
        decreases k - j,
    {
        if same_text(entries[j].0.as_str(), name) {
            return Some(j);
        }
        j = j + 1;
    }
    None
}

/// The values for the entries of a layout, in order. A name that stands again takes the value
/// that it has.
pub fn assign<F: Frontend>(
    witness_values: &F::WitnessValues,
    entries: &Vec<(String, F::Final)>,
) -> (r: Result<Vec<Arc<F::Value>>, String>)
    ensures
        assigned::<F>(*witness_values, entries@, r),
{
    let mut values: Vec<Arc<F::Value>> = Vec::new();
    let mut k: usize = 0;
    while k < entries.len()
        invariant
            k <= entries.len(),
            values.len() == k,
            forall|i: int|
                0 <= i < k ==> answers::<F>(
                    *witness_values,
                    (#[trigger] entries@[i]).0@,
                    Ok(*values@[i]),
                ),
            forall|i: int, j: int|
                0 <= i < k && 0 <= j < k && (#[trigger] entries@[i]).0@ == (
                #[trigger] entries@[j]).0@ ==> *values@[i] == *values@[j],
        decreases entries.len() - k,
    {
        let ghost before = values@;
        let value = match earlier(entries, k) {
            Some(j) => {
                assert(answers::<F>(*witness_values, entries@[j as int].0@, Ok(*values@[j as int])));
                values[j].clone()
            },
            None => {
                let name = entries[k].0.as_str();
                let v = F::witness_value(witness_values, name);
                let ghost answer = v;
                assert(answers::<F>(*witness_values, entries@[k as int].0@, answer));
                match v {
                    Ok(value) => Arc::new(value),
                    Err(e) => {
                        assert forall|j: int| 0 <= j < k implies has_value::<F>(
                            *witness_values,
                            (#[trigger] entries@[j]).0@,
                        ) by {
                            assert(answers::<F>(*witness_values, entries@[j].0@, Ok(*values@[j])));
                        }
                        return Err(e);
                    },
                }
            },
        };
        values.push(value);
        assert forall|i: int| 0 <= i < k implies values@[i] == #[trigger] before[i] by {}
        k = k + 1;
    }
    Ok(values)
}

/// Each witness node takes the value of its name: the `k`-th witness node in post order takes
/// the `k`-th value, which is that of the name in the `k`-th entry of the layout, and nodes
/// with the same name take the same value.
pub proof fn law_values_follow_layout<F: Frontend>(
    witness_values: F::WitnessValues,
    nodes: Seq<LayoutNode<F::Final>>,
    values: Vec<Arc<F::Value>>,
)
    requires
        assigned::<F>(witness_values, layout(nodes), Ok(values)),
    ensures
        values.len() == witnesses_before(nodes, nodes.len() as int),
        forall|i: int|
            0 <= i < nodes.len() ==> ((#[trigger] nodes[i]) matches LayoutNode::Witness { name, ty }
                ==> answers::<F>(
                witness_values,
                name@,
                Ok(*values[witnesses_before(nodes, i)]),
            )),
        forall|i: int, j: int|
            0 <= i < nodes.len() && 0 <= j < nodes.len() && (#[trigger] nodes[i] is Witness) && (
            #[trigger] nodes[j] is Witness) && nodes[i]->name@ == nodes[j]->name@
                ==> *values[witnesses_before(nodes, i)] == *values[witnesses_before(nodes, j)],
{
    law_layout_follows_nodes(nodes);
    let entries = layout(nodes);
    assert forall|i: int| 0 <= i < nodes.len() implies ((
    #[trigger] nodes[i]) matches LayoutNode::Witness { name, ty } ==> answers::<F>(
        witness_values,
        name@,
        Ok(*values[witnesses_before(nodes, i)]),
    )) by {
        if nodes[i] is Witness {
            assert(entries[witnesses_before(nodes, i)].0 == nodes[i]->name);
        }
    }
    assert forall|i: int, j: int|
        0 <= i < nodes.len() && 0 <= j < nodes.len() && (#[trigger] nodes[i] is Witness) && (
        #[trigger] nodes[j] is Witness) && nodes[i]->name@ == nodes[j]->name@ implies *values[witnesses_before(
        nodes,
        i,
    )] == *values[witnesses_before(nodes, j)] by {
        assert(entries[witnesses_before(nodes, i)].0 == nodes[i]->name);
        assert(entries[witnesses_before(nodes, j)].0 == nodes[j]->name);
    }
}

} // verus!
