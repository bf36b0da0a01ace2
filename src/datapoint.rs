use vstd::prelude::*;

use crate::value::{Datapoint, Datatype};

verus! {

broadcast use vstd::std_specs::hash::group_hash_axioms;

/// The store of datapoints: at most one row per id, never deleted.
pub struct DatapointTable {
    rows: std::collections::HashMap<u32, Datapoint>,
}

impl View for DatapointTable {
    type V = Map<u32, Datapoint>;

    closed spec fn view(&self) -> Map<u32, Datapoint> {
        self.rows@
    }
}

/// The row a value-publish leaves behind: the new value, with the target kept
/// from the previous row if there was one.
pub open spec fn published_row(old: Option<Datapoint>, id: u32, value: Datatype) -> Datapoint {
    Datapoint {
        id,
        value,
        target_value: match old {
            Some(d) => d.target_value,
            None => None,
        },
    }
}

impl DatapointTable {
    /// Every row is stored under its own id.
    pub open spec fn wf(&self) -> bool {
        forall|k: u32| #[trigger] self@.contains_key(k) ==> self@[k].id == k
    }

    pub open spec fn spec_find(&self, id: u32) -> Option<Datapoint> {
        if self@.contains_key(id) {
            Some(self@[id])
        } else {
            None
        }
    }

    pub fn new() -> (t: Self)
        ensures
            t.wf(),
            t@ == Map::<u32, Datapoint>::empty(),
    {
        DatapointTable { rows: std::collections::HashMap::new() }
    }

    pub fn find(&self, id: u32) -> (r: Option<&Datapoint>)
        ensures
            match r {
                Some(d) => self.spec_find(id) == Some(*d),
                None => self.spec_find(id) is None,
            },
    {
        self.rows.get(&id)
    }

    pub fn len(&self) -> (n: usize)
        ensures
            n == self@.len(),
    {
        self.rows.len()
    }
}

/// Publishes `value` for `id`: updates the row in place, keeping its target,
/// or creates it with no target. Never fails.
pub fn set_datapoint_value(table: &mut DatapointTable, id: u32, value: Datatype) -> (r: Result<
    (),
    String,
>)
    requires
        old(table).wf(),
    ensures
        r is Ok,
        final(table).wf(),
        final(table)@ == old(table)@.insert(id, published_row(old(table).spec_find(id), id, value)),
{
    let previous = table.rows.remove(&id);
    let target_value = match previous {
        Some(d) => d.target_value,
        None => None,
    };
    table.rows.insert(id, Datapoint { id, value, target_value });
    Ok(())
}

/// Sets the target of the existing row for `id`; fails, changing nothing, when
/// no value was ever published for `id`.
pub fn set_datapoint_target_value(
    table: &mut DatapointTable,
    id: u32,
    target_value: Datatype,
) -> (r: Result<(), String>)
    requires
        old(table).wf(),
    ensures
        final(table).wf(),
        match old(table).spec_find(id) {
            Some(d) => r is Ok && final(table)@ == old(table)@.insert(
                id,
                Datapoint { target_value: Some(target_value), ..d },
            ),
            None => r is Err && final(table)@ == old(table)@ && r->Err_0@
                == unknown_datapoint_message(),
        },
{
    match table.rows.remove(&id) {
        Some(d) => {
            table.rows.insert(id, Datapoint { id: d.id, value: d.value, target_value: Some(target_value) });
            Ok(())
        },
        None => Err(String::from_str("Cannot set the desired value of an unknown datapoint!")),
    }
}

pub open spec fn unknown_datapoint_message() -> Seq<char> {
    "Cannot set the desired value of an unknown datapoint!"@
}

} // verus!
