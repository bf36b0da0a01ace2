use vstd::prelude::*;

use crate::metadata::{
    lemma_register_keeps_wf, register_datapoint, register_spec, registry_wf, Metadata, MetadataTable,
    MetadataView,
};

verus! {

broadcast use vstd::seq::group_seq_axioms;

/// One node of a signal definition document: its path segment, its optional
/// leaf attributes, and its children in document order.
#[derive(Debug)]
pub struct SignalNode {
    pub name: String,
    pub type_: Option<String>,
    pub description: Option<String>,
    pub datatype: Option<String>,
    pub children: Vec<SignalNode>,
}

/// The text of an optional attribute; a missing attribute reads as empty.
pub open spec fn text_or_empty(o: Option<String>) -> Seq<char> {
    match o {
        Some(s) => s@,
        None => Seq::empty(),
    }
}

/// The full path of a node named `name` below the node at `prefix`.
pub open spec fn join_path(prefix: Seq<char>, name: Seq<char>) -> Seq<char> {
    if prefix.len() == 0 {
        name
    } else {
        prefix + seq!['.'] + name
    }
}

/// The candidate entry built from a node at `path`.
pub open spec fn candidate(path: Seq<char>, n: SignalNode) -> MetadataView {
    MetadataView {
        path,
        type_: text_or_empty(n.type_),
        description: text_or_empty(n.description),
        datatype: text_or_empty(n.datatype),
        id: 0,
    }
}

/// What visiting one node contributes: its candidate when it names a
/// datatype, nothing otherwise.
pub open spec fn node_step(path: Seq<char>, n: SignalNode) -> Option<MetadataView> {
    if candidate(path, n).datatype.len() > 0 {
        Some(candidate(path, n))
    } else {
        None
    }
}

/// The visit of the sibling list `nodes` below `prefix`, one step per node,
/// in work-stack order: the last sibling first, each node before its
/// subtree, and each subtree's children last to first.
pub open spec fn import_list(prefix: Seq<char>, nodes: Seq<SignalNode>) -> Seq<
    Option<MetadataView>,
>
    decreases nodes,
{
    if nodes.len() == 0 {
        Seq::empty()
    } else {
        let n = nodes[nodes.len() - 1];
        let p = join_path(prefix, n.name@);
        seq![node_step(p, n)] + import_list(p, n.children@) + import_list(
            prefix,
            nodes.subrange(0, nodes.len() - 1),
        )
    }
}

/// The visit that a work stack still owes, its top being the last item.
spec fn import_stack(st: Seq<(Seq<char>, SignalNode)>) -> Seq<Option<MetadataView>>
    decreases st.len(),
{
    if st.len() == 0 {
        Seq::empty()
    } else {
        let (p, n) = st[st.len() - 1];
        seq![node_step(p, n)] + import_list(p, n.children@) + import_stack(
            st.subrange(0, st.len() - 1),
        )
    }
}

/// The registry after the steps `ms`, in order; a step without a candidate
/// registers nothing.
pub open spec fn register_steps(rows: Seq<MetadataView>, ms: Seq<Option<MetadataView>>) -> Seq<
    MetadataView,
>
    decreases ms.len(),
{
    if ms.len() == 0 {
        rows
    } else {
        let next = match ms[0] {
            Some(m) => register_spec(rows, m),
            None => rows,
        };
        register_steps(next, ms.drop_first())
    }
}

/// The registry that importing the document `roots` into `rows` yields.
pub open spec fn imported(rows: Seq<MetadataView>, roots: Seq<SignalNode>) -> Seq<MetadataView> {
    register_steps(rows, import_list(Seq::empty(), roots))
}

spec fn stack_items(prefix: Seq<char>, cs: Seq<SignalNode>) -> Seq<
    (Seq<char>, SignalNode),
> {
    cs.map_values(|c: SignalNode| (join_path(prefix, c.name@), c))
}

spec fn stack_view(st: Seq<(String, &SignalNode)>) -> Seq<(Seq<char>, SignalNode)> {
    st.map_values(|e: (String, &SignalNode)| (e.0@, *e.1))
}

proof fn lemma_push_children(
    rest: Seq<(Seq<char>, SignalNode)>,
    prefix: Seq<char>,
    cs: Seq<SignalNode>,
)
    ensures
        import_stack(rest + stack_items(prefix, cs)) == import_list(prefix, cs) + import_stack(
            rest,
        ),
    decreases cs.len(),
{
    let st = rest + stack_items(prefix, cs);
    if cs.len() == 0 {
        assert(st =~= rest);
        assert(import_list(prefix, cs) =~= Seq::empty());
        assert(import_list(prefix, cs) + import_stack(rest) =~= import_stack(rest));
    } else {
        let k = cs.len() - 1;
        let front = cs.subrange(0, k);
        lemma_push_children(rest, prefix, front);
        assert(st.subrange(0, st.len() - 1) =~= rest + stack_items(prefix, front));
        assert(st[st.len() - 1] == (join_path(prefix, cs[k].name@), cs[k]));
        let p = join_path(prefix, cs[k].name@);
        let head = seq![node_step(p, cs[k])] + import_list(p, cs[k].children@);
        assert(import_stack(st) == head + import_stack(rest + stack_items(prefix, front)));
        assert(import_list(prefix, cs) == head + import_list(prefix, front));
        assert(import_stack(st) =~= import_list(prefix, cs) + import_stack(rest));
    }
}

proof fn lemma_register_steps_wf(rows: Seq<MetadataView>, ms: Seq<Option<MetadataView>>)
    requires
        registry_wf(rows),
        rows.len() + ms.len() <= u32::MAX,
    ensures
        registry_wf(register_steps(rows, ms)),
        register_steps(rows, ms).len() <= rows.len() + ms.len(),
    decreases ms.len(),
{
    if ms.len() > 0 {
        if let Some(m) = ms[0] {
            lemma_register_keeps_wf(rows, m);
        }
    }
    if ms.len() > 0 {
        let next = match ms[0] {
            Some(m) => register_spec(rows, m),
            None => rows,
        };
        lemma_register_steps_wf(next, ms.drop_first());
    }
}

/// Builds the candidate entry for the node `data` at `path`; missing
/// attributes become empty strings.
pub fn parse_vss_datapoint(path: &String, data: &SignalNode) -> (m: Metadata)
    ensures
        m@ == candidate(path@, *data),
{
    let type_ = match &data.type_ {
        Some(s) => s.clone(),
        None => String::new(),
    };
    let description = match &data.description {
        Some(s) => s.clone(),
        None => String::new(),
    };
    let datatype = match &data.datatype {
        Some(s) => s.clone(),
        None => String::new(),
    };
    Metadata::new(path.clone(), type_, description, datatype, 0)
}

fn child_path(prefix: &String, name: &String) -> (r: String)
    ensures
        r@ == join_path(prefix@, name@),
{
    if prefix.as_str().unicode_len() == 0 {
        name.clone()
    } else {
        let mut r = prefix.clone();
        r.append(".");
        r.append(name.as_str());
        proof {
            reveal_strlit(".");
        }
        assert(r@ =~= join_path(prefix@, name@));
        r
    }
}

/// Imports the signal document `roots` into the registry: every node is
/// visited through a work stack seeded with the top-level nodes in document
/// order, and each node naming a datatype is registered under its dotted
/// path. Duplicate paths are skipped; the import goes on. Every id must fit
/// in a `u32`, which the bound on the number of nodes ensures.
pub fn load_vehicle_signals(table: &mut MetadataTable, roots: &Vec<SignalNode>)
    requires
        old(table).wf(),
        old(table)@.len() + import_list(Seq::empty(), roots@).len() < u32::MAX,
    ensures
        final(table).wf(),
        final(table)@ == imported(old(table)@, roots@),
{
    let ghost total = import_list(Seq::empty(), roots@);
    let ghost bound = old(table)@.len() + total.len();
    let mut siblings: Vec<(String, &SignalNode)> = Vec::new();
    let mut i: usize = 0;
    while i < roots.len()
        invariant
            i <= roots.len(),
            stack_view(siblings@) =~= stack_items(Seq::empty(), roots@.subrange(0, i as int)),
        decreases roots.len() - i,
    {
        let name = roots[i].name.clone();
        let ghost before = siblings@;
        siblings.push((name, &roots[i]));
        proof {
            assert(stack_view(siblings@) =~= stack_view(before).push((name@, roots@[i as int])));
            assert(roots@.subrange(0, i + 1) =~= roots@.subrange(0, i as int).push(roots@[i as int]));
        }
        i = i + 1;
    }
    proof {
        assert(roots@.subrange(0, roots.len() as int) =~= roots@);
        lemma_push_children(Seq::empty(), Seq::empty(), roots@);
        assert(Seq::<(Seq<char>, SignalNode)>::empty() + stack_items(Seq::empty(), roots@)
            =~= stack_view(siblings@));
        assert(import_list(Seq::empty(), roots@) + Seq::empty() =~= total);
        lemma_register_steps_wf(old(table)@, total);
    }
    while siblings.len() > 0
        invariant
            table.wf(),
            register_steps(table@, import_stack(stack_view(siblings@))) == register_steps(
                old(table)@,
                total,
            ),
            table@.len() + import_stack(stack_view(siblings@)).len() <= bound,
            bound < u32::MAX,
        decreases import_stack(stack_view(siblings@)).len(),
    {
        let ghost st = stack_view(siblings@);
        let entry = siblings.pop().unwrap();
        let ghost rest = stack_view(siblings@);
        let metadata = parse_vss_datapoint(&entry.0, entry.1);
        let ghost step = node_step(entry.0@, *entry.1);
        let ghost tail = import_list(entry.0@, entry.1.children@) + import_stack(rest);
        proof {
            assert(st.subrange(0, st.len() - 1) =~= rest);
            assert(st[st.len() - 1] == (entry.0@, *entry.1));
            assert(import_stack(st) =~= seq![step] + tail);
            assert((seq![step] + tail)[0] == step);
            assert((seq![step] + tail).drop_first() =~= tail);
        }
        if metadata.datatype.as_str().unicode_len() > 0 {
            let _ = register_datapoint(table, metadata);
        }
        let children = &entry.1.children;
        let mut j: usize = 0;
        while j < children.len()
            invariant
                j <= children.len(),
                stack_view(siblings@) =~= rest + stack_items(
                    entry.0@,
                    children@.subrange(0, j as int),
                ),
            decreases children.len() - j,
        {
            let path = child_path(&entry.0, &children[j].name);
            let ghost before = siblings@;
            siblings.push((path, &children[j]));
            proof {
                assert(stack_view(siblings@) =~= stack_view(before).push(
                    (path@, children@[j as int]),
                ));
                assert(children@.subrange(0, j + 1) =~= children@.subrange(0, j as int).push(
                    children@[j as int],
                ));
            }
            j = j + 1;
        }
        proof {
            assert(children@.subrange(0, children.len() as int) =~= children@);
            lemma_push_children(rest, entry.0@, children@);
        }
    }
}

/// Creates the registry from the signal document `roots`.
pub fn init(roots: &Vec<SignalNode>) -> (t: MetadataTable)
    requires
        import_list(Seq::empty(), roots@).len() < u32::MAX,
    ensures
        t.wf(),
        t@ == imported(Seq::empty(), roots@),
{
    let mut t = MetadataTable::new();
    load_vehicle_signals(&mut t, roots);
    t
}

} // verus!
