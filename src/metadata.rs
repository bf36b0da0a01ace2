use vstd::prelude::*;

verus! {

/// One registry entry: a signal path, its descriptive attributes, and the id
/// minted for it at registration.
#[derive(Debug)]
pub struct Metadata {
    pub path: String,
    pub type_: String,
    pub description: String,
    pub datatype: String,
    pub id: u32,
}

/// A registry entry as plain sequences of characters.
pub struct MetadataView {
    pub path: Seq<char>,
    pub type_: Seq<char>,
    pub description: Seq<char>,
    pub datatype: Seq<char>,
    pub id: u32,
}

impl View for Metadata {
    type V = MetadataView;

    open spec fn view(&self) -> MetadataView {
        MetadataView {
            path: self.path@,
            type_: self.type_@,
            description: self.description@,
            datatype: self.datatype@,
            id: self.id,
        }
    }
}

impl Metadata {
    pub fn new(path: String, type_: String, description: String, datatype: String, id: u32) -> (m:
        Self)
        ensures
            m@ == (MetadataView {
                path: path@,
                type_: type_@,
                description: description@,
                datatype: datatype@,
                id,
            }),
    {
        Metadata { path, type_, description, datatype, id }
    }
}

/// Whether some entry of `rows` has the path `path`.
pub open spec fn has_path(rows: Seq<MetadataView>, path: Seq<char>) -> bool {
    exists|i: int| 0 <= i < rows.len() && (#[trigger] rows[i]).path == path
}

/// The registry after one registration attempt of `m`: unchanged when the
/// path is taken, else `m` appended with the next id.
pub open spec fn register_spec(rows: Seq<MetadataView>, m: MetadataView) -> Seq<MetadataView> {
    if has_path(rows, m.path) {
        rows
    } else {
        rows.push(MetadataView { id: rows.len() as u32, ..m })
    }
}

/// The registry after registration attempts of `ms`, in order.
pub open spec fn register_all(rows: Seq<MetadataView>, ms: Seq<MetadataView>) -> Seq<
    MetadataView,
>
    decreases ms.len(),
{
    if ms.len() == 0 {
        rows
    } else {
        register_all(register_spec(rows, ms[0]), ms.drop_first())
    }
}

/// A registry is well formed when each entry's id is its position and no two
/// entries share a path.
pub open spec fn registry_wf(rows: Seq<MetadataView>) -> bool {
    &&& rows.len() <= u32::MAX
    &&& forall|i: int| 0 <= i < rows.len() ==> (#[trigger] rows[i]).id == i
    &&& forall|i: int, j: int|
        0 <= i < rows.len() && 0 <= j < rows.len() && i != j ==> (#[trigger] rows[i]).path
            != (#[trigger] rows[j]).path
}

/// Ids follow registration order: after any sequence of registration attempts
/// on a well-formed registry, the earlier entries are kept as they were, every
/// entry's id is its position, so the successful registrations received the
/// ids that followed in the order they succeeded, and a registration whose
/// path was taken consumed no id.
pub proof fn lemma_ids_follow_registration_order(rows: Seq<MetadataView>, ms: Seq<MetadataView>)
    requires
        registry_wf(rows),
        rows.len() + ms.len() <= u32::MAX,
    ensures
        registry_wf(register_all(rows, ms)),
        register_all(rows, ms).subrange(0, rows.len() as int) == rows,
        rows.len() <= register_all(rows, ms).len() <= rows.len() + ms.len(),
        forall|i: int|
            0 <= i < register_all(rows, ms).len() ==> (#[trigger] register_all(rows, ms)[i]).id
                == i,
        ms.len() > 0 && has_path(rows, ms[0].path) ==> register_all(rows, ms) == register_all(
            rows,
            ms.drop_first(),
        ),
        ms.len() > 0 && !has_path(rows, ms[0].path) ==> register_all(rows, ms)[rows.len() as int]
            == (MetadataView { id: rows.len() as u32, ..ms[0] }),
    decreases ms.len(),
{
    if ms.len() > 0 {
        let m = ms[0];
        let next = register_spec(rows, m);
        if !has_path(rows, m.path) {
            lemma_register_keeps_wf(rows, m);
        }
        lemma_ids_follow_registration_order(next, ms.drop_first());
        assert(next.subrange(0, rows.len() as int) =~= rows);
        let r = register_all(rows, ms);
        assert(r == register_all(next, ms.drop_first()));
        assert(r.subrange(0, rows.len() as int) =~= next.subrange(0, rows.len() as int));
        if !has_path(rows, m.path) {
            assert(r[rows.len() as int] == r.subrange(0, next.len() as int)[rows.len() as int]);
        }
    } else {
        assert(rows.subrange(0, rows.len() as int) =~= rows);
    }
}

/// One successful registration keeps the registry well formed.
pub proof fn lemma_register_keeps_wf(rows: Seq<MetadataView>, m: MetadataView)
    requires
        registry_wf(rows),
        rows.len() < u32::MAX,
    ensures
        registry_wf(register_spec(rows, m)),
{
    if !has_path(rows, m.path) {
        let r = rows.push(MetadataView { id: rows.len() as u32, ..m });
        assert forall|i: int, j: int|
            0 <= i < r.len() && 0 <= j < r.len() && i != j implies (#[trigger] r[i]).path != (
            #[trigger] r[j]).path by {
            if i == rows.len() {
                assert(rows[j] == r[j]);
            } else if j == rows.len() {
                assert(rows[i] == r[i]);
            }
        }
    }
}

/// Registering one path twice: the first attempt adds it under the next id,
/// the second finds it taken and leaves the registry, and so that id, as it
/// was.
pub proof fn lemma_register_twice(rows: Seq<MetadataView>, a: MetadataView, b: MetadataView)
    requires
        registry_wf(rows),
        rows.len() < u32::MAX,
        !has_path(rows, a.path),
        b.path == a.path,
    ensures
        register_spec(rows, a).len() == rows.len() + 1,
        register_spec(rows, a)[rows.len() as int].path == a.path,
        register_spec(rows, a)[rows.len() as int].id == rows.len(),
        has_path(register_spec(rows, a), b.path),
        register_spec(register_spec(rows, a), b) == register_spec(rows, a),
{
    let r = register_spec(rows, a);
    assert(r[rows.len() as int].path == b.path);
}

/// The registry: the path → id mapping, append-only.
pub struct MetadataTable {
    rows: Vec<Metadata>,
}

impl View for MetadataTable {
    type V = Seq<MetadataView>;

    closed spec fn view(&self) -> Seq<MetadataView> {
        self.rows@.map_values(|m: Metadata| m@)
    }
}

pub open spec fn already_registered_message(path: Seq<char>) -> Seq<char> {
    "Datapoint "@ + path + " already registered!"@
}

impl MetadataTable {
    pub open spec fn wf(&self) -> bool {
        registry_wf(self@)
    }

    pub fn new() -> (t: Self)
        ensures
            t.wf(),
            t@ == Seq::<MetadataView>::empty(),
    {
        let t = MetadataTable { rows: Vec::new() };
        assert(t@ =~= Seq::<MetadataView>::empty());
        t
    }

    pub fn len(&self) -> (n: usize)
        ensures
            n == self@.len(),
    {
        self.rows.len()
    }

    /// The entry at position `i`, which is the entry with id `i`.
    pub fn entry(&self, i: usize) -> (m: &Metadata)
        requires
            i < self@.len(),
        ensures
            m@ == self@[i as int],
    {
        &self.rows[i]
    }

    /// Looks up the id registered for `path`.
    pub fn find(&self, path: &String) -> (r: Option<u32>)
        requires
            self.wf(),
        ensures
            match r {
                Some(id) => id < self@.len() && self@[id as int].path == path@,
                None => !has_path(self@, path@),
            },
    {
        let mut i: usize = 0;
        while i < self.rows.len()
            invariant
                self.wf(),
                i <= self.rows.len(),
                forall|j: int| 0 <= j < i ==> (#[trigger] self@[j]).path != path@,
            decreases self.rows.len() - i,
        {
            if self.rows[i].path == *path {
                assert(self@[i as int].id == i);
                return Some(self.rows[i].id);
            }
            i = i + 1;
        }
        None
    }
}

/// Registers `metadata` under the next free id, which is the number of
/// entries already present; fails, changing nothing, when its path is taken.
pub fn register_datapoint(table: &mut MetadataTable, metadata: Metadata) -> (r: Result<u32, String>)
    requires
        old(table).wf(),
        old(table)@.len() < u32::MAX,
    ensures
        final(table).wf(),
        final(table)@ == register_spec(old(table)@, metadata@),
        match r {
            Ok(id) => !has_path(old(table)@, metadata@.path) && id == old(table)@.len(),
            Err(e) => has_path(old(table)@, metadata@.path) && e@ == already_registered_message(
                metadata@.path,
            ),
        },
{
    let mut metadata = metadata;
    match table.find(&metadata.path) {
        Some(_) => {
            let mut e = String::from_str("Datapoint ");
            e.append(metadata.path.as_str());
            e.append(" already registered!");
            Err(e)
        },
        None => {
            let id = table.rows.len() as u32;
            metadata.id = id;
            let ghost before = table@;
            table.rows.push(metadata);
            assert(table@ =~= before.push(MetadataView { id, ..metadata@ }));
            Ok(id)
        },
    }
}

} // verus!
