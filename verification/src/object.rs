//! Heap objects: function prototypes, closures, native closures, tables and
//! arrays, together with the arena that owns them.
use vstd::prelude::*;

use crate::Error;
use crate::Object;
use crate::ObjView;
use crate::spec_hashable;
use crate::spec_obj_eq;
use crate::bytecode::Instruction;

verus! {

/// A table entry list is well formed when every key is hashable and no two
/// keys are equal under value equality.
pub open spec fn table_entries_wf(entries: Seq<(ObjView, ObjView)>) -> bool {
    &&& forall|i: int| 0 <= i < entries.len() ==> spec_hashable(#[trigger] entries[i].0)
    &&& forall|i: int, j: int|
        0 <= i < j < entries.len() ==> !spec_obj_eq(entries[i].0, entries[j].0)
}

/// The index of the entry whose key equals `key`, or -1 when there is none.
pub open spec fn table_find(entries: Seq<(ObjView, ObjView)>, key: ObjView) -> int
    decreases entries.len(),
{
    if entries.len() == 0 {
        -1
    } else if spec_obj_eq(entries[0].0, key) {
        0
    } else {
        let r = table_find(entries.skip(1), key);
        if r == -1 {
            -1
        } else {
            r + 1
        }
    }
}

/// The value stored under `key`, if any.
pub open spec fn table_lookup(entries: Seq<(ObjView, ObjView)>, key: ObjView) -> Option<ObjView> {
    let i = table_find(entries, key);
    if i == -1 {
        None
    } else {
        Some(entries[i].1)
    }
}

/// Storing under `key`: an existing entry is replaced in place, a fresh key
/// is appended.
pub open spec fn table_insert(
    entries: Seq<(ObjView, ObjView)>,
    key: ObjView,
    value: ObjView,
) -> Seq<(ObjView, ObjView)> {
    let i = table_find(entries, key);
    if i == -1 {
        entries.push((key, value))
    } else {
        entries.update(i, (key, value))
    }
}

/// Key lookup after a store: `NEWSLOT` followed by a lookup of the same key
/// yields the just-stored value, any other key reads as before, and
/// well-formedness is preserved.  A key never stored keeps `table_lookup`
/// at `None`, on which `Table::get` reports a runtime error.
pub proof fn lemma_getk_after_newslot(
    entries: Seq<(ObjView, ObjView)>,
    key: ObjView,
    value: ObjView,
)
    requires
        table_entries_wf(entries),
        spec_hashable(key),
    ensures
        table_entries_wf(table_insert(entries, key, value)),
        table_lookup(table_insert(entries, key, value), key) == Some(value),
        forall|k: ObjView|
            !spec_obj_eq(k, key) ==> #[trigger] table_lookup(table_insert(entries, key, value), k)
                == table_lookup(entries, k),
{
    lemma_table_find_range(entries, key);
    let i = table_find(entries, key);
    if i == -1 {
        lemma_table_append(entries, entries.push((key, value)), key, value);
    } else {
        lemma_table_update(entries, entries.update(i, (key, value)), key, value, i);
    }
}

proof fn lemma_table_find_range(entries: Seq<(ObjView, ObjView)>, key: ObjView)
    ensures
        -1 <= table_find(entries, key) < entries.len(),
        table_find(entries, key) >= 0 ==> spec_obj_eq(entries[table_find(entries, key)].0, key),
        table_find(entries, key) == -1 ==> forall|i: int|
            0 <= i < entries.len() ==> !spec_obj_eq(#[trigger] entries[i].0, key),
    decreases entries.len(),
{
    if entries.len() > 0 {
        lemma_table_find_range(entries.skip(1), key);
        if !spec_obj_eq(entries[0].0, key) {
            let r = table_find(entries.skip(1), key);
            if r >= 0 {
                assert(entries.skip(1)[r] == entries[r + 1]);
            } else {
                assert forall|i: int| 0 <= i < entries.len() implies !spec_obj_eq(
                    #[trigger] entries[i].0,
                    key,
                ) by {
                    if i > 0 {
                        assert(entries.skip(1)[i - 1] == entries[i]);
                    }
                }
            }
        }
    }
}

/// A mapping from hashable values to values.  Entries are kept as a list with
/// pairwise-unequal keys; `table_lookup` on the entry views is the
/// mathematical content.
#[derive(Debug)]
pub struct Table {
    entries: Vec<(Object, Object)>,
}

impl Table {
    /// The entry list, each pair by its view.
    pub closed spec fn view(&self) -> Seq<(ObjView, ObjView)> {
        self.entries@.map_values(|e: (Object, Object)| (e.0@, e.1@))
    }

    /// Well-formedness: hashable keys, no two of them equal.  `new`
    /// establishes it and `set` preserves it.
    pub open spec fn wf(&self) -> bool {
        table_entries_wf(self@)
    }

    /// An empty table.
    pub fn new() -> (r: Table)
        ensures
            r@ =~= Seq::<(ObjView, ObjView)>::empty(),
            r.wf(),
    {
        Table { entries: Vec::new() }
    }

    /// The number of entries.
    pub fn len(&self) -> (r: usize)
        ensures
            r == self@.len(),
    {
        self.entries.len()
    }

    /// The value stored under `key`: exactly `table_lookup` of the entries.
    /// Only hashable keys are accepted; any other key is a runtime error, as
    /// the key set of a table is restricted to integers, booleans and strings.
    pub fn get(&self, key: &Object) -> (r: Result<Object, Error>)
        requires
            self.wf(),
        ensures
            match r {
                Ok(v) => table_lookup(self@, key@) == Some(v@),
                Err(e) => table_lookup(self@, key@) is None && e.is_runtime(),
            },
    {
        if !key.is_hashable() {
            proof {
                lemma_table_find_range(self@, key@);
            }
            return Err(Error::RuntimeError("unsupported table key".to_owned()));
        }
        let n = self.entries.len();
        let mut i: usize = 0;
        while i < n
            invariant
                n == self@.len(),
                0 <= i <= n,
                forall|j: int| 0 <= j < i ==> !spec_obj_eq(#[trigger] self@[j].0, key@),
            decreases n - i,
        {
            if self.entries[i].0.obj_eq(key) {
                proof {
                    table_find_witness(self@, key@, i as int);
                }
                return Ok(self.entries[i].1.clone());
            }
            i = i + 1;
        }
        proof {
            lemma_table_find_range(self@, key@);
        }
        Err(Error::RuntimeError("key not found in table".to_owned()))
    }

    /// Stores `value` under `key`, replacing an existing entry or appending a
    /// new one.  Afterwards the lookup of `key` yields `value` and every other
    /// key is unchanged.
    pub fn set(&mut self, key: &Object, value: Object) -> (r: Result<(), Error>)
        requires
            old(self).wf(),
        ensures
            final(self).wf(),
            match r {
                Ok(()) => {
                    &&& spec_hashable(key@)
                    &&& final(self)@ == table_insert(old(self)@, key@, value@)
                    &&& table_lookup(final(self)@, key@) == Some(value@)
                    &&& forall|k: ObjView|
                        !spec_obj_eq(k, key@) ==> #[trigger] table_lookup(final(self)@, k)
                            == table_lookup(old(self)@, k)
                },
                Err(e) => !spec_hashable(key@) && final(self)@ == old(self)@ && e.is_runtime(),
            },
    {
        if !key.is_hashable() {
            return Err(Error::RuntimeError("unsupported table key".to_owned()));
        }
        let ghost entries0 = self@;
        let n = self.entries.len();
        let mut i: usize = 0;
        while i < n
            invariant
                self@ == entries0,
                entries0 == old(self)@,
                table_entries_wf(entries0),
                spec_hashable(key@),
                n == self@.len(),
                0 <= i <= n,
                forall|j: int| 0 <= j < i ==> !spec_obj_eq(#[trigger] self@[j].0, key@),
            decreases n - i,
        {
            if self.entries[i].0.obj_eq(key) {
                proof {
                    table_find_witness(entries0, key@, i as int);
                }
                let kc = key.clone();
                self.entries.set(i, (kc, value));
                proof {
                    lemma_table_update(entries0, self@, key@, value@, i as int);
                }
                return Ok(());
            }
            i = i + 1;
        }
        let kc = key.clone();
        self.entries.push((kc, value));
        proof {
            lemma_table_find_range(entries0, key@);
            lemma_table_append(entries0, self@, key@, value@);
        }
        Ok(())
    }

    /// A fresh table holding the same entries: a shallow copy, since the
    /// values themselves are plain or name shared slots.
    pub fn duplicate(&self) -> (r: Table)
        requires
            self.wf(),
        ensures
            r@ == self@,
            r.wf(),
    {
        let n = self.entries.len();
        let mut v: Vec<(Object, Object)> = Vec::new();
        let mut i: usize = 0;
        while i < n
            invariant
                i == v@.len(),
                i <= n,
                n == self.entries@.len(),
                forall|j: int|
                    0 <= j < i ==> ((#[trigger] v@[j]).0@ == self@[j].0 && v@[j].1@ == self@[j].1),
            decreases n - i,
        {
            let k = self.entries[i].0.clone();
            let val = self.entries[i].1.clone();
            v.push((k, val));
            i = i + 1;
        }
        let r = Table { entries: v };
        proof {
            assert(r@ =~= self@);
        }
        r
    }
}

/// When index `w` holds a key equal to `key` and no earlier index does,
/// `table_find` returns `w`.
proof fn table_find_witness(entries: Seq<(ObjView, ObjView)>, key: ObjView, w: int)
    requires
        0 <= w < entries.len(),
        spec_obj_eq(entries[w].0, key),
        forall|j: int| 0 <= j < w ==> !spec_obj_eq(#[trigger] entries[j].0, key),
    ensures
        table_find(entries, key) == w,
    decreases entries.len(),
{
    if w > 0 {
        assert forall|j: int| 0 <= j < w - 1 implies !spec_obj_eq(
            #[trigger] entries.skip(1)[j].0,
            key,
        ) by {
            assert(entries.skip(1)[j] == entries[j + 1]);
        }
        assert(entries.skip(1)[w - 1] == entries[w]);
        table_find_witness(entries.skip(1), key, w - 1);
    }
}

/// Replacing the entry found for `key` updates that key's lookup and keeps
/// every other lookup, and preserves well-formedness.
proof fn lemma_table_update(
    entries: Seq<(ObjView, ObjView)>,
    updated: Seq<(ObjView, ObjView)>,
    key: ObjView,
    value: ObjView,
    i: int,
)
    requires
        table_entries_wf(entries),
        spec_hashable(key),
        0 <= i < entries.len(),
        spec_obj_eq(entries[i].0, key),
        updated =~= entries.update(i, (key, value)),
    ensures
        table_entries_wf(updated),
        table_lookup(updated, key) == Some(value),
        forall|k: ObjView|
            !spec_obj_eq(k, key) ==> #[trigger] table_lookup(updated, k) == table_lookup(
                entries,
                k,
            ),
{
    assert(spec_obj_eq(key, key));
    assert forall|a: int, b: int| 0 <= a < b < updated.len() implies !spec_obj_eq(
        updated[a].0,
        updated[b].0,
    ) by {
        obj_eq_transitive_facts();
    }
    assert forall|j: int| 0 <= j < i implies !spec_obj_eq(#[trigger] updated[j].0, key) by {
        obj_eq_transitive_facts();
    }
    table_find_witness(updated, key, i);
    assert forall|k: ObjView| !spec_obj_eq(k, key) implies #[trigger] table_lookup(updated, k)
        == table_lookup(entries, k) by {
        lemma_table_find_range(entries, k);
        lemma_table_find_range(updated, k);
        obj_eq_transitive_facts();
        let r = table_find(entries, k);
        if r >= 0 {
            table_find_witness(updated, k, r);
        } else {
            if table_find(updated, k) >= 0 {
                let r2 = table_find(updated, k);
                assert(entries[r2].0 == updated[r2].0 || r2 == i);
                assert(false);
            }
        }
    }
}

/// Appending a fresh key updates that key's lookup and keeps every other
/// lookup, and preserves well-formedness.
proof fn lemma_table_append(
    entries: Seq<(ObjView, ObjView)>,
    updated: Seq<(ObjView, ObjView)>,
    key: ObjView,
    value: ObjView,
)
    requires
        table_entries_wf(entries),
        spec_hashable(key),
        table_find(entries, key) == -1,
        updated =~= entries.push((key, value)),
    ensures
        table_entries_wf(updated),
        table_lookup(updated, key) == Some(value),
        forall|k: ObjView|
            !spec_obj_eq(k, key) ==> #[trigger] table_lookup(updated, k) == table_lookup(
                entries,
                k,
            ),
{
    lemma_table_find_range(entries, key);
    assert(spec_obj_eq(key, key));
    table_find_witness(updated, key, entries.len() as int);
    assert forall|k: ObjView| !spec_obj_eq(k, key) implies #[trigger] table_lookup(updated, k)
        == table_lookup(entries, k) by {
        lemma_table_find_range(entries, k);
        lemma_table_find_range(updated, k);
        let r = table_find(entries, k);
        if r >= 0 {
            table_find_witness(updated, k, r);
        } else {
            if table_find(updated, k) >= 0 {
                let r2 = table_find(updated, k);
                assert(r2 < entries.len() || r2 == entries.len());
                obj_eq_transitive_facts();
                assert(false);
            }
        }
    }
}

/// Value equality is reflexive on hashable values, symmetric, and transitive.
proof fn obj_eq_transitive_facts()
    ensures
        forall|a: ObjView| spec_hashable(a) ==> spec_obj_eq(a, a),
        forall|a: ObjView, b: ObjView| spec_obj_eq(a, b) ==> spec_obj_eq(b, a),
        forall|a: ObjView, b: ObjView, c: ObjView|
            spec_obj_eq(a, b) && spec_obj_eq(b, c) ==> spec_obj_eq(a, c),
{
}

/// An ordered sequence of values with interior mutability through its arena
/// slot.
#[derive(Debug)]
pub struct Array {
    pub array: Vec<Object>,
}

impl Array {
    /// The element views, in order.
    pub open spec fn view(&self) -> Seq<ObjView> {
        self.array@.map_values(|o: Object| o@)
    }

    /// An empty array.
    pub fn new() -> (r: Array)
        ensures
            r@ =~= Seq::<ObjView>::empty(),
    {
        Array { array: Vec::new() }
    }

    /// Pre-reserves space; the contents are unchanged.
    pub fn reserve(&mut self, size: i64)
        ensures
            final(self)@ == old(self)@,
    {
        if size > 0 {
            if size <= 0x1000 {
                self.array.reserve(size as usize);
            }
        }
        proof {
            assert(final(self)@ =~= old(self)@);
        }
    }

    /// The number of elements.
    pub fn len(&self) -> (r: usize)
        ensures
            r == self@.len(),
    {
        self.array.len()
    }

    /// Appends one element.
    pub fn append(&mut self, v: Object)
        ensures
            final(self)@ == old(self)@.push(v@),
    {
        self.array.push(v);
        proof {
            assert(final(self)@ =~= old(self)@.push(v@));
        }
    }

    /// A fresh array holding the same values: a shallow copy, since the
    /// values themselves are plain or name shared slots.
    pub fn duplicate(&self) -> (r: Array)
        ensures
            r@ == self@,
    {
        let n = self.array.len();
        let mut v: Vec<Object> = Vec::new();
        let mut i: usize = 0;
        while i < n
            invariant
                i == v@.len(),
                i <= n,
                n == self.array@.len(),
                forall|j: int| 0 <= j < i ==> (#[trigger] v@[j])@ == self@[j],
            decreases n - i,
        {
            v.push(self.array[i].clone());
            i = i + 1;
        }
        let r = Array { array: v };
        proof {
            assert(r@ =~= self@);
        }
        r
    }
}

/// A runtime pairing of a prototype with its (empty) environment.  The held
/// value is always a `FuncProto` reference.
#[derive(Debug)]
pub struct Closure {
    pub func_proto: Object,
}

impl Closure {
    /// Pairs a prototype value into a closure.
    pub fn new(func_proto: Object) -> (r: Closure)
        ensures
            r.func_proto@ == func_proto@,
    {
        Closure { func_proto }
    }
}

/// A host-provided callable together with its advertised argument count.  The
/// interpreter invokes it with the stack framed over its arguments.
pub struct NativeClosure<N> {
    pub func: N,
    pub nargs: i64,
}

impl<N> NativeClosure<N> {
    /// Pairs a host callable with its argument count.
    pub fn new(func: N, nargs: i64) -> (r: NativeClosure<N>)
        ensures
            r.func == func,
            r.nargs == nargs,
    {
        NativeClosure { func, nargs }
    }
}

/// The immutable compiled form of a function.  Nested prototypes are indices
/// into the arena that owns this prototype.
#[derive(Debug)]
pub struct FuncProto {
    pub source_name: Object,
    pub name: Object,
    pub literals: Vec<Object>,
    pub parameters: Vec<Object>,
    pub outervalues: Vec<(i64, Object, Object)>,
    pub localvarinfos: Vec<(Object, i64, i64, i64)>,
    pub lineinfos: Vec<(i64, i64)>,
    pub defaultparams: Vec<i64>,
    pub instructions: Vec<Instruction>,
    pub functions: Vec<usize>,
    pub stacksize: i64,
}

/// The arena of heap objects.  Reference values (`Object::Table` and the
/// rest) are indices into these vectors; sharing a value shares the slot it
/// names.  Slots are never removed, so an index stays valid for the life of
/// the heap.
#[derive(Debug)]
pub struct Heap {
    pub protos: Vec<FuncProto>,
    pub closures: Vec<Closure>,
    pub tables: Vec<Table>,
    pub arrays: Vec<Array>,
}

impl Heap {
    /// The table views, by slot.
    pub open spec fn tables_view(&self) -> Seq<Seq<(ObjView, ObjView)>> {
        self.tables@.map_values(|t: Table| t@)
    }

    /// The array views, by slot.
    pub open spec fn arrays_view(&self) -> Seq<Seq<ObjView>> {
        self.arrays@.map_values(|a: Array| a@)
    }

    /// Every table slot is well formed.  `Heap::new` establishes this and
    /// every operation of the interpreter preserves it.
    pub open spec fn tables_wf(&self) -> bool {
        forall|i: int| 0 <= i < self.tables@.len() ==> (#[trigger] self.tables@[i]).wf()
    }

    /// An empty heap.
    pub fn new() -> (r: Heap)
        ensures
            r.protos@.len() == 0,
            r.closures@.len() == 0,
            r.tables_view() =~= Seq::<Seq<(ObjView, ObjView)>>::empty(),
            r.arrays_view() =~= Seq::<Seq<ObjView>>::empty(),
            r.tables_wf(),
    {
        Heap { protos: Vec::new(), closures: Vec::new(), tables: Vec::new(), arrays: Vec::new() }
    }

    /// Allocates a fresh empty table and returns its slot.
    pub fn alloc_table(&mut self) -> (r: usize)
        ensures
            r == old(self).tables_view().len(),
            final(self).tables_view() =~= old(self).tables_view().push(
                Seq::<(ObjView, ObjView)>::empty(),
            ),
            final(self).arrays@ == old(self).arrays@,
            final(self).protos@ == old(self).protos@,
            final(self).closures@ == old(self).closures@,
            final(self).tables@.len() == old(self).tables@.len() + 1,
            old(self).tables_wf() ==> final(self).tables_wf(),
    {
        let r = self.tables.len();
        self.tables.push(Table::new());
        r
    }

    /// Allocates a fresh empty array and returns its slot.
    pub fn alloc_array(&mut self, capacity: i64) -> (r: usize)
        ensures
            r == old(self).arrays_view().len(),
            final(self).arrays_view() =~= old(self).arrays_view().push(Seq::<ObjView>::empty()),
            final(self).tables@ == old(self).tables@,
            final(self).protos@ == old(self).protos@,
            final(self).closures@ == old(self).closures@,
    {
        let r = self.arrays.len();
        let mut a = Array::new();
        a.reserve(capacity);
        self.arrays.push(a);
        r
    }

    /// Stores `value` under `key` in the table at slot `tid`; other slots
    /// and other keys are untouched.
    pub fn table_set(&mut self, tid: usize, key: &Object, value: Object) -> (r: Result<(), Error>)
        requires
            old(self).tables_wf(),
            (tid as int) < old(self).tables@.len(),
        ensures
            final(self).tables_wf(),
            final(self).protos@ == old(self).protos@,
            final(self).closures@ == old(self).closures@,
            final(self).arrays@ == old(self).arrays@,
            final(self).tables@.len() == old(self).tables@.len(),
            final(self).tables_view().len() == old(self).tables_view().len(),
            forall|i: int|
                0 <= i < old(self).tables_view().len() && i != tid ==> final(self).tables_view()[i]
                    == old(self).tables_view()[i],
            match r {
                Ok(()) => {
                    &&& spec_hashable(key@)
                    &&& final(self).tables_view() == old(self).tables_view().update(
                        tid as int,
                        table_insert(old(self).tables_view()[tid as int], key@, value@),
                    )
                    &&& table_lookup(final(self).tables_view()[tid as int], key@) == Some(value@)
                    &&& forall|k: ObjView|
                        !spec_obj_eq(k, key@) ==> #[trigger] table_lookup(
                            final(self).tables_view()[tid as int],
                            k,
                        ) == table_lookup(old(self).tables_view()[tid as int], k)
                },
                Err(e) => {
                    &&& !spec_hashable(key@)
                    &&& final(self).tables_view() == old(self).tables_view()
                    &&& e.is_runtime()
                },
            },
    {
        proof {
            assert(self.tables@[tid as int].wf());
        }
        let res = self.tables[tid].set(key, value);
        proof {
            assert(final(self).tables@ =~= old(self).tables@.update(
                tid as int,
                final(self).tables@[tid as int],
            ));
            if res is Err {
                assert(final(self).tables_view() =~= old(self).tables_view());
            } else {
                assert(final(self).tables_view() =~= old(self).tables_view().update(
                    tid as int,
                    table_insert(old(self).tables_view()[tid as int], key@, value@),
                ));
            }
        }
        res
    }

    /// Appends `v` to the array at slot `aid`; other slots are untouched.
    pub fn array_append(&mut self, aid: usize, v: Object)
        requires
            (aid as int) < old(self).arrays@.len(),
        ensures
            final(self).arrays_view() == old(self).arrays_view().update(
                aid as int,
                old(self).arrays_view()[aid as int].push(v@),
            ),
            final(self).tables@ == old(self).tables@,
            final(self).protos@ == old(self).protos@,
            final(self).closures@ == old(self).closures@,
    {
        self.arrays[aid].append(v);
        proof {
            assert(final(self).arrays@ =~= old(self).arrays@.update(
                aid as int,
                final(self).arrays@[aid as int],
            ));
            assert(final(self).arrays_view() =~= old(self).arrays_view().update(
                aid as int,
                old(self).arrays_view()[aid as int].push(v@),
            ));
        }
    }

    /// Allocates a fresh table holding the same entries as slot `tid` and
    /// returns the new slot.
    pub fn dup_table(&mut self, tid: usize) -> (r: usize)
        requires
            old(self).tables_wf(),
            (tid as int) < old(self).tables@.len(),
        ensures
            r == old(self).tables_view().len(),
            final(self).tables_view() =~= old(self).tables_view().push(
                old(self).tables_view()[tid as int],
            ),
            final(self).arrays@ == old(self).arrays@,
            final(self).protos@ == old(self).protos@,
            final(self).closures@ == old(self).closures@,
            final(self).tables@.len() == old(self).tables@.len() + 1,
            final(self).tables_wf(),
    {
        let r = self.tables.len();
        proof {
            assert(self.tables@[tid as int].wf());
        }
        let t = self.tables[tid].duplicate();
        self.tables.push(t);
        r
    }

    /// Allocates a fresh array holding the same elements as slot `aid` and
    /// returns the new slot.
    pub fn dup_array(&mut self, aid: usize) -> (r: usize)
        requires
            (aid as int) < old(self).arrays@.len(),
        ensures
            r == old(self).arrays_view().len(),
            final(self).arrays_view() =~= old(self).arrays_view().push(
                old(self).arrays_view()[aid as int],
            ),
            final(self).tables@ == old(self).tables@,
            final(self).protos@ == old(self).protos@,
            final(self).closures@ == old(self).closures@,
    {
        let r = self.arrays.len();
        let a = self.arrays[aid].duplicate();
        self.arrays.push(a);
        r
    }

    /// Allocates a closure over the given prototype value and returns its
    /// slot.
    pub fn alloc_closure(&mut self, func_proto: Object) -> (r: usize)
        ensures
            r == old(self).closures@.len(),
            final(self).closures@.len() == old(self).closures@.len() + 1,
            final(self).closures@[r as int].func_proto@ == func_proto@,
            forall|i: int|
                0 <= i < old(self).closures@.len() ==> final(self).closures@[i] == old(
                    self,
                ).closures@[i],
            final(self).tables@ == old(self).tables@,
            final(self).arrays@ == old(self).arrays@,
            final(self).protos@ == old(self).protos@,
    {
        let r = self.closures.len();
        self.closures.push(Closure::new(func_proto));
        r
    }
}

} // verus!
