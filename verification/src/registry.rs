//! The closed registries of block and item kinds.
//!
//! The registry is an explicit value, constructed once at startup and passed
//! by reference to every subsystem that needs lookup — never ambient
//! process-wide state. An `Identifier` is the stable type-key: persistence
//! stores identifiers, and decoding resolves them through the registry, so
//! storage order never matters.

use vstd::prelude::*;
use vstd::string::StringSliceAdditionalSpecFns;
use crate::identifier::{
    ascii_ok, pool_unique, GlobalString, Identifier, StringPool,
};

verus! {

/// The concrete block kinds, a closed set.
#[derive(Clone, Copy, Debug, PartialEq, Eq, Hash, Structural)]
pub enum BlockKind {
    Empty,
    ResourceNodeBrown,
    StorageContainer,
    Extractor,
    Conveyor,
    Splitter,
    Tunnel,
}

/// The concrete item kinds: a plain resource, or a placeable building.
#[derive(Clone, Copy, Debug, PartialEq, Eq, Hash, Structural)]
pub enum ItemKind {
    Resource,
    Building(BlockKind),
}

/// Some entry maps this identifier.
pub open spec fn table_contains_id<K>(t: Seq<(Identifier, K)>, id: Identifier) -> bool {
    exists|i: int| 0 <= i < t.len() && t[i].0 == id
}

/// The kind an identifier maps to (meaningful under `table_contains_id` and
/// well-formedness).
pub open spec fn table_kind_of<K>(t: Seq<(Identifier, K)>, id: Identifier) -> K {
    t[choose|i: int| 0 <= i < t.len() && t[i].0 == id].1
}

/// Some entry maps to this kind.
pub open spec fn table_contains_kind<K>(t: Seq<(Identifier, K)>, k: K) -> bool {
    exists|i: int| 0 <= i < t.len() && t[i].1 == k
}

/// The identifier of a kind (meaningful under `table_contains_kind` and
/// well-formedness).
pub open spec fn table_id_of<K>(t: Seq<(Identifier, K)>, k: K) -> Identifier {
    t[choose|i: int| 0 <= i < t.len() && t[i].1 == k].0
}

/// Entries name distinct, pool-valid, ASCII identifiers and distinct kinds.
pub open spec fn table_wf<K>(t: Seq<(Identifier, K)>, pool: Seq<Seq<u8>>) -> bool {
    &&& forall|i: int| 0 <= i < t.len() ==> (#[trigger] t[i]).0.valid(pool)
    &&& forall|i: int| 0 <= i < t.len() ==> (#[trigger] t[i]).0.names_ascii(pool)
    &&& forall|i: int| 0 <= i < t.len()
        ==> pool[(#[trigger] t[i]).0.major.0 as int].len() < 0x1_0000_0000_0000_0000
            && pool[t[i].0.minor.0 as int].len() < 0x1_0000_0000_0000_0000
    &&& forall|i: int, j: int| 0 <= i < t.len() && 0 <= j < t.len() && i != j
        ==> (#[trigger] t[i]).0 != (#[trigger] t[j]).0
    &&& forall|i: int, j: int| 0 <= i < t.len() && 0 <= j < t.len() && i != j
        ==> (#[trigger] t[i]).1 != (#[trigger] t[j]).1
}

/// Whether some entry's two names, read in the pool, are exactly these bytes.
pub open spec fn table_contains_names<K>(
    t: Seq<(Identifier, K)>,
    pool: Seq<Seq<u8>>,
    mj: Seq<u8>,
    mn: Seq<u8>,
) -> bool {
    exists|i: int| 0 <= i < t.len() && pool[(#[trigger] t[i]).0.major.0 as int] == mj && pool[
        t[i].0.minor.0 as int
    ] == mn
}

/// When registering a block under these names is owed success: the identifier
/// maps nothing yet (as a block or as an item), and neither the block kind
/// nor its building item is taken.
pub open spec fn spec_block_registrable(
    reg: RegistryV,
    mj: Seq<u8>,
    mn: Seq<u8>,
    kind: BlockKind,
) -> bool {
    &&& !table_contains_names(reg.blocks, reg.pool, mj, mn)
    &&& !table_contains_names(reg.items, reg.pool, mj, mn)
    &&& !table_contains_kind(reg.blocks, kind)
    &&& !table_contains_kind(reg.items, ItemKind::Building(kind))
}

/// When registering an item under these names is owed success.
pub open spec fn spec_item_registrable(
    reg: RegistryV,
    mj: Seq<u8>,
    mn: Seq<u8>,
    kind: ItemKind,
) -> bool {
    &&& !table_contains_names(reg.items, reg.pool, mj, mn)
    &&& !table_contains_kind(reg.items, kind)
}

/// Identifier lookup agrees with name lookup: under pool uniqueness, an
/// identifier whose names are `(mj, mn)` maps an entry exactly when some
/// entry's names are `(mj, mn)`.
proof fn lemma_id_lookup_by_names<K>(
    t: Seq<(Identifier, K)>,
    pool0: Seq<Seq<u8>>,
    pool: Seq<Seq<u8>>,
    id: Identifier,
    mj: Seq<u8>,
    mn: Seq<u8>,
)
    requires
        table_wf(t, pool0),
        pool_unique(pool),
        pool0.len() <= pool.len(),
        forall|i: int| 0 <= i < pool0.len() ==> pool[i] == pool0[i],
        id.valid(pool),
        pool[id.major.0 as int] == mj,
        pool[id.minor.0 as int] == mn,
    ensures
        table_contains_id(t, id) <==> table_contains_names(t, pool0, mj, mn),
{
    if table_contains_id(t, id) {
        let i = choose|i: int| 0 <= i < t.len() && t[i].0 == id;
        assert(t[i].0.valid(pool0));
        assert(pool[t[i].0.major.0 as int] == pool0[t[i].0.major.0 as int]);
        assert(pool[t[i].0.minor.0 as int] == pool0[t[i].0.minor.0 as int]);
        assert(table_contains_names(t, pool0, mj, mn));
    }
    if table_contains_names(t, pool0, mj, mn) {
        let i = choose|i: int|
            0 <= i < t.len() && pool0[(#[trigger] t[i]).0.major.0 as int] == mj && pool0[
                t[i].0.minor.0 as int
            ] == mn;
        assert(t[i].0.valid(pool0));
        assert(pool[t[i].0.major.0 as int] == mj);
        assert(pool[t[i].0.minor.0 as int] == mn);
        assert(t[i].0.major.0 == id.major.0);
        assert(t[i].0.minor.0 == id.minor.0);
        assert(t[i].0 == id);
        assert(table_contains_id(t, id));
    }
}

/// The mathematical content of a registry.
pub ghost struct RegistryV {
    pub pool: Seq<Seq<u8>>,
    pub blocks: Seq<(Identifier, BlockKind)>,
    pub items: Seq<(Identifier, ItemKind)>,
}

/// The registry: the interning pool plus the block and item tables.
pub struct Registry {
    pool: StringPool,
    blocks: Vec<(Identifier, BlockKind)>,
    items: Vec<(Identifier, ItemKind)>,
}

impl View for Registry {
    type V = RegistryV;

    closed spec fn view(&self) -> RegistryV {
        RegistryV { pool: self.pool@, blocks: self.blocks@, items: self.items@ }
    }
}

impl Registry {
    pub open spec fn wf(self) -> bool {
        &&& pool_unique(self@.pool)
        &&& table_wf(self@.blocks, self@.pool)
        &&& table_wf(self@.items, self@.pool)
    }

    pub fn new() -> (r: Self)
        ensures
            r.wf(),
            r@.blocks == Seq::<(Identifier, BlockKind)>::empty(),
            r@.items == Seq::<(Identifier, ItemKind)>::empty(),
    {
        let r = Registry { pool: StringPool::new(), blocks: Vec::new(), items: Vec::new() };
        proof {
            assert(r@.blocks =~= Seq::<(Identifier, BlockKind)>::empty());
            assert(r@.items =~= Seq::<(Identifier, ItemKind)>::empty());
        }
        r
    }

    pub fn pool(&self) -> (r: &StringPool)
        ensures
            r@ == self@.pool,
    {
        &self.pool
    }

    /// The block kind an identifier stands for.
    pub fn get_block_by_id(&self, id: Identifier) -> (r: Option<BlockKind>)
        requires
            self.wf(),
        ensures
            match r {
                Some(k) => table_contains_id(self@.blocks, id)
                    && k == table_kind_of(self@.blocks, id),
                None => !table_contains_id(self@.blocks, id),
            },
    {
        let n = self.blocks.len();
        let mut i: usize = 0;
        while i < n
            invariant
                i <= n,
                self@.blocks.len() == n,
                self.wf(),
                forall|j: int| 0 <= j < i ==> (#[trigger] self@.blocks[j]).0 != id,
            decreases n - i,
        {
            if self.blocks[i].0 == id {
                proof {
                    let t = self@.blocks;
                    assert(table_contains_id(t, id));
                    let w = choose|w: int| 0 <= w < t.len() && t[w].0 == id;
                    assert(w == i);
                }
                return Some(self.blocks[i].1);
            }
            i = i + 1;
        }
        None
    }

    /// The item kind an identifier stands for.
    pub fn get_item_by_id(&self, id: Identifier) -> (r: Option<ItemKind>)
        requires
            self.wf(),
        ensures
            match r {
                Some(k) => table_contains_id(self@.items, id)
                    && k == table_kind_of(self@.items, id),
                None => !table_contains_id(self@.items, id),
            },
    {
        let n = self.items.len();
        let mut i: usize = 0;
        while i < n
            invariant
                i <= n,
                self@.items.len() == n,
                self.wf(),
                forall|j: int| 0 <= j < i ==> (#[trigger] self@.items[j]).0 != id,
            decreases n - i,
        {
            if self.items[i].0 == id {
                proof {
                    let t = self@.items;
                    assert(table_contains_id(t, id));
                    let w = choose|w: int| 0 <= w < t.len() && t[w].0 == id;
                    assert(w == i);
                }
                return Some(self.items[i].1);
            }
            i = i + 1;
        }
        None
    }

    /// The identifier a block kind was registered under.
    pub fn block_id_of_kind(&self, kind: BlockKind) -> (r: Option<Identifier>)
        requires
            self.wf(),
        ensures
            match r {
                Some(id) => table_contains_kind(self@.blocks, kind)
                    && id == table_id_of(self@.blocks, kind),
                None => !table_contains_kind(self@.blocks, kind),
            },
    {
        let n = self.blocks.len();
        let mut i: usize = 0;
        while i < n
            invariant
                i <= n,
                self@.blocks.len() == n,
                self.wf(),
                forall|j: int| 0 <= j < i ==> (#[trigger] self@.blocks[j]).1 != kind,
            decreases n - i,
        {
            if self.blocks[i].1 == kind {
                proof {
                    let t = self@.blocks;
                    assert(table_contains_kind(t, kind));
                    let w = choose|w: int| 0 <= w < t.len() && t[w].1 == kind;
                    assert(w == i);
                }
                return Some(self.blocks[i].0);
            }
            i = i + 1;
        }
        None
    }

    /// The identifier an item kind was registered under.
    pub fn item_id_of_kind(&self, kind: ItemKind) -> (r: Option<Identifier>)
        requires
            self.wf(),
        ensures
            match r {
                Some(id) => table_contains_kind(self@.items, kind)
                    && id == table_id_of(self@.items, kind),
                None => !table_contains_kind(self@.items, kind),
            },
    {
        let n = self.items.len();
        let mut i: usize = 0;
        while i < n
            invariant
                i <= n,
                self@.items.len() == n,
                self.wf(),
                forall|j: int| 0 <= j < i ==> (#[trigger] self@.items[j]).1 != kind,
            decreases n - i,
        {
            if self.items[i].1 == kind {
                proof {
                    let t = self@.items;
                    assert(table_contains_kind(t, kind));
                    let w = choose|w: int| 0 <= w < t.len() && t[w].1 == kind;
                    assert(w == i);
                }
                return Some(self.items[i].0);
            }
            i = i + 1;
        }
        None
    }

    /// Intern both names of an identifier and prove it registrable.
    fn intern_id(&mut self, major: Vec<u8>, minor: Vec<u8>) -> (r: Identifier)
        requires
            old(self).wf(),
            ascii_ok(major@),
            ascii_ok(minor@),
        ensures
            final(self).wf(),
            final(self)@.blocks == old(self)@.blocks,
            final(self)@.items == old(self)@.items,
            r.valid(final(self)@.pool),
            r.names_ascii(final(self)@.pool),
            final(self)@.pool[r.major.0 as int].len() < 0x1_0000_0000_0000_0000,
            final(self)@.pool[r.minor.0 as int].len() < 0x1_0000_0000_0000_0000,
            final(self)@.pool[r.major.0 as int] == major@,
            final(self)@.pool[r.minor.0 as int] == minor@,
            old(self)@.pool.len() <= final(self)@.pool.len(),
            forall|i: int| 0 <= i < old(self)@.pool.len() ==> final(self)@.pool[i] == old(
                self,
            )@.pool[i],
            table_wf(final(self)@.blocks, final(self)@.pool),
            table_wf(final(self)@.items, final(self)@.pool),
    {
        let ghost pool0 = self@.pool;
        let ghost blocks0 = self@.blocks;
        let ghost items0 = self@.items;
        let major_len = major.len();
        let minor_len = minor.len();
        let gm = self.pool.intern(major);
        let ghost pool1 = self.pool@;
        let gn = self.pool.intern(minor);
        proof {
            lemma_pool_grow_preserves_table_wf(blocks0, pool0, pool1);
            lemma_pool_grow_preserves_table_wf(blocks0, pool1, self.pool@);
            lemma_pool_grow_preserves_table_wf(items0, pool0, pool1);
            lemma_pool_grow_preserves_table_wf(items0, pool1, self.pool@);
        }
        Identifier { major: gm, minor: gn }
    }
}

/// Growing the pool by appending entries keeps a table well-formed: existing
/// handles keep their names.
proof fn lemma_pool_grow_preserves_table_wf<K>(
    t: Seq<(Identifier, K)>,
    pool: Seq<Seq<u8>>,
    grown: Seq<Seq<u8>>,
)
    requires
        table_wf(t, pool),
        pool == grown || grown == pool.push(grown.last()),
    ensures
        table_wf(t, grown),
{
    if grown != pool {
        assert forall|i: int| 0 <= i < t.len() implies (#[trigger] t[i]).0.valid(grown)
            && t[i].0.names_ascii(grown)
            && grown[t[i].0.major.0 as int].len() < 0x1_0000_0000_0000_0000
            && grown[t[i].0.minor.0 as int].len() < 0x1_0000_0000_0000_0000 by {
            assert(t[i].0.valid(pool));
            assert(grown[t[i].0.major.0 as int] == pool[t[i].0.major.0 as int]);
            assert(grown[t[i].0.minor.0 as int] == pool[t[i].0.minor.0 as int]);
        }
    }
}


impl Registry {
    /// Register a block kind under a namespaced name, together with its
    /// building item (so the block can exist in an inventory). Refused when a
    /// name is not ASCII or the identifier or kind is already taken; the
    /// registry is unchanged then.
    pub fn register_block(&mut self, major: &str, minor: &str, kind: BlockKind) -> (r: bool)
        requires
            old(self).wf(),
        ensures
            final(self).wf(),
            old(self)@.pool.len() <= final(self)@.pool.len(),
            forall|i: int| 0 <= i < old(self)@.pool.len() ==> final(self)@.pool[i] == old(
                self,
            )@.pool[i],
            r <==> (vstd::string::is_ascii(major) && vstd::string::is_ascii(minor)
                && spec_block_registrable(
                old(self)@,
                major.spec_bytes(),
                minor.spec_bytes(),
                kind,
            )),
            r ==> ({
                let e = final(self)@.blocks.last();
                &&& final(self)@.blocks == old(self)@.blocks.push(e)
                &&& final(self)@.items == old(self)@.items.push((e.0, ItemKind::Building(kind)))
                &&& e.1 == kind
                &&& e.0.valid(final(self)@.pool)
                &&& final(self)@.pool[e.0.major.0 as int] == major.spec_bytes()
                &&& final(self)@.pool[e.0.minor.0 as int] == minor.spec_bytes()
            }),
            !r ==> final(self)@.blocks == old(self)@.blocks && final(self)@.items == old(
                self,
            )@.items,
            r ==> table_contains_kind(final(self)@.blocks, kind),
            r ==> table_contains_kind(final(self)@.items, ItemKind::Building(kind)),
            forall|k: BlockKind| table_contains_kind(old(self)@.blocks, k)
                ==> table_contains_kind(final(self)@.blocks, k),
            forall|k: ItemKind| table_contains_kind(old(self)@.items, k)
                ==> table_contains_kind(final(self)@.items, k),
    {
        let mj = match crate::identifier::name_bytes(major) {
            None => {
                return false;
            },
            Some(v) => v,
        };
        let mn = match crate::identifier::name_bytes(minor) {
            None => {
                return false;
            },
            Some(v) => v,
        };
        let ghost pool0 = self@.pool;
        let ghost blocks0 = self@.blocks;
        let ghost items0 = self@.items;
        let id = self.intern_id(mj, mn);
        proof {
            lemma_id_lookup_by_names(
                blocks0,
                pool0,
                self@.pool,
                id,
                major.spec_bytes(),
                minor.spec_bytes(),
            );
            lemma_id_lookup_by_names(
                items0,
                pool0,
                self@.pool,
                id,
                major.spec_bytes(),
                minor.spec_bytes(),
            );
        }
        if self.get_block_by_id(id).is_some() || self.get_item_by_id(id).is_some() {
            return false;
        }
        if self.block_id_of_kind(kind).is_some() {
            return false;
        }
        if self.item_id_of_kind(ItemKind::Building(kind)).is_some() {
            return false;
        }
        self.blocks.push((id, kind));
        self.items.push((id, ItemKind::Building(kind)));
        proof {
            let bt = self@.blocks;
            let it = self@.items;
            assert(bt =~= blocks0.push((id, kind)));
            assert(it =~= items0.push((id, ItemKind::Building(kind))));
            assert(bt[bt.len() - 1] == (id, kind));
            assert(table_contains_kind(bt, kind));
            assert(it[it.len() - 1] == (id, ItemKind::Building(kind)));
            assert(table_contains_kind(it, ItemKind::Building(kind)));
            lemma_table_push_preserves_kinds(blocks0, (id, kind));
            lemma_table_push_preserves_kinds(items0, (id, ItemKind::Building(kind)));
        }
        true
    }

    /// Register a plain resource item kind. Same refusal rules as
    /// `register_block`.
    pub fn register_item(&mut self, major: &str, minor: &str, kind: ItemKind) -> (r: bool)
        requires
            old(self).wf(),
        ensures
            final(self).wf(),
            old(self)@.pool.len() <= final(self)@.pool.len(),
            forall|i: int| 0 <= i < old(self)@.pool.len() ==> final(self)@.pool[i] == old(
                self,
            )@.pool[i],
            r <==> (vstd::string::is_ascii(major) && vstd::string::is_ascii(minor)
                && spec_item_registrable(
                old(self)@,
                major.spec_bytes(),
                minor.spec_bytes(),
                kind,
            )),
            r ==> ({
                let e = final(self)@.items.last();
                &&& final(self)@.items == old(self)@.items.push(e)
                &&& e.1 == kind
                &&& e.0.valid(final(self)@.pool)
                &&& final(self)@.pool[e.0.major.0 as int] == major.spec_bytes()
                &&& final(self)@.pool[e.0.minor.0 as int] == minor.spec_bytes()
            }),
            !r ==> final(self)@.items == old(self)@.items,
            r ==> table_contains_kind(final(self)@.items, kind),
            final(self)@.blocks == old(self)@.blocks,
            forall|k: ItemKind| table_contains_kind(old(self)@.items, k)
                ==> table_contains_kind(final(self)@.items, k),
    {
        let mj = match crate::identifier::name_bytes(major) {
            None => {
                return false;
            },
            Some(v) => v,
        };
        let mn = match crate::identifier::name_bytes(minor) {
            None => {
                return false;
            },
            Some(v) => v,
        };
        let ghost pool0 = self@.pool;
        let ghost items0 = self@.items;
        let id = self.intern_id(mj, mn);
        proof {
            lemma_id_lookup_by_names(
                items0,
                pool0,
                self@.pool,
                id,
                major.spec_bytes(),
                minor.spec_bytes(),
            );
        }
        if self.get_item_by_id(id).is_some() {
            return false;
        }
        if self.item_id_of_kind(kind).is_some() {
            return false;
        }
        self.items.push((id, kind));
        proof {
            let it = self@.items;
            assert(it =~= items0.push((id, kind)));
            assert(it[it.len() - 1] == (id, kind));
            assert(table_contains_kind(it, kind));
            lemma_table_push_preserves_kinds(items0, (id, kind));
        }
        true
    }
}

proof fn lemma_table_push_preserves_kinds<K>(t: Seq<(Identifier, K)>, e: (Identifier, K))
    ensures
        forall|k: K| table_contains_kind(t, k) ==> table_contains_kind(t.push(e), k),
{
    assert forall|k: K| table_contains_kind(t, k) implies table_contains_kind(t.push(e), k) by {
        let i = choose|i: int| 0 <= i < t.len() && t[i].1 == k;
        assert(t.push(e)[i] == t[i]);
        assert(table_contains_kind(t.push(e), k));
    }
}

/// The table holds exactly the entries registered, in order, under namespace
/// `ns` with key names `minors` and kinds `kinds`.
spec fn spec_table_shape<K>(
    t: Seq<(Identifier, K)>,
    pool: Seq<Seq<u8>>,
    ns: Seq<u8>,
    minors: Seq<Seq<u8>>,
    kinds: Seq<K>,
) -> bool {
    &&& t.len() == minors.len()
    &&& t.len() == kinds.len()
    &&& forall|j: int| 0 <= j < t.len() ==> pool[(#[trigger] t[j]).0.major.0 as int] == ns
        && pool[t[j].0.minor.0 as int] == minors[j] && t[j].1 == kinds[j]
}

/// A shape survives growing the pool (existing handles keep their names).
proof fn lemma_shape_pool_extend<K>(
    t: Seq<(Identifier, K)>,
    pool0: Seq<Seq<u8>>,
    pool: Seq<Seq<u8>>,
    ns: Seq<u8>,
    minors: Seq<Seq<u8>>,
    kinds: Seq<K>,
)
    requires
        spec_table_shape(t, pool0, ns, minors, kinds),
        table_wf(t, pool0),
        pool0.len() <= pool.len(),
        forall|i: int| 0 <= i < pool0.len() ==> pool[i] == pool0[i],
    ensures
        spec_table_shape(t, pool, ns, minors, kinds),
{
    assert forall|j: int| 0 <= j < t.len() implies pool[(#[trigger] t[j]).0.major.0 as int] == ns
        && pool[t[j].0.minor.0 as int] == minors[j] && t[j].1 == kinds[j] by {
        assert(t[j].0.valid(pool0));
    }
}

/// A shape extends by one pushed entry.
proof fn lemma_shape_push<K>(
    t: Seq<(Identifier, K)>,
    pool0: Seq<Seq<u8>>,
    pool: Seq<Seq<u8>>,
    ns: Seq<u8>,
    minors: Seq<Seq<u8>>,
    kinds: Seq<K>,
    e: (Identifier, K),
    mn: Seq<u8>,
)
    requires
        spec_table_shape(t, pool0, ns, minors, kinds),
        table_wf(t, pool0),
        pool0.len() <= pool.len(),
        forall|i: int| 0 <= i < pool0.len() ==> pool[i] == pool0[i],
        pool[e.0.major.0 as int] == ns,
        pool[e.0.minor.0 as int] == mn,
    ensures
        spec_table_shape(t.push(e), pool, ns, minors.push(mn), kinds.push(e.1)),
{
    lemma_shape_pool_extend(t, pool0, pool, ns, minors, kinds);
    let t2 = t.push(e);
    assert forall|j: int| 0 <= j < t2.len() implies pool[(#[trigger] t2[j]).0.major.0 as int] == ns
        && pool[t2[j].0.minor.0 as int] == minors.push(mn)[j] && t2[j].1 == kinds.push(e.1)[j] by {
        if j < t.len() {
            assert(t2[j] == t[j]);
        }
    }
}

/// No entry of a shaped table is named with a key outside its list.
proof fn lemma_shape_names_not_taken<K>(
    t: Seq<(Identifier, K)>,
    pool: Seq<Seq<u8>>,
    ns: Seq<u8>,
    minors: Seq<Seq<u8>>,
    kinds: Seq<K>,
    mn: Seq<u8>,
)
    requires
        spec_table_shape(t, pool, ns, minors, kinds),
        forall|j: int| 0 <= j < minors.len() ==> minors[j] != mn,
    ensures
        !table_contains_names(t, pool, ns, mn),
{
    if table_contains_names(t, pool, ns, mn) {
        let j = choose|j: int|
            0 <= j < t.len() && pool[(#[trigger] t[j]).0.major.0 as int] == ns && pool[
                t[j].0.minor.0 as int
            ] == mn;
        assert(minors[j] == mn);
    }
}

/// No entry of a shaped table has a kind outside its list.
proof fn lemma_shape_kind_not_taken<K>(
    t: Seq<(Identifier, K)>,
    pool: Seq<Seq<u8>>,
    ns: Seq<u8>,
    minors: Seq<Seq<u8>>,
    kinds: Seq<K>,
    k: K,
)
    requires
        spec_table_shape(t, pool, ns, minors, kinds),
        forall|j: int| 0 <= j < kinds.len() ==> kinds[j] != k,
    ensures
        !table_contains_kind(t, k),
{
    if table_contains_kind(t, k) {
        let j = choose|j: int| 0 <= j < t.len() && (#[trigger] t[j]).1 == k;
        assert(kinds[j] == k);
    }
}

/// The standard registration names are ASCII, with the byte lengths (and,
/// for the two equal-length key names, the leading bytes) that tell them all
/// apart.
proof fn lemma_standard_name_facts()
    ensures
        vstd::string::is_ascii("placeholder_name_2"),
        vstd::string::is_ascii("empty"),
        vstd::string::is_ascii("resource_node_brown"),
        vstd::string::is_ascii("storage_container"),
        vstd::string::is_ascii("extractor"),
        vstd::string::is_ascii("conveyor_mk1"),
        vstd::string::is_ascii("conveyor_splitter"),
        vstd::string::is_ascii("tunnel mk 1"),
        vstd::string::is_ascii("coal"),
        "placeholder_name_2".spec_bytes().len() == 18,
        "empty".spec_bytes().len() == 5,
        "resource_node_brown".spec_bytes().len() == 19,
        "storage_container".spec_bytes().len() == 17,
        "extractor".spec_bytes().len() == 9,
        "conveyor_mk1".spec_bytes().len() == 12,
        "conveyor_splitter".spec_bytes().len() == 17,
        "tunnel mk 1".spec_bytes().len() == 11,
        "coal".spec_bytes().len() == 4,
        "storage_container".spec_bytes()[0] == 115,
        "conveyor_splitter".spec_bytes()[0] == 99,
{
    broadcast use vstd::string::group_string_axioms;

    reveal_strlit("placeholder_name_2");
    reveal_strlit("empty");
    reveal_strlit("resource_node_brown");
    reveal_strlit("storage_container");
    reveal_strlit("extractor");
    reveal_strlit("conveyor_mk1");
    reveal_strlit("conveyor_splitter");
    reveal_strlit("tunnel mk 1");
    reveal_strlit("coal");
    assert(vstd::utf8::is_ascii_chars("placeholder_name_2"@)) by {
        assert forall|i: int| 0 <= i < "placeholder_name_2"@.len() implies '\0' <= #[trigger] "placeholder_name_2"@[i]
            <= '\u{7f}' by {
            if i == 0 {
                assert("placeholder_name_2"@[0] == 'p');
            } else if i == 1 {
                assert("placeholder_name_2"@[1] == 'l');
            } else if i == 2 {
                assert("placeholder_name_2"@[2] == 'a');
            } else if i == 3 {
                assert("placeholder_name_2"@[3] == 'c');
            } else if i == 4 {
                assert("placeholder_name_2"@[4] == 'e');
            } else if i == 5 {
                assert("placeholder_name_2"@[5] == 'h');
            } else if i == 6 {
                assert("placeholder_name_2"@[6] == 'o');
            } else if i == 7 {
                assert("placeholder_name_2"@[7] == 'l');
            } else if i == 8 {
                assert("placeholder_name_2"@[8] == 'd');
            } else if i == 9 {
                assert("placeholder_name_2"@[9] == 'e');
            } else if i == 10 {
                assert("placeholder_name_2"@[10] == 'r');
            } else if i == 11 {
                assert("placeholder_name_2"@[11] == '_');
            } else if i == 12 {
                assert("placeholder_name_2"@[12] == 'n');
            } else if i == 13 {
                assert("placeholder_name_2"@[13] == 'a');
            } else if i == 14 {
                assert("placeholder_name_2"@[14] == 'm');
            } else if i == 15 {
                assert("placeholder_name_2"@[15] == 'e');
            } else if i == 16 {
                assert("placeholder_name_2"@[16] == '_');
            } else if i == 17 {
                assert("placeholder_name_2"@[17] == '2');
            }
        }
    }
    assert(vstd::utf8::is_ascii_chars("empty"@)) by {
        assert forall|i: int| 0 <= i < "empty"@.len() implies '\0' <= #[trigger] "empty"@[i]
            <= '\u{7f}' by {
            if i == 0 {
                assert("empty"@[0] == 'e');
            } else if i == 1 {
                assert("empty"@[1] == 'm');
            } else if i == 2 {
                assert("empty"@[2] == 'p');
            } else if i == 3 {
                assert("empty"@[3] == 't');
            } else if i == 4 {
                assert("empty"@[4] == 'y');
            }
        }
    }
    assert(vstd::utf8::is_ascii_chars("resource_node_brown"@)) by {
        assert forall|i: int| 0 <= i < "resource_node_brown"@.len() implies '\0' <= #[trigger] "resource_node_brown"@[i]
            <= '\u{7f}' by {
            if i == 0 {
                assert("resource_node_brown"@[0] == 'r');
            } else if i == 1 {
                assert("resource_node_brown"@[1] == 'e');
            } else if i == 2 {
                assert("resource_node_brown"@[2] == 's');
            } else if i == 3 {
                assert("resource_node_brown"@[3] == 'o');
            } else if i == 4 {
                assert("resource_node_brown"@[4] == 'u');
            } else if i == 5 {
                assert("resource_node_brown"@[5] == 'r');
            } else if i == 6 {
                assert("resource_node_brown"@[6] == 'c');
            } else if i == 7 {
                assert("resource_node_brown"@[7] == 'e');
            } else if i == 8 {
                assert("resource_node_brown"@[8] == '_');
            } else if i == 9 {
                assert("resource_node_brown"@[9] == 'n');
            } else if i == 10 {
                assert("resource_node_brown"@[10] == 'o');
            } else if i == 11 {
                assert("resource_node_brown"@[11] == 'd');
            } else if i == 12 {
                assert("resource_node_brown"@[12] == 'e');
            } else if i == 13 {
                assert("resource_node_brown"@[13] == '_');
            } else if i == 14 {
                assert("resource_node_brown"@[14] == 'b');
            } else if i == 15 {
                assert("resource_node_brown"@[15] == 'r');
            } else if i == 16 {
                assert("resource_node_brown"@[16] == 'o');
            } else if i == 17 {
                assert("resource_node_brown"@[17] == 'w');
            } else if i == 18 {
                assert("resource_node_brown"@[18] == 'n');
            }
        }
    }
    assert(vstd::utf8::is_ascii_chars("storage_container"@)) by {
        assert forall|i: int| 0 <= i < "storage_container"@.len() implies '\0' <= #[trigger] "storage_container"@[i]
            <= '\u{7f}' by {
            if i == 0 {
                assert("storage_container"@[0] == 's');
            } else if i == 1 {
                assert("storage_container"@[1] == 't');
            } else if i == 2 {
                assert("storage_container"@[2] == 'o');
            } else if i == 3 {
                assert("storage_container"@[3] == 'r');
            } else if i == 4 {
                assert("storage_container"@[4] == 'a');
            } else if i == 5 {
                assert("storage_container"@[5] == 'g');
            } else if i == 6 {
                assert("storage_container"@[6] == 'e');
            } else if i == 7 {
                assert("storage_container"@[7] == '_');
            } else if i == 8 {
                assert("storage_container"@[8] == 'c');
            } else if i == 9 {
                assert("storage_container"@[9] == 'o');
            } else if i == 10 {
                assert("storage_container"@[10] == 'n');
            } else if i == 11 {
                assert("storage_container"@[11] == 't');
            } else if i == 12 {
                assert("storage_container"@[12] == 'a');
            } else if i == 13 {
                assert("storage_container"@[13] == 'i');
            } else if i == 14 {
                assert("storage_container"@[14] == 'n');
            } else if i == 15 {
                assert("storage_container"@[15] == 'e');
            } else if i == 16 {
                assert("storage_container"@[16] == 'r');
            }
        }
    }
    assert(vstd::utf8::is_ascii_chars("extractor"@)) by {
        assert forall|i: int| 0 <= i < "extractor"@.len() implies '\0' <= #[trigger] "extractor"@[i]
            <= '\u{7f}' by {
            if i == 0 {
                assert("extractor"@[0] == 'e');
            } else if i == 1 {
                assert("extractor"@[1] == 'x');
            } else if i == 2 {
                assert("extractor"@[2] == 't');
            } else if i == 3 {
                assert("extractor"@[3] == 'r');
            } else if i == 4 {
                assert("extractor"@[4] == 'a');
            } else if i == 5 {
                assert("extractor"@[5] == 'c');
            } else if i == 6 {
                assert("extractor"@[6] == 't');
            } else if i == 7 {
                assert("extractor"@[7] == 'o');
            } else if i == 8 {
                assert("extractor"@[8] == 'r');
            }
        }
    }
    assert(vstd::utf8::is_ascii_chars("conveyor_mk1"@)) by {
        assert forall|i: int| 0 <= i < "conveyor_mk1"@.len() implies '\0' <= #[trigger] "conveyor_mk1"@[i]
            <= '\u{7f}' by {
            if i == 0 {
                assert("conveyor_mk1"@[0] == 'c');
            } else if i == 1 {
                assert("conveyor_mk1"@[1] == 'o');
            } else if i == 2 {
                assert("conveyor_mk1"@[2] == 'n');
            } else if i == 3 {
                assert("conveyor_mk1"@[3] == 'v');
            } else if i == 4 {
                assert("conveyor_mk1"@[4] == 'e');
            } else if i == 5 {
                assert("conveyor_mk1"@[5] == 'y');
            } else if i == 6 {
                assert("conveyor_mk1"@[6] == 'o');
            } else if i == 7 {
                assert("conveyor_mk1"@[7] == 'r');
            } else if i == 8 {
                assert("conveyor_mk1"@[8] == '_');
            } else if i == 9 {
                assert("conveyor_mk1"@[9] == 'm');
            } else if i == 10 {
                assert("conveyor_mk1"@[10] == 'k');
            } else if i == 11 {
                assert("conveyor_mk1"@[11] == '1');
            }
        }
    }
    assert(vstd::utf8::is_ascii_chars("conveyor_splitter"@)) by {
        assert forall|i: int| 0 <= i < "conveyor_splitter"@.len() implies '\0' <= #[trigger] "conveyor_splitter"@[i]
            <= '\u{7f}' by {
            if i == 0 {
                assert("conveyor_splitter"@[0] == 'c');
            } else if i == 1 {
                assert("conveyor_splitter"@[1] == 'o');
            } else if i == 2 {
                assert("conveyor_splitter"@[2] == 'n');
            } else if i == 3 {
                assert("conveyor_splitter"@[3] == 'v');
            } else if i == 4 {
                assert("conveyor_splitter"@[4] == 'e');
            } else if i == 5 {
                assert("conveyor_splitter"@[5] == 'y');
            } else if i == 6 {
                assert("conveyor_splitter"@[6] == 'o');
            } else if i == 7 {
                assert("conveyor_splitter"@[7] == 'r');
            } else if i == 8 {
                assert("conveyor_splitter"@[8] == '_');
            } else if i == 9 {
                assert("conveyor_splitter"@[9] == 's');
            } else if i == 10 {
                assert("conveyor_splitter"@[10] == 'p');
            } else if i == 11 {
                assert("conveyor_splitter"@[11] == 'l');
            } else if i == 12 {
                assert("conveyor_splitter"@[12] == 'i');
            } else if i == 13 {
                assert("conveyor_splitter"@[13] == 't');
            } else if i == 14 {
                assert("conveyor_splitter"@[14] == 't');
            } else if i == 15 {
                assert("conveyor_splitter"@[15] == 'e');
            } else if i == 16 {
                assert("conveyor_splitter"@[16] == 'r');
            }
        }
    }
    assert(vstd::utf8::is_ascii_chars("tunnel mk 1"@)) by {
        assert forall|i: int| 0 <= i < "tunnel mk 1"@.len() implies '\0' <= #[trigger] "tunnel mk 1"@[i]
            <= '\u{7f}' by {
            if i == 0 {
                assert("tunnel mk 1"@[0] == 't');
            } else if i == 1 {
                assert("tunnel mk 1"@[1] == 'u');
            } else if i == 2 {
                assert("tunnel mk 1"@[2] == 'n');
            } else if i == 3 {
                assert("tunnel mk 1"@[3] == 'n');
            } else if i == 4 {
                assert("tunnel mk 1"@[4] == 'e');
            } else if i == 5 {
                assert("tunnel mk 1"@[5] == 'l');
            } else if i == 6 {
                assert("tunnel mk 1"@[6] == ' ');
            } else if i == 7 {
                assert("tunnel mk 1"@[7] == 'm');
            } else if i == 8 {
                assert("tunnel mk 1"@[8] == 'k');
            } else if i == 9 {
                assert("tunnel mk 1"@[9] == ' ');
            } else if i == 10 {
                assert("tunnel mk 1"@[10] == '1');
            }
        }
    }
    assert(vstd::utf8::is_ascii_chars("coal"@)) by {
        assert forall|i: int| 0 <= i < "coal"@.len() implies '\0' <= #[trigger] "coal"@[i]
            <= '\u{7f}' by {
            if i == 0 {
                assert("coal"@[0] == 'c');
            } else if i == 1 {
                assert("coal"@[1] == 'o');
            } else if i == 2 {
                assert("coal"@[2] == 'a');
            } else if i == 3 {
                assert("coal"@[3] == 'l');
            }
        }
    }
    assert(vstd::string::is_ascii("placeholder_name_2"));
    assert("placeholder_name_2"@.len() == 18);
    assert("placeholder_name_2".spec_bytes() =~= Seq::new("placeholder_name_2"@.len(), |i: int| "placeholder_name_2"@.index(i) as u8));
    assert("placeholder_name_2".spec_bytes().len() == 18);
    assert(vstd::string::is_ascii("empty"));
    assert("empty"@.len() == 5);
    assert("empty".spec_bytes() =~= Seq::new("empty"@.len(), |i: int| "empty"@.index(i) as u8));
    assert("empty".spec_bytes().len() == 5);
    assert(vstd::string::is_ascii("resource_node_brown"));
    assert("resource_node_brown"@.len() == 19);
    assert("resource_node_brown".spec_bytes() =~= Seq::new("resource_node_brown"@.len(), |i: int| "resource_node_brown"@.index(i) as u8));
    assert("resource_node_brown".spec_bytes().len() == 19);
    assert(vstd::string::is_ascii("storage_container"));
    assert("storage_container"@.len() == 17);
    assert("storage_container".spec_bytes() =~= Seq::new("storage_container"@.len(), |i: int| "storage_container"@.index(i) as u8));
    assert("storage_container".spec_bytes().len() == 17);
    assert(vstd::string::is_ascii("extractor"));
    assert("extractor"@.len() == 9);
    assert("extractor".spec_bytes() =~= Seq::new("extractor"@.len(), |i: int| "extractor"@.index(i) as u8));
    assert("extractor".spec_bytes().len() == 9);
    assert(vstd::string::is_ascii("conveyor_mk1"));
    assert("conveyor_mk1"@.len() == 12);
    assert("conveyor_mk1".spec_bytes() =~= Seq::new("conveyor_mk1"@.len(), |i: int| "conveyor_mk1"@.index(i) as u8));
    assert("conveyor_mk1".spec_bytes().len() == 12);
    assert(vstd::string::is_ascii("conveyor_splitter"));
    assert("conveyor_splitter"@.len() == 17);
    assert("conveyor_splitter".spec_bytes() =~= Seq::new("conveyor_splitter"@.len(), |i: int| "conveyor_splitter"@.index(i) as u8));
    assert("conveyor_splitter".spec_bytes().len() == 17);
    assert(vstd::string::is_ascii("tunnel mk 1"));
    assert("tunnel mk 1"@.len() == 11);
    assert("tunnel mk 1".spec_bytes() =~= Seq::new("tunnel mk 1"@.len(), |i: int| "tunnel mk 1"@.index(i) as u8));
    assert("tunnel mk 1".spec_bytes().len() == 11);
    assert(vstd::string::is_ascii("coal"));
    assert("coal"@.len() == 4);
    assert("coal".spec_bytes() =~= Seq::new("coal"@.len(), |i: int| "coal"@.index(i) as u8));
    assert("coal".spec_bytes().len() == 4);
    assert("storage_container".spec_bytes()[0] == 's' as u8);
    assert("conveyor_splitter".spec_bytes()[0] == 'c' as u8);
}

/// Register the standard set: every block kind of the simulation plus the
/// coal resource. Returns whether every registration succeeded; starting from
/// an empty registry (as at startup) it always does, leaving exactly the
/// seven block kinds with their building items plus the coal item registered.
#[verifier::rlimit(100)]
pub fn register_blocks(reg: &mut Registry) -> (r: bool)
    requires
        old(reg).wf(),
    ensures
        final(reg).wf(),
        (old(reg)@.blocks == Seq::<(Identifier, BlockKind)>::empty() && old(reg)@.items
            == Seq::<(Identifier, ItemKind)>::empty()) ==> r && final(reg)@.blocks.len() == 7
            && final(reg)@.items.len() == 8,
        r ==> table_contains_kind(final(reg)@.blocks, BlockKind::Empty),
        r ==> table_contains_kind(final(reg)@.blocks, BlockKind::ResourceNodeBrown),
        r ==> table_contains_kind(final(reg)@.blocks, BlockKind::StorageContainer),
        r ==> table_contains_kind(final(reg)@.blocks, BlockKind::Extractor),
        r ==> table_contains_kind(final(reg)@.blocks, BlockKind::Conveyor),
        r ==> table_contains_kind(final(reg)@.blocks, BlockKind::Splitter),
        r ==> table_contains_kind(final(reg)@.blocks, BlockKind::Tunnel),
        r ==> table_contains_kind(final(reg)@.items, ItemKind::Resource),
{
    let ghost g0 = reg@;
    let r1 = reg.register_block(
        "placeholder_name_2",
        "empty",
        BlockKind::Empty,
    );
    let ghost g1 = reg@;
    let r2 = reg.register_block(
        "placeholder_name_2",
        "resource_node_brown",
        BlockKind::ResourceNodeBrown,
    );
    let ghost g2 = reg@;
    let r3 = reg.register_block(
        "placeholder_name_2",
        "storage_container",
        BlockKind::StorageContainer,
    );
    let ghost g3 = reg@;
    let r4 = reg.register_block(
        "placeholder_name_2",
        "extractor",
        BlockKind::Extractor,
    );
    let ghost g4 = reg@;
    let r5 = reg.register_block(
        "placeholder_name_2",
        "conveyor_mk1",
        BlockKind::Conveyor,
    );
    let ghost g5 = reg@;
    let r6 = reg.register_block(
        "placeholder_name_2",
        "conveyor_splitter",
        BlockKind::Splitter,
    );
    let ghost g6 = reg@;
    let r7 = reg.register_block(
        "placeholder_name_2",
        "tunnel mk 1",
        BlockKind::Tunnel,
    );
    let ghost g7 = reg@;
    let r8 = reg.register_item("placeholder_name_2", "coal", ItemKind::Resource);
    let ghost g8 = reg@;
    proof {
        if g0.blocks == Seq::<(Identifier, BlockKind)>::empty() && g0.items == Seq::<(
            Identifier,
            ItemKind,
        )>::empty() {
            lemma_standard_name_facts();
            let ns = "placeholder_name_2".spec_bytes();
            let b1 = "empty".spec_bytes();
            let b2 = "resource_node_brown".spec_bytes();
            let b3 = "storage_container".spec_bytes();
            let b4 = "extractor".spec_bytes();
            let b5 = "conveyor_mk1".spec_bytes();
            let b6 = "conveyor_splitter".spec_bytes();
            let b7 = "tunnel mk 1".spec_bytes();
            let b8 = "coal".spec_bytes();
            let m0 = Seq::<Seq<u8>>::empty();
            let bk0 = Seq::<BlockKind>::empty();
            let ik0 = Seq::<ItemKind>::empty();
            assert(spec_table_shape(g0.blocks, g0.pool, ns, m0, bk0));
            assert(spec_table_shape(g0.items, g0.pool, ns, m0, ik0));
            // registration 1: name and kind are fresh, so it is owed success
            assert forall|j: int| 0 <= j < m0.len() implies #[trigger] m0[j] != b1 by {
            }
            assert forall|j: int| 0 <= j < bk0.len() implies #[trigger] bk0[j] != BlockKind::Empty by {
            }
            assert forall|j: int| 0 <= j < ik0.len() implies #[trigger] ik0[j] != ItemKind::Building(BlockKind::Empty) by {
            }
            lemma_shape_names_not_taken(g0.blocks, g0.pool, ns, m0, bk0, b1);
            lemma_shape_names_not_taken(g0.items, g0.pool, ns, m0, ik0, b1);
            lemma_shape_kind_not_taken(g0.blocks, g0.pool, ns, m0, bk0, BlockKind::Empty);
            lemma_shape_kind_not_taken(g0.items, g0.pool, ns, m0, ik0, ItemKind::Building(BlockKind::Empty));
            assert(r1);
            let e1 = g1.blocks.last();
            lemma_shape_push(g0.blocks, g0.pool, g1.pool, ns, m0, bk0, e1, b1);
            lemma_shape_push(g0.items, g0.pool, g1.pool, ns, m0, ik0, (e1.0, ItemKind::Building(BlockKind::Empty)), b1);
            let m1 = m0.push(b1);
            let bk1 = bk0.push(BlockKind::Empty);
            let ik1 = ik0.push(ItemKind::Building(BlockKind::Empty));
            assert(spec_table_shape(g1.blocks, g1.pool, ns, m1, bk1));
            assert(spec_table_shape(g1.items, g1.pool, ns, m1, ik1));
            // registration 2: name and kind are fresh, so it is owed success
            assert forall|j: int| 0 <= j < m1.len() implies #[trigger] m1[j] != b2 by {
                if j == 0 {
                    assert(m1[0] == b1);
                }
            }
            assert forall|j: int| 0 <= j < bk1.len() implies #[trigger] bk1[j] != BlockKind::ResourceNodeBrown by {
                if j == 0 {
                    assert(bk1[0] == BlockKind::Empty);
                }
            }
            assert forall|j: int| 0 <= j < ik1.len() implies #[trigger] ik1[j] != ItemKind::Building(BlockKind::ResourceNodeBrown) by {
                if j == 0 {
                    assert(ik1[0] == ItemKind::Building(BlockKind::Empty));
                }
            }
            lemma_shape_names_not_taken(g1.blocks, g1.pool, ns, m1, bk1, b2);
            lemma_shape_names_not_taken(g1.items, g1.pool, ns, m1, ik1, b2);
            lemma_shape_kind_not_taken(g1.blocks, g1.pool, ns, m1, bk1, BlockKind::ResourceNodeBrown);
            lemma_shape_kind_not_taken(g1.items, g1.pool, ns, m1, ik1, ItemKind::Building(BlockKind::ResourceNodeBrown));
            assert(r2);
            let e2 = g2.blocks.last();
            lemma_shape_push(g1.blocks, g1.pool, g2.pool, ns, m1, bk1, e2, b2);
            lemma_shape_push(g1.items, g1.pool, g2.pool, ns, m1, ik1, (e2.0, ItemKind::Building(BlockKind::ResourceNodeBrown)), b2);
            let m2 = m1.push(b2);
            let bk2 = bk1.push(BlockKind::ResourceNodeBrown);
            let ik2 = ik1.push(ItemKind::Building(BlockKind::ResourceNodeBrown));
            assert(spec_table_shape(g2.blocks, g2.pool, ns, m2, bk2));
            assert(spec_table_shape(g2.items, g2.pool, ns, m2, ik2));
            // registration 3: name and kind are fresh, so it is owed success
            assert forall|j: int| 0 <= j < m2.len() implies #[trigger] m2[j] != b3 by {
                if j == 0 {
                    assert(m2[0] == b1);
                } else if j == 1 {
                    assert(m2[1] == b2);
                }
            }
            assert forall|j: int| 0 <= j < bk2.len() implies #[trigger] bk2[j] != BlockKind::StorageContainer by {
                if j == 0 {
                    assert(bk2[0] == BlockKind::Empty);
                } else if j == 1 {
                    assert(bk2[1] == BlockKind::ResourceNodeBrown);
                }
            }
            assert forall|j: int| 0 <= j < ik2.len() implies #[trigger] ik2[j] != ItemKind::Building(BlockKind::StorageContainer) by {
                if j == 0 {
                    assert(ik2[0] == ItemKind::Building(BlockKind::Empty));
                } else if j == 1 {
                    assert(ik2[1] == ItemKind::Building(BlockKind::ResourceNodeBrown));
                }
            }
            lemma_shape_names_not_taken(g2.blocks, g2.pool, ns, m2, bk2, b3);
            lemma_shape_names_not_taken(g2.items, g2.pool, ns, m2, ik2, b3);
            lemma_shape_kind_not_taken(g2.blocks, g2.pool, ns, m2, bk2, BlockKind::StorageContainer);
            lemma_shape_kind_not_taken(g2.items, g2.pool, ns, m2, ik2, ItemKind::Building(BlockKind::StorageContainer));
            assert(r3);
            let e3 = g3.blocks.last();
            lemma_shape_push(g2.blocks, g2.pool, g3.pool, ns, m2, bk2, e3, b3);
            lemma_shape_push(g2.items, g2.pool, g3.pool, ns, m2, ik2, (e3.0, ItemKind::Building(BlockKind::StorageContainer)), b3);
            let m3 = m2.push(b3);
            let bk3 = bk2.push(BlockKind::StorageContainer);
            let ik3 = ik2.push(ItemKind::Building(BlockKind::StorageContainer));
            assert(spec_table_shape(g3.blocks, g3.pool, ns, m3, bk3));
            assert(spec_table_shape(g3.items, g3.pool, ns, m3, ik3));
            // registration 4: name and kind are fresh, so it is owed success
            assert forall|j: int| 0 <= j < m3.len() implies #[trigger] m3[j] != b4 by {
                if j == 0 {
                    assert(m3[0] == b1);
                } else if j == 1 {
                    assert(m3[1] == b2);
                } else if j == 2 {
                    assert(m3[2] == b3);
                }
            }
            assert forall|j: int| 0 <= j < bk3.len() implies #[trigger] bk3[j] != BlockKind::Extractor by {
                if j == 0 {
                    assert(bk3[0] == BlockKind::Empty);
                } else if j == 1 {
                    assert(bk3[1] == BlockKind::ResourceNodeBrown);
                } else if j == 2 {
                    assert(bk3[2] == BlockKind::StorageContainer);
                }
            }
            assert forall|j: int| 0 <= j < ik3.len() implies #[trigger] ik3[j] != ItemKind::Building(BlockKind::Extractor) by {
                if j == 0 {
                    assert(ik3[0] == ItemKind::Building(BlockKind::Empty));
                } else if j == 1 {
                    assert(ik3[1] == ItemKind::Building(BlockKind::ResourceNodeBrown));
                } else if j == 2 {
                    assert(ik3[2] == ItemKind::Building(BlockKind::StorageContainer));
                }
            }
            lemma_shape_names_not_taken(g3.blocks, g3.pool, ns, m3, bk3, b4);
            lemma_shape_names_not_taken(g3.items, g3.pool, ns, m3, ik3, b4);
            lemma_shape_kind_not_taken(g3.blocks, g3.pool, ns, m3, bk3, BlockKind::Extractor);
            lemma_shape_kind_not_taken(g3.items, g3.pool, ns, m3, ik3, ItemKind::Building(BlockKind::Extractor));
            assert(r4);
            let e4 = g4.blocks.last();
            lemma_shape_push(g3.blocks, g3.pool, g4.pool, ns, m3, bk3, e4, b4);
            lemma_shape_push(g3.items, g3.pool, g4.pool, ns, m3, ik3, (e4.0, ItemKind::Building(BlockKind::Extractor)), b4);
            let m4 = m3.push(b4);
            let bk4 = bk3.push(BlockKind::Extractor);
            let ik4 = ik3.push(ItemKind::Building(BlockKind::Extractor));
            assert(spec_table_shape(g4.blocks, g4.pool, ns, m4, bk4));
            assert(spec_table_shape(g4.items, g4.pool, ns, m4, ik4));
            // registration 5: name and kind are fresh, so it is owed success
            assert forall|j: int| 0 <= j < m4.len() implies #[trigger] m4[j] != b5 by {
                if j == 0 {
                    assert(m4[0] == b1);
                } else if j == 1 {
                    assert(m4[1] == b2);
                } else if j == 2 {
                    assert(m4[2] == b3);
                } else if j == 3 {
                    assert(m4[3] == b4);
                }
            }
            assert forall|j: int| 0 <= j < bk4.len() implies #[trigger] bk4[j] != BlockKind::Conveyor by {
                if j == 0 {
                    assert(bk4[0] == BlockKind::Empty);
                } else if j == 1 {
                    assert(bk4[1] == BlockKind::ResourceNodeBrown);
                } else if j == 2 {
                    assert(bk4[2] == BlockKind::StorageContainer);
                } else if j == 3 {
                    assert(bk4[3] == BlockKind::Extractor);
                }
            }
            assert forall|j: int| 0 <= j < ik4.len() implies #[trigger] ik4[j] != ItemKind::Building(BlockKind::Conveyor) by {
                if j == 0 {
                    assert(ik4[0] == ItemKind::Building(BlockKind::Empty));
                } else if j == 1 {
                    assert(ik4[1] == ItemKind::Building(BlockKind::ResourceNodeBrown));
                } else if j == 2 {
                    assert(ik4[2] == ItemKind::Building(BlockKind::StorageContainer));
                } else if j == 3 {
                    assert(ik4[3] == ItemKind::Building(BlockKind::Extractor));
                }
            }
            lemma_shape_names_not_taken(g4.blocks, g4.pool, ns, m4, bk4, b5);
            lemma_shape_names_not_taken(g4.items, g4.pool, ns, m4, ik4, b5);
            lemma_shape_kind_not_taken(g4.blocks, g4.pool, ns, m4, bk4, BlockKind::Conveyor);
            lemma_shape_kind_not_taken(g4.items, g4.pool, ns, m4, ik4, ItemKind::Building(BlockKind::Conveyor));
            assert(r5);
            let e5 = g5.blocks.last();
            lemma_shape_push(g4.blocks, g4.pool, g5.pool, ns, m4, bk4, e5, b5);
            lemma_shape_push(g4.items, g4.pool, g5.pool, ns, m4, ik4, (e5.0, ItemKind::Building(BlockKind::Conveyor)), b5);
            let m5 = m4.push(b5);
            let bk5 = bk4.push(BlockKind::Conveyor);
            let ik5 = ik4.push(ItemKind::Building(BlockKind::Conveyor));
            assert(spec_table_shape(g5.blocks, g5.pool, ns, m5, bk5));
            assert(spec_table_shape(g5.items, g5.pool, ns, m5, ik5));
            // registration 6: name and kind are fresh, so it is owed success
            assert forall|j: int| 0 <= j < m5.len() implies #[trigger] m5[j] != b6 by {
                if j == 0 {
                    assert(m5[0] == b1);
                } else if j == 1 {
                    assert(m5[1] == b2);
                } else if j == 2 {
                    assert(m5[2] == b3);
                } else if j == 3 {
                    assert(m5[3] == b4);
                } else if j == 4 {
                    assert(m5[4] == b5);
                }
            }
            assert forall|j: int| 0 <= j < bk5.len() implies #[trigger] bk5[j] != BlockKind::Splitter by {
                if j == 0 {
                    assert(bk5[0] == BlockKind::Empty);
                } else if j == 1 {
                    assert(bk5[1] == BlockKind::ResourceNodeBrown);
                } else if j == 2 {
                    assert(bk5[2] == BlockKind::StorageContainer);
                } else if j == 3 {
                    assert(bk5[3] == BlockKind::Extractor);
                } else if j == 4 {
                    assert(bk5[4] == BlockKind::Conveyor);
                }
            }
            assert forall|j: int| 0 <= j < ik5.len() implies #[trigger] ik5[j] != ItemKind::Building(BlockKind::Splitter) by {
                if j == 0 {
                    assert(ik5[0] == ItemKind::Building(BlockKind::Empty));
                } else if j == 1 {
                    assert(ik5[1] == ItemKind::Building(BlockKind::ResourceNodeBrown));
                } else if j == 2 {
                    assert(ik5[2] == ItemKind::Building(BlockKind::StorageContainer));
                } else if j == 3 {
                    assert(ik5[3] == ItemKind::Building(BlockKind::Extractor));
                } else if j == 4 {
                    assert(ik5[4] == ItemKind::Building(BlockKind::Conveyor));
                }
            }
            lemma_shape_names_not_taken(g5.blocks, g5.pool, ns, m5, bk5, b6);
            lemma_shape_names_not_taken(g5.items, g5.pool, ns, m5, ik5, b6);
            lemma_shape_kind_not_taken(g5.blocks, g5.pool, ns, m5, bk5, BlockKind::Splitter);
            lemma_shape_kind_not_taken(g5.items, g5.pool, ns, m5, ik5, ItemKind::Building(BlockKind::Splitter));
            assert(r6);
            let e6 = g6.blocks.last();
            lemma_shape_push(g5.blocks, g5.pool, g6.pool, ns, m5, bk5, e6, b6);
            lemma_shape_push(g5.items, g5.pool, g6.pool, ns, m5, ik5, (e6.0, ItemKind::Building(BlockKind::Splitter)), b6);
            let m6 = m5.push(b6);
            let bk6 = bk5.push(BlockKind::Splitter);
            let ik6 = ik5.push(ItemKind::Building(BlockKind::Splitter));
            assert(spec_table_shape(g6.blocks, g6.pool, ns, m6, bk6));
            assert(spec_table_shape(g6.items, g6.pool, ns, m6, ik6));
            // registration 7: name and kind are fresh, so it is owed success
            assert forall|j: int| 0 <= j < m6.len() implies #[trigger] m6[j] != b7 by {
                if j == 0 {
                    assert(m6[0] == b1);
                } else if j == 1 {
                    assert(m6[1] == b2);
                } else if j == 2 {
                    assert(m6[2] == b3);
                } else if j == 3 {
                    assert(m6[3] == b4);
                } else if j == 4 {
                    assert(m6[4] == b5);
                } else if j == 5 {
                    assert(m6[5] == b6);
                }
            }
            assert forall|j: int| 0 <= j < bk6.len() implies #[trigger] bk6[j] != BlockKind::Tunnel by {
                if j == 0 {
                    assert(bk6[0] == BlockKind::Empty);
                } else if j == 1 {
                    assert(bk6[1] == BlockKind::ResourceNodeBrown);
                } else if j == 2 {
                    assert(bk6[2] == BlockKind::StorageContainer);
                } else if j == 3 {
                    assert(bk6[3] == BlockKind::Extractor);
                } else if j == 4 {
                    assert(bk6[4] == BlockKind::Conveyor);
                } else if j == 5 {
                    assert(bk6[5] == BlockKind::Splitter);
                }
            }
            assert forall|j: int| 0 <= j < ik6.len() implies #[trigger] ik6[j] != ItemKind::Building(BlockKind::Tunnel) by {
                if j == 0 {
                    assert(ik6[0] == ItemKind::Building(BlockKind::Empty));
                } else if j == 1 {
                    assert(ik6[1] == ItemKind::Building(BlockKind::ResourceNodeBrown));
                } else if j == 2 {
                    assert(ik6[2] == ItemKind::Building(BlockKind::StorageContainer));
                } else if j == 3 {
                    assert(ik6[3] == ItemKind::Building(BlockKind::Extractor));
                } else if j == 4 {
                    assert(ik6[4] == ItemKind::Building(BlockKind::Conveyor));
                } else if j == 5 {
                    assert(ik6[5] == ItemKind::Building(BlockKind::Splitter));
                }
            }
            lemma_shape_names_not_taken(g6.blocks, g6.pool, ns, m6, bk6, b7);
            lemma_shape_names_not_taken(g6.items, g6.pool, ns, m6, ik6, b7);
            lemma_shape_kind_not_taken(g6.blocks, g6.pool, ns, m6, bk6, BlockKind::Tunnel);
            lemma_shape_kind_not_taken(g6.items, g6.pool, ns, m6, ik6, ItemKind::Building(BlockKind::Tunnel));
            assert(r7);
            let e7 = g7.blocks.last();
            lemma_shape_push(g6.blocks, g6.pool, g7.pool, ns, m6, bk6, e7, b7);
            lemma_shape_push(g6.items, g6.pool, g7.pool, ns, m6, ik6, (e7.0, ItemKind::Building(BlockKind::Tunnel)), b7);
            let m7 = m6.push(b7);
            let bk7 = bk6.push(BlockKind::Tunnel);
            let ik7 = ik6.push(ItemKind::Building(BlockKind::Tunnel));
            assert(spec_table_shape(g7.blocks, g7.pool, ns, m7, bk7));
            assert(spec_table_shape(g7.items, g7.pool, ns, m7, ik7));
            // registration of the coal resource: fresh name and kind
            assert forall|j: int| 0 <= j < m7.len() implies #[trigger] m7[j] != b8 by {
                if j == 0 {
                    assert(m7[0] == b1);
                } else if j == 1 {
                    assert(m7[1] == b2);
                } else if j == 2 {
                    assert(m7[2] == b3);
                } else if j == 3 {
                    assert(m7[3] == b4);
                } else if j == 4 {
                    assert(m7[4] == b5);
                } else if j == 5 {
                    assert(m7[5] == b6);
                } else if j == 6 {
                    assert(m7[6] == b7);
                }
            }
            assert forall|j: int| 0 <= j < ik7.len() implies #[trigger] ik7[j]
                != ItemKind::Resource by {
                if j == 0 {
                    assert(ik7[0] == ItemKind::Building(BlockKind::Empty));
                } else if j == 1 {
                    assert(ik7[1] == ItemKind::Building(BlockKind::ResourceNodeBrown));
                } else if j == 2 {
                    assert(ik7[2] == ItemKind::Building(BlockKind::StorageContainer));
                } else if j == 3 {
                    assert(ik7[3] == ItemKind::Building(BlockKind::Extractor));
                } else if j == 4 {
                    assert(ik7[4] == ItemKind::Building(BlockKind::Conveyor));
                } else if j == 5 {
                    assert(ik7[5] == ItemKind::Building(BlockKind::Splitter));
                } else if j == 6 {
                    assert(ik7[6] == ItemKind::Building(BlockKind::Tunnel));
                }
            }
            lemma_shape_names_not_taken(g7.items, g7.pool, ns, m7, ik7, b8);
            lemma_shape_kind_not_taken(g7.items, g7.pool, ns, m7, ik7, ItemKind::Resource);
            assert(r8);
            assert(g8.blocks.len() == 7);
            assert(g8.items.len() == 8);
        }
    }
    r1 && r2 && r3 && r4 && r5 && r6 && r7 && r8
}

} // verus!
