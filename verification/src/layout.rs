//! Where a function's objects live: each stored object (an owned
//! non-constant) takes the next ordinal, which names its slot `%o<ordinal>`;
//! the materialized ones (not elided, with a slot type) get an entry-block
//! slot, or, in a parallel entry, a field of the shared frame; an in-place
//! update's result shares the storage of the array it overwrote.
use vstd::prelude::*;
use vstd::string::*;
use crate::emit::FnEmit;
use crate::llt;
use crate::num;
use crate::frame::{FrameField, FrameLayout, PackedField, occupied};
use crate::ir::ObjectKind;
use crate::site::{TileSite, is_packing_site, packing_site};

verus! {

/// Following the update aliases from `o` ends (at an object with no alias)
/// within `fuel` steps.
pub open spec fn alias_ends(aliases: Seq<Option<usize>>, o: usize, fuel: nat) -> bool
    decreases fuel,
{
    if (o as int) >= aliases.len() || aliases[o as int] is None {
        true
    } else {
        fuel > 0 && alias_ends(aliases, aliases[o as int].unwrap(), (fuel - 1) as nat)
    }
}

/// Where following the update aliases from `o` ends (within `fuel` steps).
pub open spec fn alias_root(aliases: Seq<Option<usize>>, o: usize, fuel: nat) -> usize
    decreases fuel,
{
    if (o as int) >= aliases.len() || aliases[o as int] is None || fuel == 0 {
        o
    } else {
        alias_root(aliases, aliases[o as int].unwrap(), (fuel - 1) as nat)
    }
}

/// The packed-buffer fields after the first `k` split sites: each packing site
/// gets the next pointer field after the `base` object fields (a repeated
/// site is renumbered in place).
pub open spec fn packs_after(
    sites: Seq<Option<TileSite>>,
    splits: Seq<usize>,
    k: int,
    base: nat,
    n: nat,
) -> Seq<Option<PackedField>>
    decreases k,
{
    if k <= 0 {
        Seq::new(n, |i: int| None)
    } else {
        let prev = packs_after(sites, splits, k - 1, base, n);
        let s = splits[k - 1];
        if (s as int) < n && (s as int) < sites.len() && sites[s as int] is Some
            && is_packing_site(sites[s as int].unwrap()) {
            let c = occupied(prev);
            prev.update(
                s as int,
                Some(PackedField { index: (base + c) as u32, ordinal: c as u32 }),
            )
        } else {
            prev
        }
    }
}

/// Setting entry `i` fills it: one more occupied entry unless it already was.
proof fn lemma_occupied_update<T>(s: Seq<Option<T>>, i: int, v: T)
    requires
        0 <= i < s.len(),
    ensures
        occupied(s.update(i, Some(v))) == occupied(s) + if s[i] is None {
            1nat
        } else {
            0nat
        },
    decreases s.len(),
{
    let u = s.update(i, Some(v));
    if i == s.len() - 1 {
        assert(u.drop_last() =~= s.drop_last());
    } else {
        lemma_occupied_update(s.drop_last(), i, v);
        assert(u.drop_last() =~= s.drop_last().update(i, Some(v)));
    }
}

proof fn lemma_occupied_none<T>(n: nat)
    ensures
        occupied(Seq::new(n, |i: int| None::<T>)) == 0,
    decreases n,
{
    if n > 0 {
        lemma_occupied_none::<T>((n - 1) as nat);
        assert(Seq::new(n, |i: int| None::<T>).drop_last() =~= Seq::new((n - 1) as nat, |i: int| None::<T>));
    }
}

proof fn lemma_occupied_bound<T>(s: Seq<Option<T>>)
    ensures
        occupied(s) <= s.len(),
    decreases s.len(),
{
    if s.len() > 0 {
        lemma_occupied_bound(s.drop_last());
    }
}

proof fn lemma_packs_len(sites: Seq<Option<TileSite>>, splits: Seq<usize>, k: int, base: nat, n: nat)
    requires
        k <= splits.len(),
    ensures
        packs_after(sites, splits, k, base, n).len() == n,
    decreases k,
{
    if k > 0 {
        lemma_packs_len(sites, splits, k - 1, base, n);
    }
}

impl<'a> FnEmit<'a> {
    /// Object `o` takes an ordinal: this function owns it and it is no constant.
    pub open spec fn stored(self, o: int) -> bool {
        &&& self.ir.objects@[o].owner == Some(self.f)
        &&& self.ir.objects@[o].kind != ObjectKind::Constant
    }

    /// The ordinal of object `o`: how many objects below it are stored.
    pub open spec fn stored_below(self, o: int) -> nat
        decreases o,
    {
        if o <= 0 {
            0
        } else {
            self.stored_below(o - 1) + if self.stored(o - 1) {
                1nat
            } else {
                0nat
            }
        }
    }

    /// Object `o` gets storage of its own: stored, not elided, and with a slot type.
    pub open spec fn materialized(self, slot_llts: Seq<Option<String>>, o: int) -> bool {
        &&& self.stored(o)
        &&& !self.elided_updates@[o]
        &&& !self.elided_arrays@[o]
        &&& slot_llts[o] is Some
    }

    /// How many objects below `o` get storage of their own.
    pub open spec fn materialized_below(self, slot_llts: Seq<Option<String>>, o: int) -> nat
        decreases o,
    {
        if o <= 0 {
            0
        } else {
            self.materialized_below(slot_llts, o - 1) + if self.materialized(slot_llts, o - 1) {
                1nat
            } else {
                0nat
            }
        }
    }

    proof fn lemma_materialized_below_bound(self, slot_llts: Seq<Option<String>>, o: int)
        requires
            0 <= o,
        ensures
            self.materialized_below(slot_llts, o) <= o,
        decreases o,
    {
        if o > 0 {
            self.lemma_materialized_below_bound(slot_llts, o - 1);
        }
    }

    /// `%o<ordinal>`: the slot name of stored object `o`.
    pub open spec fn slot_name(self, o: int) -> Seq<char> {
        "%o"@ + num::dec_nat(self.stored_below(o))
    }

    /// The entry-block allocations of the materialized objects below `o`, in order.
    pub open spec fn local_allocs(self, slot_llts: Seq<Option<String>>, o: int) -> Seq<char>
        decreases o,
    {
        if o <= 0 {
            Seq::empty()
        } else {
            self.local_allocs(slot_llts, o - 1) + if self.materialized(slot_llts, o - 1) {
                self.alloc_text(self.slot_name(o - 1), slot_llts[o - 1].unwrap()@, None)
            } else {
                Seq::empty()
            }
        }
    }

    /// One of the materialized objects below `o` goes to the arena.
    pub open spec fn local_heap(self, slot_llts: Seq<Option<String>>, o: int) -> bool
        decreases o,
    {
        o > 0 && (self.local_heap(slot_llts, o - 1) || (self.materialized(slot_llts, o - 1)
            && self.alloc_heap(slot_llts[o - 1].unwrap()@)))
    }

    /// Object `o`'s own frame field: the next field, named by its ordinal.
    pub open spec fn own_field(self, slot_llts: Seq<Option<String>>, o: int) -> Option<FrameField> {
        if self.materialized(slot_llts, o) {
            Some(
                FrameField {
                    owner: o as usize,
                    index: self.materialized_below(slot_llts, o) as u32,
                    ordinal: self.stored_below(o) as u32,
                    llt: slot_llts[o].unwrap(),
                },
            )
        } else {
            None
        }
    }

    /// Object `o`'s frame field: its own, or, for an in-place update's
    /// result, that of the array at the end of its alias chain.
    pub open spec fn frame_field(self, slot_llts: Seq<Option<String>>, o: int) -> Option<FrameField> {
        let aliases = self.update_aliases@;
        if aliases[o] is Some {
            self.own_field(slot_llts, alias_root(aliases, o as usize, aliases.len()) as int)
        } else {
            self.own_field(slot_llts, o)
        }
    }

    /// The per-object inputs are sized to the IR, the alias chains end, and
    /// every alias chain ends at an array with storage of its own.
    pub open spec fn storage_inputs_ok(self, slot_llts: Seq<Option<String>>) -> bool {
        let n = self.ir.objects.len();
        let aliases = self.update_aliases@;
        &&& slot_llts.len() == n
        &&& self.elided_updates.len() == n
        &&& self.elided_arrays.len() == n
        &&& aliases.len() == n
        &&& n < u32::MAX
        &&& self.ir.morphisms.len() < u32::MAX
        &&& forall|o: int| 0 <= o < n ==> #[trigger] alias_ends(aliases, o as usize, n as nat)
        &&& forall|o: int|
            0 <= o < n && #[trigger] aliases[o] is Some ==> {
                let root = alias_root(aliases, o as usize, n as nat) as int;
                root < n && self.materialized(slot_llts, root)
            }
    }

    /// Each object's own frame field, and the materialized objects in order.
    fn own_fields(&self, slot_llts: &Vec<Option<String>>) -> (r: (Vec<Option<FrameField>>, Vec<usize>))
        requires
            self.storage_inputs_ok(slot_llts@),
        ensures
            r.0.len() == self.ir.objects.len(),
            forall|o: int| 0 <= o < r.0.len() ==> #[trigger] r.0@[o] == self.own_field(slot_llts@, o),
            r.1.len() == self.materialized_below(slot_llts@, self.ir.objects.len() as int),
            forall|i: int|
                0 <= i < r.1.len() ==> (#[trigger] r.1@[i] as int) < self.ir.objects.len()
                    && self.materialized(slot_llts@, r.1@[i] as int) && self.materialized_below(
                    slot_llts@,
                    r.1@[i] as int,
                ) == i,
    {
        let n = self.ir.objects.len();
        let mut fields: Vec<Option<FrameField>> = Vec::new();
        let mut order: Vec<usize> = Vec::new();
        let mut ord: u32 = 0;
        let mut id: usize = 0;
        while id < n
            invariant
                self.storage_inputs_ok(slot_llts@),
                n == self.ir.objects.len(),
                0 <= id <= n,
                fields.len() == id,
                ord == self.stored_below(id as int),
                ord <= id,
                order.len() == self.materialized_below(slot_llts@, id as int),
                order.len() <= id,
                forall|o: int| 0 <= o < id ==> #[trigger] fields@[o] == self.own_field(slot_llts@, o),
                forall|i: int|
                    0 <= i < order.len() ==> (#[trigger] order@[i] as int) < id && self.materialized(
                        slot_llts@,
                        order@[i] as int,
                    ) && self.materialized_below(slot_llts@, order@[i] as int) == i,
            decreases n - id,
        {
            let obj = &self.ir.objects[id];
            let owned = match obj.owner {
                Some(g) => g == self.f,
                None => false,
            };
            if !owned || obj.kind == ObjectKind::Constant {
                fields.push(None);
                id += 1;
                continue;
            }
            if self.elided_updates[id] || self.elided_arrays[id] {
                fields.push(None);
                ord += 1;
                id += 1;
                continue;
            }
            match &slot_llts[id] {
                Some(llt) => {
                    let index = order.len() as u32;
                    fields.push(
                        Some(FrameField { owner: id, index, ordinal: ord, llt: llt.clone() }),
                    );
                    order.push(id);
                },
                None => {
                    fields.push(None);
                },
            }
            ord += 1;
            id += 1;
        }
        (fields, order)
    }

    /// The shared frame of a parallel entry: a field per materialized object,
    /// in object order and named by ordinal; an in-place update's result
    /// shares the field of the array at the end of its alias chain; then,
    /// when packing, a pointer field per packing tile site among
    /// `split_sites` (by morphism id). `slot_llts` holds each object's slot
    /// type, when it has one.
    pub fn build_frame_layout(
        &self,
        slot_llts: &Vec<Option<String>>,
        packing: bool,
        tile_sites: Option<&Vec<Option<TileSite>>>,
        split_sites: &[usize],
    ) -> (r: FrameLayout)
        requires
            self.storage_inputs_ok(slot_llts@),
        ensures
            r.fields.len() == self.ir.objects.len(),
            forall|o: int|
                0 <= o < r.fields.len() ==> #[trigger] r.fields@[o] == self.frame_field(
                    slot_llts@,
                    o,
                ),
            r.order.len() == self.materialized_below(slot_llts@, self.ir.objects.len() as int),
            forall|i: int|
                0 <= i < r.order.len() ==> (#[trigger] r.order@[i] as int) < self.ir.objects.len()
                    && self.materialized(slot_llts@, r.order@[i] as int) && self.materialized_below(
                    slot_llts@,
                    r.order@[i] as int,
                ) == i,
            r.packed@ == if packing && tile_sites is Some {
                packs_after(
                    tile_sites.unwrap()@,
                    split_sites@,
                    split_sites.len() as int,
                    r.order.len() as nat,
                    self.ir.morphisms.len() as nat,
                )
            } else {
                Seq::new(self.ir.morphisms.len() as nat, |i: int| None)
            },
            r.wf(),
            r.owners_below(self.ir.objects.len() as nat),
    {
        let n = self.ir.objects.len();
        let (mut fields, order) = self.own_fields(slot_llts);
        let ghost aliases = self.update_aliases@;
        let mut t: usize = 0;
        while t < n
            invariant
                self.storage_inputs_ok(slot_llts@),
                n == self.ir.objects.len(),
                aliases == self.update_aliases@,
                0 <= t <= n,
                fields.len() == n,
                forall|o: int| 0 <= o < t ==> #[trigger] fields@[o] == self.frame_field(slot_llts@, o),
                forall|o: int| t <= o < n ==> #[trigger] fields@[o] == self.own_field(slot_llts@, o),
            decreases n - t,
        {
            if let Some(first) = self.update_aliases[t] {
                assert(alias_ends(aliases, t, n as nat));
                let ghost root = alias_root(aliases, t, n as nat);
                let mut source = first;
                let ghost mut fuel: nat = (n - 1) as nat;
                while source < n && self.update_aliases[source].is_some()
                    invariant
                        n == self.ir.objects.len(),
                        aliases == self.update_aliases@,
                        aliases.len() == n,
                        alias_ends(aliases, source, fuel),
                        alias_root(aliases, source, fuel) == root,
                    decreases fuel,
                {
                    source = self.update_aliases[source].unwrap();
                    proof {
                        fuel = (fuel - 1) as nat;
                    }
                }
                assert(source == root);
                assert(aliases[root as int] is None);
                let field = match &fields[source] {
                    Some(f) => FrameField {
                        owner: f.owner,
                        index: f.index,
                        ordinal: f.ordinal,
                        llt: f.llt.clone(),
                    },
                    None => {
                        assert(self.own_field(slot_llts@, root as int) is Some);
                        assert(false);
                        return FrameLayout { fields, order, packed: Vec::new() };
                    },
                };
                fields.set(t, Some(field));
            }
            t += 1;
        }
        let m_len = self.ir.morphisms.len();
        let mut packed: Vec<Option<PackedField>> = Vec::new();
        let mut i: usize = 0;
        while i < m_len
            invariant
                0 <= i <= m_len,
                packed@ =~= Seq::new(i as nat, |j: int| None),
            decreases m_len - i,
        {
            packed.push(None);
            i += 1;
        }
        proof {
            lemma_occupied_none::<PackedField>(m_len as nat);
            self.lemma_materialized_below_bound(slot_llts@, n as int);
        }
        if packing {
            if let Some(sites) = tile_sites {
                let mut count: usize = 0;
                let mut k: usize = 0;
                while k < split_sites.len()
                    invariant
                        0 <= k <= split_sites.len(),
                        packed.len() == m_len,
                        packed@ == packs_after(sites@, split_sites@, k as int, order.len() as nat, m_len as nat),
                        count == occupied(packed@),
                        count <= m_len,
                        m_len < u32::MAX,
                        order.len() < u32::MAX,
                    decreases split_sites.len() - k,
                {
                    let s = split_sites[k];
                    if s < packed.len() && s < sites.len() {
                        if let Some(site) = &sites[s] {
                            if packing_site(site) {
                                let was_empty = packed[s].is_none();
                                let field = PackedField {
                                    index: #[verifier::truncate] ((order.len() as u64 + count as u64) as u32),
                                    ordinal: #[verifier::truncate] (count as u32),
                                };
                                proof {
                                    lemma_occupied_update(packed@, s as int, field);
                                    lemma_occupied_bound(packed@.update(s as int, Some(field)));
                                }
                                packed.set(s, Some(field));
                                if was_empty {
                                    count += 1;
                                }
                            }
                        }
                    }
                    k += 1;
                }
            }
        }
        FrameLayout { fields, order, packed }
    }

    /// The entry-block slots of a sequential function: each materialized
    /// object gets `%o<ordinal>`, allocated in the entry block; the other
    /// slots stay as they were.
    pub fn allocate_local_slots(&mut self, slot_llts: &Vec<Option<String>>)
        requires
            old(self).storage_inputs_ok(slot_llts@),
            old(self).slots.len() == old(self).ir.objects.len(),
            forall|o: int|
                0 <= o < old(self).ir.objects.len() && old(self).materialized(slot_llts@, o)
                    ==> llt::llt_ok(#[trigger] slot_llts@[o].unwrap()@),
        ensures
            final(self).slots.len() == old(self).slots.len(),
            forall|o: int|
                0 <= o < final(self).slots.len() ==> if old(self).materialized(slot_llts@, o) {
                    (#[trigger] final(self).slots@[o]) is Some && final(self).slots@[o].unwrap()@
                        == old(self).slot_name(o)
                } else {
                    final(self).slots@[o] == old(self).slots@[o]
                },
            final(self).allocas@ == old(self).allocas@ + old(self).local_allocs(
                slot_llts@,
                old(self).ir.objects.len() as int,
            ),
            final(self).heap_used == (old(self).heap_used || old(self).local_heap(
                slot_llts@,
                old(self).ir.objects.len() as int,
            )),
            *final(self) == (FnEmit {
                slots: final(self).slots,
                allocas: final(self).allocas,
                heap_used: final(self).heap_used,
                ..*old(self)
            }),
    {
        let n = self.ir.objects.len();
        let mut ord: u32 = 0;
        let mut id: usize = 0;
        while id < n
            invariant
                old(self).storage_inputs_ok(slot_llts@),
                forall|o: int|
                    0 <= o < old(self).ir.objects.len() && old(self).materialized(slot_llts@, o)
                        ==> llt::llt_ok(#[trigger] slot_llts@[o].unwrap()@),
                n == self.ir.objects.len(),
                0 <= id <= n,
                ord == old(self).stored_below(id as int),
                ord <= id,
                self.slots.len() == n,
                forall|o: int|
                    0 <= o < n ==> if o < id && old(self).materialized(slot_llts@, o) {
                        (#[trigger] self.slots@[o]) is Some && self.slots@[o].unwrap()@ == old(
                            self,
                        ).slot_name(o)
                    } else {
                        self.slots@[o] == old(self).slots@[o]
                    },
                self.allocas@ == old(self).allocas@ + old(self).local_allocs(slot_llts@, id as int),
                self.heap_used == (old(self).heap_used || old(self).local_heap(
                    slot_llts@,
                    id as int,
                )),
                *self == (FnEmit {
                    slots: self.slots,
                    allocas: self.allocas,
                    heap_used: self.heap_used,
                    ..*old(self)
                }),
            decreases n - id,
        {
            let obj = &self.ir.objects[id];
            let owned = match obj.owner {
                Some(g) => g == self.f,
                None => false,
            };
            if !owned || obj.kind == ObjectKind::Constant {
                assert(self.allocas@ =~= old(self).allocas@ + old(self).local_allocs(
                    slot_llts@,
                    id + 1,
                ));
                id += 1;
                continue;
            }
            if self.elided_updates[id] || self.elided_arrays[id] {
                assert(self.allocas@ =~= old(self).allocas@ + old(self).local_allocs(
                    slot_llts@,
                    id + 1,
                ));
                ord += 1;
                id += 1;
                continue;
            }
            match &slot_llts[id] {
                Some(llt) => {
                    let mut name = String::from_str("%o");
                    name.append(num::u64_to_string(ord as u64).as_str());
                    let ghost before = self.allocas@;
                    self.slots.set(id, Some(name.clone()));
                    self.entry_alloc(name.as_str(), llt.as_str(), None);
                    assert(self.allocas@ =~= old(self).allocas@ + old(self).local_allocs(
                        slot_llts@,
                        id + 1,
                    ));
                },
                None => {
                    assert(self.allocas@ =~= old(self).allocas@ + old(self).local_allocs(
                        slot_llts@,
                        id + 1,
                    ));
                },
            }
            ord += 1;
            id += 1;
        }
    }
}

impl<'a> FnEmit<'a> {
    proof fn lemma_stored_below_bound(self, o: int)
        requires
            0 <= o,
        ensures
            self.stored_below(o) <= o,
        decreases o,
    {
        if o > 0 {
            self.lemma_stored_below_bound(o - 1);
        }
    }

    proof fn lemma_stored_below_grows(self, o1: int, o2: int)
        requires
            0 <= o1 < o2,
            self.stored(o1),
        ensures
            self.stored_below(o1) < self.stored_below(o2),
        decreases o2,
    {
        if o2 > o1 + 1 {
            self.lemma_stored_below_grows(o1, o2 - 1);
        }
    }

    proof fn lemma_materialized_below_grows(self, slot_llts: Seq<Option<String>>, o1: int, o2: int)
        requires
            0 <= o1 < o2,
            self.materialized(slot_llts, o1),
        ensures
            self.materialized_below(slot_llts, o1) < self.materialized_below(slot_llts, o2),
        decreases o2,
    {
        if o2 > o1 + 1 {
            self.lemma_materialized_below_grows(slot_llts, o1, o2 - 1);
        }
    }

    /// A materialized object's frame field (in a parallel entry) is its own,
    /// and is named by the same `%o<ordinal>` as its entry-block slot (in a
    /// sequential function).
    pub proof fn lemma_slot_names_agree(self, slot_llts: Seq<Option<String>>, o: int)
        requires
            self.storage_inputs_ok(slot_llts),
            0 <= o < self.ir.objects.len(),
            self.materialized(slot_llts, o),
            self.update_aliases@[o] is None,
        ensures
            self.frame_field(slot_llts, o) is Some,
            self.frame_field(slot_llts, o).unwrap().owner == o,
            "%o"@ + num::dec_nat(self.frame_field(slot_llts, o).unwrap().ordinal as nat)
                == self.slot_name(o),
    {
        self.lemma_stored_below_bound(o);
    }

    /// No two objects share storage unless one aliases the other: distinct
    /// stored objects have distinct ordinals (so distinct `%o` slot names),
    /// and distinct materialized objects have distinct frame fields.
    pub proof fn lemma_storage_distinct(self, slot_llts: Seq<Option<String>>, o1: int, o2: int)
        requires
            self.storage_inputs_ok(slot_llts),
            0 <= o1 < self.ir.objects.len(),
            0 <= o2 < self.ir.objects.len(),
            o1 != o2,
        ensures
            self.stored(o1) && self.stored(o2) ==> self.slot_name(o1) != self.slot_name(o2),
            self.materialized(slot_llts, o1) && self.materialized(slot_llts, o2) ==> self.own_field(
                slot_llts,
                o1,
            ).unwrap().index != self.own_field(slot_llts, o2).unwrap().index,
    {
        self.lemma_stored_below_bound(o1);
        self.lemma_stored_below_bound(o2);
        self.lemma_materialized_below_bound(slot_llts, o1);
        self.lemma_materialized_below_bound(slot_llts, o2);
        if self.stored(o1) && self.stored(o2) {
            if o1 < o2 {
                self.lemma_stored_below_grows(o1, o2);
            } else {
                self.lemma_stored_below_grows(o2, o1);
            }
            num::lemma_dec_nat_injective(self.stored_below(o1), self.stored_below(o2));
            if self.slot_name(o1) == self.slot_name(o2) {
                reveal_strlit("%o");
                assert(num::dec_nat(self.stored_below(o1)) =~= self.slot_name(o1).subrange(
                    2,
                    self.slot_name(o1).len() as int,
                ));
                assert(num::dec_nat(self.stored_below(o2)) =~= self.slot_name(o2).subrange(
                    2,
                    self.slot_name(o2).len() as int,
                ));
            }
        }
        if self.materialized(slot_llts, o1) && self.materialized(slot_llts, o2) {
            if o1 < o2 {
                self.lemma_materialized_below_grows(slot_llts, o1, o2);
            } else {
                self.lemma_materialized_below_grows(slot_llts, o2, o1);
            }
        }
    }
}

} // verus!
