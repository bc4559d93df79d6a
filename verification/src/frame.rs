//! The parallel entry's shared `%Frame` struct and the constant wait tables
//! the runtime reads.
use vstd::prelude::*;
use vstd::string::*;
use crate::num;
use crate::llt::{
    comma_build, depth_at, piece_ok, spaced, struct_fields, lemma_comma_build_push, lemma_depth_concat,
    lemma_segments_build, lemma_segments_whole, lemma_trim_solid, lemma_trim_spaced, top_comma, trim, trim_start,
    trim_end, is_ws, segments, field_list, inner, trims,
};

verus! {

/// One object's storage in the shared frame.
pub struct FrameField {
    /// The object whose slot this is (an elided update shares its source's).
    pub owner: usize,
    /// The field's position in `%Frame`.
    pub index: u32,
    /// The object's ordinal, which names its slot `%o<ordinal>`.
    pub ordinal: u32,
    /// The field's LLVM type text.
    pub llt: String,
}

/// One packed tile buffer's pointer in the shared frame.
pub struct PackedField {
    pub index: u32,
    pub ordinal: u32,
}

/// The shared frame: a field per materialized object (by object id), their
/// order in the struct, and a `ptr` per packed tile site (by morphism id).
pub struct FrameLayout {
    pub fields: Vec<Option<FrameField>>,
    pub order: Vec<usize>,
    pub packed: Vec<Option<PackedField>>,
}

/// The parts joined by `sep`.
pub open spec fn join(parts: Seq<Seq<char>>, sep: Seq<char>) -> Seq<char>
    decreases parts.len(),
{
    if parts.len() == 0 {
        Seq::empty()
    } else if parts.len() == 1 {
        parts[0]
    } else {
        join(parts.drop_last(), sep) + sep + parts.last()
    }
}

/// How many of the entries are occupied.
pub open spec fn occupied<T>(s: Seq<Option<T>>) -> nat
    decreases s.len(),
{
    if s.len() == 0 {
        0
    } else {
        occupied(s.drop_last()) + if s.last() is Some {
            1nat
        } else {
            0nat
        }
    }
}

impl FrameLayout {
    /// Every field's owner is an object id below `n`.
    pub open spec fn owners_below(&self, n: nat) -> bool {
        forall|o: int|
            0 <= o < self.fields.len() && #[trigger] self.fields@[o] is Some ==> (self.fields@[
                o
            ].unwrap().owner as int) < n
    }

    /// Every object the order names has a field.
    pub open spec fn wf(&self) -> bool {
        forall|i: int|
            0 <= i < self.order.len() ==> (#[trigger] self.order@[i] as int) < self.fields.len()
                && self.fields@[self.order@[i] as int] is Some
    }

    /// The field types in struct order: the ordered objects' types, then a
    /// `ptr` per packed site.
    pub open spec fn field_llts(&self) -> Seq<Seq<char>> {
        Seq::new(
            self.order.len() as nat,
            |i: int| self.fields@[self.order@[i] as int].unwrap().llt@,
        ) + Seq::new(occupied(self.packed@), |i: int| "ptr"@)
    }

    /// The literal-struct spelling: `{ T0, T1, ... }`.
    pub open spec fn struct_text(&self) -> Seq<char> {
        "{ "@ + join(self.field_llts(), ", "@) + " }"@
    }

    /// The literal-struct spelling of `%Frame`: the named type's body, and the
    /// text that is sized for the heap-lowering gate.
    pub fn struct_llt(&self) -> (r: String)
        requires
            self.wf(),
        ensures
            r@ == self.struct_text(),
    {
        let ghost parts = self.field_llts();
        let mut joined = String::new();
        let mut i: usize = 0;
        while i < self.order.len()
            invariant
                self.wf(),
                parts == self.field_llts(),
                0 <= i <= self.order.len(),
                joined@ == join(parts.subrange(0, i as int), ", "@),
            decreases self.order.len() - i,
        {
            let o = self.order[i];
            let field = match &self.fields[o] {
                Some(field) => field,
                None => {
                    assert(false);
                    return String::new();
                },
            };
            if i > 0 {
                joined.append(", ");
            }
            joined.append(field.llt.as_str());
            proof {
                let prev = parts.subrange(0, i as int);
                let next = parts.subrange(0, i + 1);
                assert(next.drop_last() =~= prev);
                assert(next.last() == field.llt@);
                if i == 0 {
                    assert(joined@ =~= join(next, ", "@));
                }
            }
            i += 1;
        }
        let mut k: usize = 0;
        let mut p: usize = 0;
        let n = self.order.len();
        assert(self.packed@.subrange(0, 0) =~= Seq::<Option<PackedField>>::empty());
        while k < self.packed.len()
            invariant
                parts == self.field_llts(),
                n == self.order.len(),
                0 <= k <= self.packed.len(),
                p == occupied(self.packed@.subrange(0, k as int)),
                p <= k,
                n + p <= parts.len(),
                joined@ == join(parts.subrange(0, n + p), ", "@),
            decreases self.packed.len() - k,
        {
            proof {
                lemma_occupied_prefix(self.packed@, k as int);
                lemma_occupied_le(self.packed@, k + 1);
            }
            if self.packed[k].is_some() {
                if n > 0 || p > 0 {
                    joined.append(", ");
                }
                joined.append("ptr");
                proof {
                    lemma_occupied_le(self.packed@, k + 1);
                    let prev = parts.subrange(0, n + p);
                    let next = parts.subrange(0, n + p + 1);
                    assert(next.drop_last() =~= prev);
                    assert(next.last() == "ptr"@);
                    if n + p == 0 {
                        assert(joined@ =~= join(next, ", "@));
                    }
                }
                p += 1;
            }
            k += 1;
        }
        proof {
            assert(self.packed@.subrange(0, self.packed.len() as int) =~= self.packed@);
            assert(parts.subrange(0, n + p) =~= parts);
        }
        let mut r = String::from_str("{ ");
        r.append(joined.as_str());
        r.append(" }");
        assert(r@ =~= self.struct_text());
        r
    }

    /// `%Frame = type { ... }` and a newline.
    pub fn definition(&self) -> (r: String)
        requires
            self.wf(),
        ensures
            r@ == "%Frame = type "@ + self.struct_text() + "\n"@,
    {
        let mut r = String::from_str("%Frame = type ");
        let body = self.struct_llt();
        r.append(body.as_str());
        r.append("\n");
        r
    }
}

proof fn lemma_occupied_prefix<T>(s: Seq<Option<T>>, k: int)
    requires
        0 <= k < s.len(),
    ensures
        occupied(s.subrange(0, k + 1)) == occupied(s.subrange(0, k)) + if s[k] is Some {
            1nat
        } else {
            0nat
        },
{
    assert(s.subrange(0, k + 1).drop_last() =~= s.subrange(0, k));
}

proof fn lemma_occupied_le<T>(s: Seq<Option<T>>, k: int)
    requires
        0 <= k <= s.len(),
    ensures
        occupied(s.subrange(0, k)) <= k,
        occupied(s.subrange(0, k)) <= occupied(s),
    decreases s.len() - k,
{
    lemma_occupied_le_len(s.subrange(0, k));
    if k < s.len() {
        lemma_occupied_le(s, k + 1);
        lemma_occupied_prefix(s, k);
    } else {
        assert(s.subrange(0, k) =~= s);
    }
}

proof fn lemma_occupied_le_len<T>(s: Seq<Option<T>>)
    ensures
        occupied(s) <= s.len(),
    decreases s.len(),
{
    if s.len() > 0 {
        lemma_occupied_le_len(s.drop_last());
    }
}

/// One entry of a wait table: a task, and the progress it must reach (all
/// of it when absent).
pub struct WaitEntry {
    pub task: u32,
    pub threshold: Option<u32>,
}

/// The 64-bit word the runtime reads for one wait entry: the task in the high
/// half, the threshold (`u32::MAX` for none) in the low half.
pub open spec fn wait_word(e: WaitEntry) -> int {
    let threshold = match e.threshold {
        Some(t) => t as int,
        None => u32::MAX as int,
    };
    e.task as int * 0x1_0000_0000 + threshold
}

/// The table's initializer: `zeroinitializer` when empty, else `[i64 w0, ...]`.
pub open spec fn wait_value(wait: Seq<WaitEntry>) -> Seq<char> {
    if wait.len() == 0 {
        "zeroinitializer"@
    } else {
        "["@ + join(
            Seq::new(wait.len(), |i: int| "i64 "@ + num::dec_nat(wait_word(wait[i]) as nat)),
            ", "@,
        ) + "]"@
    }
}

/// The whole global: `@name = private unnamed_addr constant [len x i64] value`.
pub open spec fn wait_text(name: Seq<char>, wait: Seq<WaitEntry>) -> Seq<char> {
    "@"@ + name + " = private unnamed_addr constant ["@ + num::dec_nat(wait.len()) + " x i64] "@
        + wait_value(wait) + "\n"@
}

fn pack_wait(task: u32, threshold: u32) -> (w: u64)
    ensures
        w as int == task as int * 0x1_0000_0000 + threshold as int,
{
    let w = ((task as u64) << 32) | (threshold as u64);
    assert(w == task as u64 * 0x1_0000_0000 + threshold as u64) by (bit_vector)
        requires
            w == ((task as u64) << 32) | (threshold as u64),
    ;
    w
}

/// A constant wait table for the runtime.
pub fn wait_global(name: &str, wait: &[WaitEntry]) -> (r: String)
    ensures
        r@ == wait_text(name@, wait@),
{
    let len = wait.len();
    let ghost parts = Seq::new(
        wait@.len(),
        |i: int| "i64 "@ + num::dec_nat(wait_word(wait@[i]) as nat),
    );
    let value = if len == 0 {
        String::from_str("zeroinitializer")
    } else {
        let mut entries = String::new();
        let mut i: usize = 0;
        while i < len
            invariant
                len == wait@.len(),
                parts == Seq::new(
                    wait@.len(),
                    |i: int| "i64 "@ + num::dec_nat(wait_word(wait@[i]) as nat),
                ),
                0 <= i <= len,
                entries@ == join(parts.subrange(0, i as int), ", "@),
            decreases len - i,
        {
            let entry = &wait[i];
            let threshold = match entry.threshold {
                Some(t) => t,
                None => u32::MAX,
            };
            let packed = pack_wait(entry.task, threshold);
            if i > 0 {
                entries.append(", ");
            }
            entries.append("i64 ");
            entries.append(num::u64_to_string(packed).as_str());
            proof {
                let prev = parts.subrange(0, i as int);
                let next = parts.subrange(0, i + 1);
                assert(next.drop_last() =~= prev);
                assert(next.last() == parts[i as int]);
                if i == 0 {
                    assert(entries@ =~= join(next, ", "@));
                } else {
                    assert(entries@ =~= join(prev, ", "@) + ", "@ + parts[i as int]);
                }
            }
            i += 1;
        }
        assert(parts.subrange(0, len as int) =~= parts);
        let mut v = String::from_str("[");
        v.append(entries.as_str());
        v.append("]");
        v
    };
    let mut r = String::from_str("@");
    r.append(name);
    r.append(" = private unnamed_addr constant [");
    r.append(num::u64_to_string(len as u64).as_str());
    r.append(" x i64] ");
    r.append(value.as_str());
    r.append("\n");
    assert(r@ =~= wait_text(name@, wait@));
    r
}

/// The runtime reads a wait word back as its two halves: the task from the
/// high 32 bits, the threshold from the low 32.
pub proof fn lemma_wait_word_halves(task: u32, threshold: u32)
    ensures
        task as int * 0x1_0000_0000 + threshold as int <= u64::MAX,
        ((task as int * 0x1_0000_0000 + threshold as int) as u64) >> 32u64 == task as u64,
        ((task as int * 0x1_0000_0000 + threshold as int) as u64) & 0xFFFF_FFFFu64
            == threshold as u64,
{
    let w: u64 = (task as int * 0x1_0000_0000 + threshold as int) as u64;
    let t: u64 = task as u64;
    let h: u64 = threshold as u64;
    assert(w >> 32u64 == t && w & 0xFFFF_FFFFu64 == h) by (bit_vector)
        requires
            w == t * 0x1_0000_0000u64 + h,
            t <= 0xFFFF_FFFFu64,
            h <= 0xFFFF_FFFFu64,
    ;
}

proof fn lemma_join_build(ps: Seq<Seq<char>>)
    requires
        ps.len() >= 1,
    ensures
        seq![' '] + join(ps, ", "@) == comma_build(spaced(ps)),
    decreases ps.len(),
{
    reveal_strlit(", ");
    if ps.len() == 1 {
        assert(spaced(ps) =~= seq![seq![' '] + ps[0]]);
    } else {
        let front = ps.drop_last();
        lemma_join_build(front);
        assert(spaced(ps) =~= spaced(front).push(seq![' '] + ps.last()));
        lemma_comma_build_push(spaced(front), seq![' '] + ps.last());
        assert(seq![' '] + join(ps, ", "@) =~= (seq![' '] + join(front, ", "@)) + seq![','] + (seq![' '] + ps.last()));
    }
}

/// A struct text written as `{ T0, T1, ... }` from well-formed field texts
/// reads back as exactly those fields.
pub proof fn lemma_struct_fields_of_join(ps: Seq<Seq<char>>)
    requires
        forall|i: int| 0 <= i < ps.len() ==> piece_ok(#[trigger] ps[i]),
    ensures
        struct_fields("{ "@ + join(ps, ", "@) + " }"@) == ps,
{
    reveal_strlit("{ ");
    reveal_strlit(" }");
    let t = "{ "@ + join(ps, ", "@) + " }"@;
    assert(!is_ws(t[0]));
    assert(t.last() == '}');
    lemma_trim_solid(t);
    let body = inner(t);
    assert(body =~= seq![' '] + join(ps, ", "@) + seq![' ']);
    if ps.len() == 0 {
        assert(body =~= seq![' ', ' ']);
        assert forall|j: int| 0 <= j < body.len() implies !top_comma(body, j) by {}
        lemma_segments_whole(body, 0, 0);
        assert(body.subrange(0, 2) =~= body);
        assert(is_ws(' '));
        assert(body.drop_first().drop_first() =~= Seq::<char>::empty());
        assert(trim_start(body.drop_first().drop_first()) =~= Seq::<char>::empty());
        assert(body.drop_first()[0] == ' ');
        assert(trim_start(body.drop_first()) =~= Seq::<char>::empty());
        assert(trim_start(body) =~= Seq::<char>::empty());
        assert(trim(body).len() == 0);
        assert(trims(segments(body, 0, 0).drop_last()) =~= Seq::<Seq<char>>::empty());
        assert(field_list(body) =~= ps);
    } else {
        lemma_join_build(ps);
        let qs = spaced(ps);
        assert(depth_at(seq![' '], 1) == 0) by {
            assert(seq![' '][0] == ' ');
            assert(depth_at(seq![' '], 1) == depth_at(seq![' '], 0) + crate::llt::bracket_delta(' '));
        }
        assert forall|k: int| 0 <= k < qs.len() implies depth_at(#[trigger] qs[k], qs[k].len() as int) == 0 by {
            assert(qs[k] == seq![' '] + ps[k]);
            assert(piece_ok(ps[k]));
            lemma_depth_concat(seq![' '], ps[k], ps[k].len() as int);
        }
        assert forall|k: int, j: int| 0 <= k < qs.len() && 0 <= j < qs[k].len() && #[trigger] qs[k][j] == ',' implies depth_at(qs[k], j) != 0 by {
            assert(qs[k] == seq![' '] + ps[k]);
            assert(piece_ok(ps[k]));
            assert(j >= 1);
            assert(qs[k][j] == ps[k][j - 1]);
            assert(ps[k][j - 1] == ',');
            lemma_depth_concat(seq![' '], ps[k], j - 1);
            assert(depth_at(ps[k], j - 1) != 0);
        }
        assert(body =~= comma_build(qs) + seq![' ']);
        lemma_segments_build(qs, seq![' ']);
        let segs = segments(body, 0, 0);
        assert(segs == qs.update(qs.len() - 1, qs.last() + seq![' ']));
        assert forall|i: int| 0 <= i < ps.len() - 1 implies #[trigger] trims(segs.drop_last())[i] == ps[i] by {
            assert(segs.drop_last()[i] == seq![' '] + ps[i]);
            assert(seq![' '] + ps[i] =~= seq![' '] + ps[i] + Seq::<char>::empty());
            lemma_trim_spaced(ps[i], Seq::<char>::empty());
        }
        assert(segs.last() == seq![' '] + ps.last() + seq![' ']);
        lemma_trim_spaced(ps.last(), seq![' ']);
        assert(trims(segs.drop_last()).push(ps.last()) =~= ps);
    }
}

impl FrameLayout {
    /// The struct text of the frame reads back, field by field, as the field
    /// types it was written from (when each is a well-formed field text).
    pub proof fn lemma_struct_text_fields(&self)
        requires
            forall|i: int| 0 <= i < self.field_llts().len() ==> piece_ok(#[trigger] self.field_llts()[i]),
        ensures
            struct_fields(self.struct_text()) == self.field_llts(),
    {
        lemma_struct_fields_of_join(self.field_llts());
    }
}

} // verus!
