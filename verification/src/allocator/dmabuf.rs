//! Multi-plane buffer descriptors ("dmabufs") and their handles.
//!
//! A [`Dmabuf`] acts like a smart pointer: it can be cloned freely, and all
//! clones share one immutable descriptor.  Once the last strong handle is
//! dropped the descriptor is freed.  A [`WeakDmabuf`] observes the
//! descriptor's liveness without keeping it alive.

use crate::allocator::{Allocator, Buffer, Format, Fourcc, Modifier, Size};
use std::sync::Arc;
use vstd::prelude::*;

verus! {

/// Maximum number of planes a buffer may have.
pub const MAX_PLANES: usize = 4;

/// Flag bit: the buffer content is inverted on the y-axis.
pub const DMABUF_FLAG_Y_INVERT: u32 = 1;

/// Flag bit: the buffer content is interlaced.
pub const DMABUF_FLAG_INTERLACED: u32 = 2;

/// Flag bit: if interlaced, the bottom field comes first.
pub const DMABUF_FLAG_BOTTOM_FIRST: u32 = 4;

/// Set of flags applied to a whole buffer, stored as a bitset over the
/// `DMABUF_FLAG_*` bits.
#[derive(Clone, Copy, Debug, PartialEq, Eq, Structural)]
pub struct DmabufFlags {
    /// The raw bitset.
    pub bits: u32,
}

impl DmabufFlags {
    /// Whether every bit of `bits` is set in this flag set.
    pub open spec fn spec_contains(self, bits: u32) -> bool {
        self.bits & bits == bits
    }

    /// The empty flag set.
    pub fn empty() -> (r: Self)
        ensures
            r.bits == 0,
    {
        DmabufFlags { bits: 0 }
    }

    /// A flag set holding exactly the given bits.
    pub fn new(bits: u32) -> (r: Self)
        ensures
            r.bits == bits,
    {
        DmabufFlags { bits }
    }

    /// Returns whether every bit of `bits` is set.
    pub fn contains(&self, bits: u32) -> (r: bool)
        ensures
            r == self.spec_contains(bits),
    {
        self.bits & bits == bits
    }
}

/// The file descriptor number backing one plane.
///
/// The library records and hands back the number; the open OS resource it
/// names is owned and eventually closed by the embedder, once per
/// descriptor group.
#[derive(Clone, Copy, Debug, Hash, PartialEq, Eq, Structural)]
pub struct PlaneFd {
    /// The raw descriptor number.
    pub raw: i32,
}

/// One memory plane of a buffer: a file descriptor plus layout metadata.
#[derive(Debug)]
pub struct Plane {
    /// The descriptor backing this plane.
    pub fd: PlaneFd,
    /// The plane's intended index within the buffer.
    pub plane_idx: u32,
    /// Offset of the plane's data from the start of `fd`.
    pub offset: u32,
    /// Stride (bytes per row) of the plane.
    pub stride: u32,
    /// Layout modifier of the plane.
    pub modifier: Modifier,
}

/// The immutable state shared by every handle to one buffer.
#[derive(Debug)]
pub struct DmabufInternal {
    /// The submitted planes, ascending by `plane_idx` once built.
    pub planes: Vec<Plane>,
    /// The size of the buffer.
    pub size: Size,
    /// The format of the buffer.
    pub format: Fourcc,
    /// The flags applied to the buffer.
    pub flags: DmabufFlags,
}

/// Mathematical model of a buffer descriptor.
pub ghost struct DmabufData {
    /// The planes, in descriptor order.
    pub planes: Seq<Plane>,
    /// The size of the buffer.
    pub size: Size,
    /// The format of the buffer.
    pub format: Fourcc,
    /// The flags applied to the buffer.
    pub flags: DmabufFlags,
}

impl View for DmabufInternal {
    type V = DmabufData;

    open spec fn view(&self) -> DmabufData {
        DmabufData {
            planes: self.planes@,
            size: self.size,
            format: self.format,
            flags: self.flags,
        }
    }
}

/// Sequences of planes ordered ascending by `plane_idx`.
pub open spec fn planes_sorted(s: Seq<Plane>) -> bool {
    forall|i: int, j: int| 0 <= i <= j < s.len() ==> s[i].plane_idx <= s[j].plane_idx
}

/// Inserts `p` behind every plane of `s` whose index is at most `p`'s, and
/// before the rest: one step of a stable insertion sort.
pub open spec fn insert_sorted(s: Seq<Plane>, p: Plane) -> Seq<Plane>
    decreases s.len(),
{
    if s.len() == 0 {
        seq![p]
    } else if s.last().plane_idx <= p.plane_idx {
        s.push(p)
    } else {
        insert_sorted(s.drop_last(), p).push(s.last())
    }
}

/// The planes of `s` ordered ascending by `plane_idx`; planes with equal
/// index keep their order in `s` (stable sort).
pub open spec fn sort_planes(s: Seq<Plane>) -> Seq<Plane>
    decreases s.len(),
{
    if s.len() == 0 {
        Seq::empty()
    } else {
        insert_sorted(sort_planes(s.drop_last()), s.last())
    }
}

/// Inserting a plane grows the sequence by one.
pub proof fn lemma_insert_sorted_len(s: Seq<Plane>, p: Plane)
    ensures
        insert_sorted(s, p).len() == s.len() + 1,
    decreases s.len(),
{
    if s.len() != 0 && s.last().plane_idx > p.plane_idx {
        lemma_insert_sorted_len(s.drop_last(), p);
    }
}

/// Sorting preserves the number of planes.
pub proof fn lemma_sort_planes_len(s: Seq<Plane>)
    ensures
        sort_planes(s).len() == s.len(),
    decreases s.len(),
{
    if s.len() != 0 {
        lemma_sort_planes_len(s.drop_last());
        lemma_insert_sorted_len(sort_planes(s.drop_last()), s.last());
    }
}

/// An upper bound on every plane index survives an insertion that respects
/// it.
proof fn lemma_insert_sorted_ubound(s: Seq<Plane>, p: Plane, bound: u32)
    requires
        forall|i: int| 0 <= i < s.len() ==> #[trigger] s[i].plane_idx <= bound,
        p.plane_idx <= bound,
    ensures
        forall|i: int|
            0 <= i < insert_sorted(s, p).len() ==> #[trigger] insert_sorted(s, p)[i].plane_idx
                <= bound,
    decreases s.len(),
{
    if s.len() != 0 && s.last().plane_idx > p.plane_idx {
        assert(forall|i: int|
            0 <= i < s.drop_last().len() ==> #[trigger] s.drop_last()[i].plane_idx <= bound);
        lemma_insert_sorted_ubound(s.drop_last(), p, bound);
    }
}

/// Inserting into a sorted sequence keeps it sorted.
proof fn lemma_insert_sorted_sorted(s: Seq<Plane>, p: Plane)
    requires
        planes_sorted(s),
    ensures
        planes_sorted(insert_sorted(s, p)),
    decreases s.len(),
{
    if s.len() != 0 && s.last().plane_idx > p.plane_idx {
        assert(planes_sorted(s.drop_last()));
        lemma_insert_sorted_sorted(s.drop_last(), p);
        lemma_insert_sorted_len(s.drop_last(), p);
        lemma_insert_sorted_ubound(s.drop_last(), p, s.last().plane_idx);
    }
}

/// However the planes were added, the sorted sequence is ordered ascending
/// by `plane_idx`.
pub proof fn lemma_sort_planes_sorted(s: Seq<Plane>)
    ensures
        planes_sorted(sort_planes(s)),
    decreases s.len(),
{
    if s.len() != 0 {
        lemma_sort_planes_sorted(s.drop_last());
        lemma_insert_sorted_sorted(sort_planes(s.drop_last()), s.last());
    }
}

/// The planes with index `k`, and no others.
pub open spec fn has_index(k: u32) -> spec_fn(Plane) -> bool {
    |q: Plane| q.plane_idx == k
}

/// Inserting `p` appends it to the subsequence of planes sharing its index
/// and leaves the subsequence of every other index unchanged.
proof fn lemma_insert_sorted_filter(t: Seq<Plane>, p: Plane, k: u32)
    ensures
        p.plane_idx == k ==> insert_sorted(t, p).filter(has_index(k)) == t.filter(
            has_index(k),
        ).push(p),
        p.plane_idx != k ==> insert_sorted(t, p).filter(has_index(k)) == t.filter(has_index(k)),
    decreases t.len(),
{
    reveal_with_fuel(Seq::filter, 2);
    if t.len() == 0 {
        assert(t =~= Seq::<Plane>::empty());
        assert(seq![p].drop_last() =~= Seq::<Plane>::empty());
    } else if t.last().plane_idx <= p.plane_idx {
        assert(t.push(p).drop_last() =~= t);
        assert(t.push(p).last() == p);
    } else {
        lemma_insert_sorted_filter(t.drop_last(), p, k);
        let u = insert_sorted(t.drop_last(), p);
        assert(u.push(t.last()).drop_last() =~= u);
        assert(u.push(t.last()).last() == t.last());
    }
}

/// Planes with equal `plane_idx` keep their insertion order: for every
/// index, sorting leaves the subsequence of planes carrying that index
/// unchanged — the sort is stable.
pub proof fn lemma_sort_planes_stable(s: Seq<Plane>, k: u32)
    ensures
        sort_planes(s).filter(has_index(k)) == s.filter(has_index(k)),
    decreases s.len(),
{
    reveal_with_fuel(Seq::filter, 2);
    if s.len() != 0 {
        lemma_sort_planes_stable(s.drop_last(), k);
        lemma_insert_sorted_filter(sort_planes(s.drop_last()), s.last(), k);
    }
}

/// Inserting a plane adds exactly that plane to the sequence's contents.
proof fn lemma_insert_sorted_multiset(t: Seq<Plane>, p: Plane)
    ensures
        insert_sorted(t, p).to_multiset() == t.to_multiset().insert(p),
    decreases t.len(),
{
    if t.len() == 0 {
        let e = Seq::<Plane>::empty();
        assert(t =~= e);
        assert(seq![p] =~= e.push(p));
        e.to_multiset_ensures();
        assert(e.push(p).to_multiset() =~= e.to_multiset().insert(p));
        assert(insert_sorted(t, p).to_multiset() =~= t.to_multiset().insert(p));
    } else if t.last().plane_idx <= p.plane_idx {
        t.to_multiset_ensures();
        assert(insert_sorted(t, p).to_multiset() =~= t.to_multiset().insert(p));
    } else {
        lemma_insert_sorted_multiset(t.drop_last(), p);
        let u = insert_sorted(t.drop_last(), p);
        u.to_multiset_ensures();
        t.drop_last().to_multiset_ensures();
        assert(t =~= t.drop_last().push(t.last()));
        assert(u.push(t.last()).to_multiset() =~= u.to_multiset().insert(t.last()));
        assert(u.to_multiset().insert(t.last()) =~= t.to_multiset().insert(p));
    }
}

/// Sorting neither loses nor invents a plane: the built descriptor holds
/// exactly the planes that were added, each exactly once.
pub proof fn lemma_sort_planes_permutes(s: Seq<Plane>)
    ensures
        sort_planes(s).to_multiset() == s.to_multiset(),
    decreases s.len(),
{
    if s.len() == 0 {
        assert(s =~= Seq::<Plane>::empty());
    } else {
        lemma_sort_planes_permutes(s.drop_last());
        lemma_insert_sorted_multiset(sort_planes(s.drop_last()), s.last());
        s.drop_last().to_multiset_ensures();
        assert(s =~= s.drop_last().push(s.last()));
        assert(s.drop_last().push(s.last()).to_multiset() =~= s.drop_last().to_multiset().insert(
            s.last(),
        ));
        assert(sort_planes(s).to_multiset() =~= s.to_multiset());
    }
}

/// Where the scan from the right stops — at the first position `j` whose
/// left neighbour's index is at most `p`'s — is exactly where `insert_sorted`
/// places `p`.
proof fn lemma_insert_sorted_split(s: Seq<Plane>, p: Plane, j: int)
    requires
        0 <= j <= s.len(),
        forall|m: int| j <= m < s.len() ==> #[trigger] s[m].plane_idx > p.plane_idx,
        j > 0 ==> s[j - 1].plane_idx <= p.plane_idx,
    ensures
        insert_sorted(s, p) == s.subrange(0, j) + seq![p] + s.subrange(j, s.len() as int),
    decreases s.len(),
{
    if j == s.len() {
        assert(insert_sorted(s, p) =~= s.subrange(0, j) + seq![p] + s.subrange(
            j,
            s.len() as int,
        ));
    } else {
        assert(s.last().plane_idx > p.plane_idx);
        assert(forall|m: int|
            j <= m < s.drop_last().len() ==> #[trigger] s.drop_last()[m].plane_idx
                > p.plane_idx);
        lemma_insert_sorted_split(s.drop_last(), p, j);
        assert(insert_sorted(s, p) =~= s.subrange(0, j) + seq![p] + s.subrange(
            j,
            s.len() as int,
        ));
    }
}

/// Moves the planes of `planes` into a new vector, ordered ascending by
/// `plane_idx`; planes with equal index keep their order.
fn sort_planes_exec(planes: Vec<Plane>) -> (r: Vec<Plane>)
    ensures
        r@ == sort_planes(planes@),
{
    let ghost all = planes@;
    let mut rest = planes;
    let mut out: Vec<Plane> = Vec::new();
    let ghost mut taken: int = 0;
    proof {
        assert(all.take(0) =~= Seq::<Plane>::empty());
    }
    while rest.len() > 0
        invariant
            0 <= taken <= all.len(),
            rest@ == all.skip(taken),
            out@ == sort_planes(all.take(taken)),
        decreases rest@.len(),
    {
        let p = rest.remove(0);
        proof {
            assert(p == all[taken]);
        }
        let ghost before = out@;
        let mut j: usize = out.len();
        while j > 0 && out[j - 1].plane_idx > p.plane_idx
            invariant
                j <= out.len(),
                out@ == before,
                forall|m: int| j <= m < out@.len() ==> #[trigger] out@[m].plane_idx > p.plane_idx,
            decreases j,
        {
            j = j - 1;
        }
        proof {
            lemma_insert_sorted_split(before, p, j as int);
        }
        out.insert(j, p);
        proof {
            assert(out@ =~= before.subrange(0, j as int) + seq![p] + before.subrange(
                j as int,
                before.len() as int,
            ));
            assert(all.take(taken + 1).drop_last() =~= all.take(taken));
            assert(all.take(taken + 1).last() == all[taken]);
            assert(out@ == sort_planes(all.take(taken + 1)));
            taken = taken + 1;
            assert(rest@ =~= all.skip(taken));
        }
    }
    proof {
        assert(all.take(taken) =~= all);
    }
    out
}

/// Staged accumulator for the planes and metadata of a buffer; a descriptor
/// comes out of it through [`DmabufBuilder::build`].
#[derive(Debug)]
pub struct DmabufBuilder {
    internal: DmabufInternal,
}

impl View for DmabufBuilder {
    type V = DmabufData;

    closed spec fn view(&self) -> DmabufData {
        self.internal@
    }
}

impl DmabufBuilder {
    /// Adds a plane to the buffer under construction.
    ///
    /// Returns `false`, leaving the builder unchanged, if the builder
    /// already holds [`MAX_PLANES`] planes; otherwise appends the plane and
    /// returns `true`.  Neither uniqueness nor ordering of `plane_idx` is
    /// checked here: the plane order is normalized by [`DmabufBuilder::build`].
    pub fn add_plane(
        &mut self,
        fd: PlaneFd,
        plane_idx: u32,
        offset: u32,
        stride: u32,
        modifier: Modifier,
    ) -> (r: bool)
        ensures
            old(self)@.planes.len() >= MAX_PLANES ==> r == false && final(self)@ == old(self)@,
            old(self)@.planes.len() < MAX_PLANES ==> r == true && final(self)@ == (DmabufData {
                planes: old(self)@.planes.push(
                    Plane { fd, plane_idx, offset, stride, modifier },
                ),
                ..old(self)@
            }),
    {
        if self.internal.planes.len() >= MAX_PLANES {
            return false;
        }
        self.internal.planes.push(Plane { fd, plane_idx, offset, stride, modifier });
        true
    }

    /// Builds a [`Dmabuf`] out of the provided parameters and planes.
    ///
    /// Returns `None` exactly when no plane was added.  Otherwise the planes
    /// are ordered ascending by `plane_idx` — planes with equal index keep
    /// their insertion order — and wrapped in a new strong handle.  The
    /// builder is consumed and cannot be reused.
    pub fn build(self) -> (r: Option<Dmabuf>)
        ensures
            r is Some <==> self@.planes.len() > 0,
            r matches Some(d) ==> d@ == (DmabufData {
                planes: sort_planes(self@.planes),
                ..self@
            }),
    {
        let DmabufBuilder { internal } = self;
        if internal.planes.len() == 0 {
            return None;
        }
        let DmabufInternal { planes, size, format, flags } = internal;
        proof {
            lemma_sort_planes_len(planes@);
        }
        let sorted = sort_planes_exec(planes);
        Some(Dmabuf(Arc::new(DmabufInternal { planes: sorted, size, format, flags })))
    }
}

/// Relies on `Arc::clone`: the clone shares the original's allocation and so
/// carries the same descriptor value.
#[verifier::external_body]
fn arc_clone(a: &Arc<DmabufInternal>) -> (r: Arc<DmabufInternal>)
    ensures
        r == *a,
{
    Arc::clone(a)
}

/// Relies on `Arc::ptr_eq`: it returns true only when both handles point at
/// one allocation, which holds one descriptor value.
#[verifier::external_body]
fn arc_ptr_eq(a: &Arc<DmabufInternal>, b: &Arc<DmabufInternal>) -> (r: bool)
    ensures
        r ==> *a == *b,
{
    Arc::ptr_eq(a, b)
}

/// Strong handle to a buffer descriptor.
///
/// All clones share one immutable descriptor; the descriptor lives for as
/// long as any of them does.  Equality between handles is by descriptor
/// identity, not by content: handles built independently from identical
/// inputs are unequal.  That identity is no function of the descriptor's
/// data, so `==` carries no contract here beyond "equal handles hold equal
/// descriptor data".
#[derive(Debug)]
pub struct Dmabuf(pub(crate) Arc<DmabufInternal>);

impl View for Dmabuf {
    type V = DmabufData;

    closed spec fn view(&self) -> DmabufData {
        self.0@
    }
}

impl Dmabuf {
    #[verifier::type_invariant]
    spec fn wf(self) -> bool {
        self.0@.planes.len() >= 1
    }
}

impl Clone for Dmabuf {
    /// Creates another strong handle to the same descriptor.
    fn clone(&self) -> (res: Self)
        ensures
            res == *self,
    {
        proof {
            use_type_invariant(&*self);
        }
        Dmabuf(arc_clone(&self.0))
    }
}

impl PartialEq for Dmabuf {
    /// Whether both handles point at one descriptor instance.
    fn eq(&self, other: &Self) -> (r: bool)
        ensures
            r ==> self@ == other@,
    {
        arc_ptr_eq(&self.0, &other.0)
    }
}

impl Eq for Dmabuf {

}

impl vstd::std_specs::cmp::PartialEqSpecImpl for Dmabuf {
    /// Handle equality is by descriptor identity, which the mathematical
    /// model does not carry; `==` therefore promises nothing in contracts.
    open spec fn obeys_eq_spec() -> bool {
        false
    }

    open spec fn eq_spec(&self, other: &Self) -> bool {
        self@ == other@
    }
}

impl Dmabuf {
    /// Starts a builder, copying size and format from an existing buffer.
    ///
    /// `src` serves purely as a geometry and format template; the contents
    /// of the new buffer come from the planes added afterwards.
    pub fn builder_from_buffer<B: Buffer>(src: &B, flags: DmabufFlags) -> (r: DmabufBuilder)
        ensures
            r@ == (DmabufData {
                planes: Seq::empty(),
                size: src.spec_size(),
                format: src.spec_format().code,
                flags,
            }),
    {
        let format = src.format();
        DmabufBuilder {
            internal: DmabufInternal {
                planes: Vec::new(),
                size: src.size(),
                format: format.code,
                flags,
            },
        }
    }

    /// Starts a builder for a buffer of the given size and format.
    pub fn builder(size: Size, format: Fourcc, flags: DmabufFlags) -> (r: DmabufBuilder)
        ensures
            r@ == (DmabufData { planes: Seq::empty(), size, format, flags }),
    {
        DmabufBuilder {
            internal: DmabufInternal { planes: Vec::new(), size, format, flags },
        }
    }

    /// The number of planes this buffer has.
    pub fn num_planes(&self) -> (r: usize)
        ensures
            r == self@.planes.len(),
    {
        self.0.planes.len()
    }

    /// Returns the raw descriptor numbers of the planes, in plane order.
    pub fn handles(&self) -> (r: Vec<PlaneFd>)
        ensures
            r@ == self@.planes.map_values(|p: Plane| p.fd),
    {
        let planes = &self.0.planes;
        let mut out: Vec<PlaneFd> = Vec::new();
        let mut i: usize = 0;
        while i < planes.len()
            invariant
                i <= planes.len(),
                out@ == planes@.take(i as int).map_values(|p: Plane| p.fd),
            decreases planes.len() - i,
        {
            out.push(planes[i].fd);
            proof {
                assert(planes@.take(i + 1).drop_last() =~= planes@.take(i as int));
                assert(out@ =~= planes@.take(i + 1).map_values(|p: Plane| p.fd));
            }
            i = i + 1;
        }
        proof {
            assert(planes@.take(planes@.len() as int) =~= planes@);
        }
        out
    }

    /// Returns the byte offsets of the planes, in plane order.
    pub fn offsets(&self) -> (r: Vec<u32>)
        ensures
            r@ == self@.planes.map_values(|p: Plane| p.offset),
    {
        let planes = &self.0.planes;
        let mut out: Vec<u32> = Vec::new();
        let mut i: usize = 0;
        while i < planes.len()
            invariant
                i <= planes.len(),
                out@ == planes@.take(i as int).map_values(|p: Plane| p.offset),
            decreases planes.len() - i,
        {
            out.push(planes[i].offset);
            proof {
                assert(planes@.take(i + 1).drop_last() =~= planes@.take(i as int));
                assert(out@ =~= planes@.take(i + 1).map_values(|p: Plane| p.offset));
            }
            i = i + 1;
        }
        proof {
            assert(planes@.take(planes@.len() as int) =~= planes@);
        }
        out
    }

    /// Returns the strides of the planes, in plane order.
    pub fn strides(&self) -> (r: Vec<u32>)
        ensures
            r@ == self@.planes.map_values(|p: Plane| p.stride),
    {
        let planes = &self.0.planes;
        let mut out: Vec<u32> = Vec::new();
        let mut i: usize = 0;
        while i < planes.len()
            invariant
                i <= planes.len(),
                out@ == planes@.take(i as int).map_values(|p: Plane| p.stride),
            decreases planes.len() - i,
        {
            out.push(planes[i].stride);
            proof {
                assert(planes@.take(i + 1).drop_last() =~= planes@.take(i as int));
                assert(out@ =~= planes@.take(i + 1).map_values(|p: Plane| p.stride));
            }
            i = i + 1;
        }
        proof {
            assert(planes@.take(planes@.len() as int) =~= planes@);
        }
        out
    }

    /// Whether the first plane carries a vendor-specific modifier, rather
    /// than the "invalid" or "linear" sentinel.  By convention all planes of
    /// one buffer share a modifier.
    pub fn has_modifier(&self) -> (r: bool)
        ensures
            r == (self@.planes[0].modifier != Modifier::Invalid && self@.planes[0].modifier
                != Modifier::Linear),
    {
        proof {
            use_type_invariant(&*self);
        }
        let m = self.0.planes[0].modifier;
        m != Modifier::Invalid && m != Modifier::Linear
    }

    /// Whether the buffer is stored inverted on the y-axis.
    pub fn y_inverted(&self) -> (r: bool)
        ensures
            r == self@.flags.spec_contains(DMABUF_FLAG_Y_INVERT),
    {
        self.0.flags.contains(DMABUF_FLAG_Y_INVERT)
    }
}

/// Non-owning pointer to a descriptor allocation, held opaquely because
/// `std::sync::Weak` itself cannot stand in a verified field.
#[verifier::external_body]
struct WeakCell {
    inner: std::sync::Weak<DmabufInternal>,
}

/// Relies on `Arc::downgrade`: the weak handle points at `a`'s allocation
/// without keeping it alive.
#[verifier::external_body]
fn arc_downgrade(a: &Arc<DmabufInternal>) -> (w: WeakCell) {
    WeakCell { inner: Arc::downgrade(a) }
}

/// Relies on `Weak::clone`: the clone points at the same allocation.
#[verifier::external_body]
fn weak_clone(w: &WeakCell) -> (r: WeakCell) {
    WeakCell { inner: w.inner.clone() }
}

/// Relies on `Weak::strong_count`: the number of strong handles left at the
/// time of the call, 0 once the descriptor is gone.  The result depends on
/// what other threads hold, so nothing is promised of it.
#[verifier::external_body]
fn weak_strong_count(w: &WeakCell) -> usize {
    w.inner.strong_count()
}

/// Weak handle to a buffer descriptor.
///
/// It never keeps the descriptor alive; it can only try to obtain a strong
/// handle while one still exists.  Its model is the descriptor data of the
/// strong handle it was made from.
pub struct WeakDmabuf {
    cell: WeakCell,
    target: Ghost<DmabufData>,
}

impl View for WeakDmabuf {
    type V = DmabufData;

    closed spec fn view(&self) -> DmabufData {
        self.target@
    }
}

impl Clone for WeakDmabuf {
    /// Creates another weak handle to the same descriptor.
    fn clone(&self) -> (res: Self)
        ensures
            res@ == self@,
    {
        WeakDmabuf { cell: weak_clone(&self.cell), target: Ghost(self@) }
    }
}

/// Relies on `Weak::ptr_eq`: it returns true only when both weak handles
/// point at one allocation, whose descriptor value both handles' models
/// record.
#[verifier::external_body]
fn weak_handle_ptr_eq(a: &WeakDmabuf, b: &WeakDmabuf) -> (r: bool)
    ensures
        r ==> a@ == b@,
{
    std::sync::Weak::ptr_eq(&a.cell.inner, &b.cell.inner)
}

impl PartialEq for WeakDmabuf {
    /// Whether both weak handles point at one descriptor instance.
    fn eq(&self, other: &Self) -> (r: bool)
        ensures
            r ==> self@ == other@,
    {
        weak_handle_ptr_eq(self, other)
    }
}

impl Eq for WeakDmabuf {

}

impl vstd::std_specs::cmp::PartialEqSpecImpl for WeakDmabuf {
    /// Weak-handle equality is by descriptor identity, which the
    /// mathematical model does not carry; `==` therefore promises nothing
    /// in contracts.
    open spec fn obeys_eq_spec() -> bool {
        false
    }

    open spec fn eq_spec(&self, other: &Self) -> bool {
        self@ == other@
    }
}

impl Dmabuf {
    /// Creates a weak handle to this buffer's descriptor.
    pub fn weak(&self) -> (r: WeakDmabuf)
        ensures
            r@ == self@,
    {
        WeakDmabuf { cell: arc_downgrade(&self.0), target: Ghost(self@) }
    }
}

impl WeakDmabuf {
    /// Tries to obtain a strong handle to this buffer's descriptor.
    ///
    /// Fails once no strong handle exists any more; whether one still does
    /// depends on what the rest of the program holds, so success cannot be
    /// promised here.  Relies on `Weak::upgrade`: a handle it returns points
    /// at the allocation this weak handle was made from — the descriptor
    /// recorded as this handle's model, immutable since — or `None` once no
    /// strong handle is left.  This handle is only ever constructed from a
    /// strong handle, whose descriptor its model records.
    #[verifier::external_body]
    pub fn upgrade(&self) -> (r: Option<Dmabuf>)
        ensures
            r matches Some(d) ==> d@ == self@,
    {
        self.cell.inner.upgrade().map(Dmabuf)
    }

    /// Whether no strong handle to the descriptor remains — the descriptor
    /// is destroyed or about to be.  Liveness is a fact about the rest of
    /// the program, not about this handle's model, so no more is stated.
    pub fn is_gone(&self) -> bool {
        weak_strong_count(&self.cell) == 0
    }
}

impl Buffer for Dmabuf {
    open spec fn spec_size(&self) -> Size {
        self@.size
    }

    open spec fn spec_format(&self) -> Format {
        Format { code: self@.format, modifier: self@.planes[0].modifier }
    }

    fn size(&self) -> (s: Size) {
        self.0.size
    }

    fn format(&self) -> (f: Format) {
        proof {
            use_type_invariant(&*self);
        }
        Format { code: self.0.format, modifier: self.0.planes[0].modifier }
    }
}

/// Capability of backend buffers that can be exported as [`Dmabuf`]s.
pub trait AsDmabuf {
    /// Error type returned if exporting fails.
    type Error;

    /// Exports this buffer as a new [`Dmabuf`].
    fn export(&self) -> Result<Dmabuf, Self::Error>;
}

impl AsDmabuf for Dmabuf {
    type Error = core::convert::Infallible;

    /// A [`Dmabuf`] is already canonical: exporting hands out another strong
    /// handle to the same descriptor and cannot fail.
    fn export(&self) -> (r: Result<Dmabuf, core::convert::Infallible>)
        ensures
            r matches Ok(d) && d@ == self@,
    {
        Ok(self.clone())
    }
}

/// The two errors an [`DmabufAllocator`] can report, erased into one type;
/// the original backend error is kept whole as the cause.
#[derive(Debug)]
pub enum AnyError<A, E> {
    /// The backend failed to allocate a buffer; the cause is the backend's
    /// own allocation error.
    Allocation(A),
    /// The backend's buffer could not be exported as a [`Dmabuf`]; the
    /// cause is the backend's own export error.
    Export(E),
}

/// Folds the outcome of the two allocation stages — backend allocation,
/// then export of the allocated buffer — into the adapter's single result.
/// Either failure is wrapped in [`AnyError`] with the stage's error kept
/// unchanged as the cause; a success is handed through untouched.
pub fn erase_errors<A, E>(staged: Result<Result<Dmabuf, E>, A>) -> (r: Result<
    Dmabuf,
    AnyError<A, E>,
>)
    ensures
        match staged {
            Ok(Ok(d)) => r == Ok::<Dmabuf, AnyError<A, E>>(d),
            Ok(Err(e)) => r == Err::<Dmabuf, AnyError<A, E>>(AnyError::Export(e)),
            Err(e) => r == Err::<Dmabuf, AnyError<A, E>>(AnyError::Allocation(e)),
        },
{
    match staged {
        Ok(Ok(d)) => Ok(d),
        Ok(Err(e)) => Err(AnyError::Export(e)),
        Err(e) => Err(AnyError::Allocation(e)),
    }
}

/// Adapter that lifts any [`Allocator`] whose buffers implement
/// [`AsDmabuf`] into an `Allocator` producing [`Dmabuf`]s, with both
/// failure stages erased into [`AnyError`].
#[derive(Debug)]
pub struct DmabufAllocator<A>(pub A) where A: Allocator, <A as Allocator>::Buffer: AsDmabuf;

impl<A> Allocator for DmabufAllocator<A> where
    A: Allocator,
    <A as Allocator>::Buffer: AsDmabuf,
 {
    type Buffer = Dmabuf;

    type Error = AnyError<
        <A as Allocator>::Error,
        <<A as Allocator>::Buffer as AsDmabuf>::Error,
    >;

    /// Delegates to the backend, then exports the produced buffer; either
    /// failure comes back as an [`AnyError`] carrying the stage's error as
    /// its cause (see [`erase_errors`]).
    fn create_buffer(
        &mut self,
        width: u32,
        height: u32,
        fourcc: Fourcc,
        modifiers: &[Modifier],
    ) -> Result<Dmabuf, Self::Error> {
        let staged = match self.0.create_buffer(width, height, fourcc, modifiers) {
            Ok(b) => Ok(b.export()),
            Err(e) => Err(e),
        };
        erase_errors(staged)
    }
}

} // verus!
