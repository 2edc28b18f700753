//! The binder: per-slot bind-group state, the invalid-binding bitmask, and
//! the minimal re-bind computation when a group is assigned or the pipeline
//! layout changes.

use vstd::prelude::*;

use crate::data::LateSizedGroup;
use crate::data::MAX_BIND_GROUPS;
use crate::data::PipelineLayout;
use crate::errors::LateMinBufferBindingSizeMismatch;
use crate::util::clone_vec;

verus! {

/// One bind-group slot of the binder.
pub struct BinderSlot {
    /// Index of the bound group in the global table, if any.
    pub group: Option<usize>,
    /// The bind-group layout of the bound group; `Some` iff `group` is.
    pub layout: Option<u32>,
    /// The dynamic offsets the group was bound with.
    pub dynamic_offsets: Vec<u32>,
    /// The bound sizes of the group's late-validated buffer bindings.
    pub late_sizes: Vec<u64>,
}

/// Mathematical form of one binder slot.
#[verifier::ext_equal]
pub ghost struct SlotV {
    pub group: Option<usize>,
    pub layout: Option<u32>,
    pub dynamic_offsets: Seq<u32>,
    pub late_sizes: Seq<u64>,
}

impl View for BinderSlot {
    type V = SlotV;

    open spec fn view(&self) -> SlotV {
        SlotV {
            group: self.group,
            layout: self.layout,
            dynamic_offsets: self.dynamic_offsets@,
            late_sizes: self.late_sizes@,
        }
    }
}

/// An unoccupied slot.
pub open spec fn empty_slot() -> SlotV {
    SlotV { group: None, layout: None, dynamic_offsets: Seq::empty(), late_sizes: Seq::empty() }
}

/// A fresh binder: no pipeline layout, every slot empty.
pub open spec fn fresh_binder() -> BinderV {
    BinderV {
        layout_id: None,
        required: Seq::empty(),
        slots: Seq::new(MAX_BIND_GROUPS as nat, |i: int| empty_slot()),
        invalid_mask: 0u32,
    }
}

/// The binder: the current pipeline layout, one entry per bind-group slot,
/// and the invalid-binding bitmask.
pub struct Binder {
    /// Identifier of the current pipeline layout; `None` until a pipeline is
    /// set.
    pub layout_id: Option<u32>,
    /// The bind-group layout required at each slot by the current pipeline
    /// layout; empty while no pipeline layout is set.
    pub required: Vec<u32>,
    /// Always exactly [`MAX_BIND_GROUPS`] slots.
    pub slots: Vec<BinderSlot>,
    /// Bit `i` is set iff slot `i` is required by the current pipeline layout
    /// but not occupied by a bind group whose layout matches.
    pub invalid_mask: u32,
}

/// Mathematical form of the binder.
#[verifier::ext_equal]
pub ghost struct BinderV {
    pub layout_id: Option<u32>,
    pub required: Seq<u32>,
    pub slots: Seq<SlotV>,
    pub invalid_mask: u32,
}

impl View for Binder {
    type V = BinderV;

    open spec fn view(&self) -> BinderV {
        BinderV {
            layout_id: self.layout_id,
            required: self.required@,
            slots: Seq::new(self.slots@.len(), |i: int| self.slots@[i]@),
            invalid_mask: self.invalid_mask,
        }
    }
}

/// Slot `i` is satisfied: it is required and holds a group whose layout is
/// the required one.
pub open spec fn slot_compat(required: Seq<u32>, slots: Seq<SlotV>, i: int) -> bool {
    &&& 0 <= i < required.len()
    &&& i < slots.len()
    &&& slots[i].layout == Some(required[i])
}

/// The invalid-binding bitmask over the first `n` slots: bit `i` set iff
/// slot `i` is required but not satisfied.
pub open spec fn invalid_bits(required: Seq<u32>, slots: Seq<SlotV>, n: int) -> u32
    decreases n,
{
    if n <= 0 {
        0u32
    } else {
        invalid_bits(required, slots, n - 1) | (if slot_compat(required, slots, n - 1) {
            0u32
        } else {
            1u32 << ((n - 1) as u32)
        })
    }
}

/// The first required slot that is not satisfied, from `i` on.
pub open spec fn first_incompat(required: Seq<u32>, slots: Seq<SlotV>, i: int) -> Option<int>
    decreases required.len() - i,
{
    if i < 0 || i >= required.len() {
        None
    } else if !slot_compat(required, slots, i) {
        Some(i)
    } else {
        first_incompat(required, slots, i + 1)
    }
}

/// The number of consecutive satisfied slots starting at `i`.
pub open spec fn compat_run(required: Seq<u32>, slots: Seq<SlotV>, i: int) -> int
    decreases required.len() - i,
{
    if !slot_compat(required, slots, i) {
        0
    } else {
        1 + compat_run(required, slots, i + 1)
    }
}

/// Well-formedness of the binder.
pub open spec fn wf_binder(b: BinderV) -> bool {
    &&& b.slots.len() == MAX_BIND_GROUPS as int
    &&& b.required.len() <= MAX_BIND_GROUPS as int
    &&& (b.layout_id is None ==> b.required.len() == 0)
    &&& b.invalid_mask == invalid_bits(b.required, b.slots, b.required.len() as int)
    &&& forall|i: int|
        0 <= i < b.slots.len() ==> ((#[trigger] b.slots[i]).group is Some <==> b.slots[i].layout
            is Some)
}

/// What assigning a group to a slot does: the slot is overwritten, the mask
/// recomputed, and the contiguous run of slots that must be re-bound at the
/// hardware level is returned as a count starting at `index`. No re-bind
/// happens while no pipeline layout is set, nor when the slot does not
/// satisfy the layout; a group of the same layout as before disturbs no
/// following slot; a changed layout cascades over the satisfied run.
pub open spec fn spec_assign_group(
    b: BinderV,
    index: int,
    group: usize,
    group_layout: u32,
    offsets: Seq<u32>,
    late_sizes: Seq<u64>,
) -> (BinderV, int) {
    let slot = SlotV {
        group: Some(group),
        layout: Some(group_layout),
        dynamic_offsets: offsets,
        late_sizes: late_sizes,
    };
    let slots2 = b.slots.update(index, slot);
    let b2 = BinderV {
        slots: slots2,
        invalid_mask: invalid_bits(b.required, slots2, b.required.len() as int),
        ..b
    };
    let count = if b.layout_id is None {
        0
    } else if !slot_compat(b2.required, b2.slots, index) {
        0
    } else if b.slots[index].layout == Some(group_layout) {
        1
    } else {
        compat_run(b2.required, b2.slots, index)
    };
    (b2, count)
}

/// The required layout at slot `i`, `None` past the end.
pub open spec fn expectation(required: Seq<u32>, i: int) -> Option<u32> {
    if 0 <= i < required.len() {
        Some(required[i])
    } else {
        None
    }
}

/// The first slot where two layouts' expectations differ.
pub open spec fn first_diff(old_req: Seq<u32>, new_req: Seq<u32>, i: int) -> int
    decreases vstd::math::max(old_req.len() as int, new_req.len() as int) - i,
{
    if i < 0 || (i >= old_req.len() && i >= new_req.len()) {
        i
    } else if expectation(old_req, i) != expectation(new_req, i) {
        i
    } else {
        first_diff(old_req, new_req, i + 1)
    }
}

/// The first slot whose bound group does not satisfy the new layout.
pub open spec fn first_mismatch(slots: Seq<SlotV>, new_req: Seq<u32>, i: int) -> int
    decreases new_req.len() - i,
{
    if i < 0 || i >= new_req.len() {
        i
    } else if i < slots.len() && slots[i].layout == Some(new_req[i]) {
        first_mismatch(slots, new_req, i + 1)
    } else {
        i
    }
}

/// What a pipeline-layout change does: slots keep their groups up to the
/// first one that does not satisfy the new layout (the prefix rule); all
/// slots at or after it are dropped and their required bits set in the mask.
/// Re-emitted to the hardware are the kept slots from the first changed
/// expectation on.
pub open spec fn spec_change_layout(b: BinderV, id: u32, new_req: Seq<u32>) -> (BinderV, int, int) {
    let s = first_diff(b.required, new_req, 0);
    let fi = first_mismatch(b.slots, new_req, 0);
    let slots2 = Seq::new(
        b.slots.len(),
        |j: int|
            if j < fi {
                b.slots[j]
            } else {
                empty_slot()
            },
    );
    let b2 = BinderV {
        layout_id: Some(id),
        required: new_req,
        slots: slots2,
        invalid_mask: invalid_bits(new_req, slots2, new_req.len() as int),
    };
    (
        b2,
        s,
        if fi > s {
            fi - s
        } else {
            0
        },
    )
}

/// The first late-validated binding of one slot whose bound size is under
/// the shader-required minimum; a missing bound size counts as zero.
pub open spec fn spec_late_group_err(
    late_sizes: Seq<u64>,
    mins: Seq<u64>,
    g: int,
    k: int,
) -> Option<LateMinBufferBindingSizeMismatch>
    decreases mins.len() - k,
{
    if k < 0 || k >= mins.len() {
        None
    } else {
        let bound = if k < late_sizes.len() {
            late_sizes[k]
        } else {
            0u64
        };
        if bound < mins[k] {
            Some(
                LateMinBufferBindingSizeMismatch {
                    group_index: g as u32,
                    binding_index: k as usize,
                    shader_size: mins[k],
                    bound_size: bound,
                },
            )
        } else {
            spec_late_group_err(late_sizes, mins, g, k + 1)
        }
    }
}

/// The first late-validated binding of any slot whose bound size is under
/// the shader-required minimum.
pub open spec fn spec_check_late(
    slots: Seq<SlotV>,
    groups: Seq<LateSizedGroup>,
    g: int,
) -> Option<LateMinBufferBindingSizeMismatch>
    decreases groups.len() - g,
{
    if g < 0 || g >= groups.len() {
        None
    } else {
        let late_sizes = if g < slots.len() {
            slots[g].late_sizes
        } else {
            Seq::empty()
        };
        match spec_late_group_err(late_sizes, groups[g].min_sizes@, g, 0) {
            Some(e) => Some(e),
            None => spec_check_late(slots, groups, g + 1),
        }
    }
}

/// Every slot inside the satisfied run starting at `i` is satisfied.
pub proof fn lemma_compat_run_range(required: Seq<u32>, slots: Seq<SlotV>, i: int, k: int)
    requires
        i <= k < i + compat_run(required, slots, i),
    ensures
        slot_compat(required, slots, k),
    decreases k - i,
{
    assert(slot_compat(required, slots, i));
    if k > i {
        lemma_compat_run_range(required, slots, i + 1, k);
    }
}

/// The first differing expectation lies within the longer layout.
pub proof fn lemma_first_diff_le(old_req: Seq<u32>, new_req: Seq<u32>, i: int)
    requires
        0 <= i,
    ensures
        i <= first_diff(old_req, new_req, i),
        first_diff(old_req, new_req, i) <= vstd::math::max(
            vstd::math::max(old_req.len() as int, new_req.len() as int),
            i,
        ),
    decreases vstd::math::max(old_req.len() as int, new_req.len() as int) - i,
{
    if !(i >= old_req.len() && i >= new_req.len()) && expectation(old_req, i) == expectation(
        new_req,
        i,
    ) {
        lemma_first_diff_le(old_req, new_req, i + 1);
    }
}

/// The first mismatching slot lies within the new layout.
pub proof fn lemma_first_mismatch_le(slots: Seq<SlotV>, new_req: Seq<u32>, i: int)
    requires
        0 <= i,
    ensures
        i <= first_mismatch(slots, new_req, i),
        first_mismatch(slots, new_req, i) <= vstd::math::max(new_req.len() as int, i),
    decreases new_req.len() - i,
{
    if i < new_req.len() && i < slots.len() && slots[i].layout == Some(new_req[i]) {
        lemma_first_mismatch_le(slots, new_req, i + 1);
    }
}

/// Every slot before the first mismatch satisfies the new layout there.
pub proof fn lemma_first_mismatch_prefix(slots: Seq<SlotV>, new_req: Seq<u32>, i: int, k: int)
    requires
        0 <= i <= k < first_mismatch(slots, new_req, i),
    ensures
        k < new_req.len(),
        k < slots.len(),
        slots[k].layout == Some(new_req[k]),
    decreases k - i,
{
    if k > i {
        lemma_first_mismatch_prefix(slots, new_req, i + 1, k);
    }
}

proof fn lemma_or_zero(m: u32)
    by (bit_vector)
    ensures
        m | 0u32 == m,
{
}

proof fn lemma_zero_bit(j: u32)
    by (bit_vector)
    ensures
        (0u32 >> j) & 1 == 0u32,
{
}

proof fn lemma_or_bit(m: u32, k: u32, j: u32)
    by (bit_vector)
    requires
        k < 32,
        j < 32,
    ensures
        ((m | (1u32 << k)) >> j) & 1 == (if j == k {
            1u32
        } else {
            (m >> j) & 1
        }),
{
}

proof fn lemma_bit_nonzero(m: u32, j: u32)
    by (bit_vector)
    requires
        j < 32,
        (m >> j) & 1 == 1u32,
    ensures
        m != 0u32,
{
}

/// Bit `j` of the invalid mask over `n` slots is set iff slot `j < n` is
/// required but not satisfied.
proof fn lemma_invalid_bits_bit(required: Seq<u32>, slots: Seq<SlotV>, n: int, j: u32)
    requires
        0 <= n <= 32,
        j < 32,
    ensures
        ((invalid_bits(required, slots, n) >> j) & 1 == 1u32) <==> (j < n && !slot_compat(
            required,
            slots,
            j as int,
        )),
    decreases n,
{
    if n <= 0 {
        lemma_zero_bit(j);
    } else {
        let m = invalid_bits(required, slots, n - 1);
        lemma_invalid_bits_bit(required, slots, n - 1, j);
        if slot_compat(required, slots, n - 1) {
            lemma_or_zero(m);
        } else {
            lemma_or_bit(m, (n - 1) as u32, j);
        }
    }
}

/// The binder invariant: the invalid mask is zero iff every slot required by
/// the current pipeline layout is occupied by a bind group whose layout
/// matches it.
pub proof fn lemma_invalid_mask_zero_iff(b: BinderV)
    requires
        wf_binder(b),
    ensures
        (b.invalid_mask == 0) <==> (forall|i: int|
            0 <= i < b.required.len() ==> slot_compat(b.required, b.slots, i)),
{
    let n = b.required.len() as int;
    if exists|i: int| 0 <= i < n && !slot_compat(b.required, b.slots, i) {
        let i = choose|i: int| 0 <= i < n && !slot_compat(b.required, b.slots, i);
        lemma_invalid_bits_bit(b.required, b.slots, n, i as u32);
        lemma_bit_nonzero(b.invalid_mask, i as u32);
    } else {
        lemma_invalid_bits_all_compat(b.required, b.slots, n);
    }
}

proof fn lemma_invalid_bits_all_compat(required: Seq<u32>, slots: Seq<SlotV>, n: int)
    requires
        n <= 32,
        forall|i: int| 0 <= i < n ==> slot_compat(required, slots, i),
    ensures
        invalid_bits(required, slots, n) == 0u32,
    decreases n,
{
    if n > 0 {
        lemma_invalid_bits_all_compat(required, slots, n - 1);
        lemma_or_zero(0u32);
    }
}

impl Binder {
    /// A fresh binder: no pipeline layout, every slot empty.
    pub fn new() -> (r: Binder)
        ensures
            r@ == fresh_binder(),
            wf_binder(r@),
    {
        let mut slots: Vec<BinderSlot> = Vec::new();
        let mut i: usize = 0;
        while i < MAX_BIND_GROUPS
            invariant
                i <= MAX_BIND_GROUPS,
                slots@.len() == i,
                forall|j: int| 0 <= j < i ==> (#[trigger] slots@[j])@ == empty_slot(),
            decreases MAX_BIND_GROUPS - i,
        {
            slots.push(
                BinderSlot {
                    group: None,
                    layout: None,
                    dynamic_offsets: Vec::new(),
                    late_sizes: Vec::new(),
                },
            );
            i = i + 1;
        }
        let r = Binder { layout_id: None, required: Vec::new(), slots, invalid_mask: 0 };
        proof {
            assert(r@.slots =~= Seq::new(MAX_BIND_GROUPS as nat, |i: int| empty_slot()));
            assert(r@ =~= fresh_binder());
        }
        r
    }

    /// Whether the current and a new layout expect the same group layout at
    /// slot `i`.
    fn expectation_same_at(&self, layout: &PipelineLayout, i: usize) -> (r: bool)
        ensures
            r == (expectation(self@.required, i as int) == expectation(
                layout.group_layouts@,
                i as int,
            ) && expectation(self@.required, i as int) is Some),
    {
        if i < self.required.len() && i < layout.group_layouts.len() {
            self.required[i] == layout.group_layouts[i]
        } else {
            false
        }
    }

    /// Whether the group bound at slot `i` satisfies a new layout there.
    fn slot_matches_new_at(&self, layout: &PipelineLayout, i: usize) -> (r: bool)
        requires
            i < self.slots@.len(),
            i < layout.group_layouts@.len(),
        ensures
            r == (self@.slots[i as int].layout == Some(layout.group_layouts@[i as int])),
    {
        match self.slots[i].layout {
            Some(l) => l == layout.group_layouts[i],
            None => false,
        }
    }

    /// Whether slot `i` satisfies the current pipeline layout.
    fn slot_compat_at(&self, i: usize) -> (r: bool)
        requires
            i < self.slots@.len(),
        ensures
            r == slot_compat(self@.required, self@.slots, i as int),
    {
        if i >= self.required.len() {
            return false;
        }
        match self.slots[i].layout {
            Some(l) => l == self.required[i],
            None => false,
        }
    }

    /// Recompute the invalid-binding bitmask from the slots.
    fn recompute_mask(&mut self)
        requires
            old(self).required@.len() <= 32,
            old(self).required@.len() <= old(self).slots@.len(),
        ensures
            final(self).layout_id == old(self).layout_id,
            final(self).required@ == old(self).required@,
            final(self).slots@ == old(self).slots@,
            final(self).invalid_mask == invalid_bits(
                old(self)@.required,
                old(self)@.slots,
                old(self).required@.len() as int,
            ),
    {
        let ghost req = self@.required;
        let ghost slotsv = self@.slots;
        let n = self.required.len();
        let mut mask: u32 = 0;
        let mut j: usize = 0;
        while j < n
            invariant
                j <= n,
                n == self.required@.len(),
                n <= self.slots@.len(),
                n <= 32,
                req == self@.required,
                slotsv == self@.slots,
                mask == invalid_bits(req, slotsv, j as int),
            decreases n - j,
        {
            let compat = self.slot_compat_at(j);
            if !compat {
                mask = mask | (1u32 << (j as u32));
            } else {
                proof {
                    lemma_or_zero(mask);
                }
            }
            j = j + 1;
        }
        self.invalid_mask = mask;
    }

    /// The first required slot not satisfied by its bound group.
    pub fn first_incompatible(&self) -> (r: Option<usize>)
        requires
            self.required@.len() <= self.slots@.len(),
        ensures
            match r {
                Some(i) => first_incompat(self@.required, self@.slots, 0) == Some(i as int),
                None => first_incompat(self@.required, self@.slots, 0) is None,
            },
    {
        let n = self.required.len();
        let mut j: usize = 0;
        while j < n
            invariant
                j <= n,
                n == self.required@.len(),
                n <= self.slots@.len(),
                first_incompat(self@.required, self@.slots, 0) == first_incompat(
                    self@.required,
                    self@.slots,
                    j as int,
                ),
            decreases n - j,
        {
            if !self.slot_compat_at(j) {
                return Some(j);
            }
            j = j + 1;
        }
        None
    }

    /// Store `group` at `index` and return how many slots, starting at
    /// `index`, must be re-bound at the hardware level.
    pub fn assign_group(
        &mut self,
        index: usize,
        group: usize,
        group_layout: u32,
        offsets: Vec<u32>,
        late_sizes: Vec<u64>,
    ) -> (count: usize)
        requires
            index < old(self).slots@.len(),
            old(self).required@.len() <= 32,
            old(self).required@.len() <= old(self).slots@.len(),
        ensures
            ({
                let (b2, c) = spec_assign_group(
                    old(self)@,
                    index as int,
                    group,
                    group_layout,
                    offsets@,
                    late_sizes@,
                );
                final(self)@ == b2 && count == c
            }),
    {
        let ghost oldb = self@;
        let prev_layout = self.slots[index].layout;
        self.slots[index] = BinderSlot {
            group: Some(group),
            layout: Some(group_layout),
            dynamic_offsets: offsets,
            late_sizes,
        };
        proof {
            assert(self@.slots =~= oldb.slots.update(
                index as int,
                SlotV {
                    group: Some(group),
                    layout: Some(group_layout),
                    dynamic_offsets: offsets@,
                    late_sizes: late_sizes@,
                },
            ));
        }
        self.recompute_mask();
        proof {
            assert(self@ =~= spec_assign_group(
                oldb,
                index as int,
                group,
                group_layout,
                offsets@,
                late_sizes@,
            ).0);
        }
        let count: usize;
        if self.layout_id.is_none() {
            count = 0;
        } else if !self.slot_compat_at(index) {
            count = 0;
        } else if prev_layout == Some(group_layout) {
            count = 1;
        } else {
            let n = self.required.len();
            let mut j: usize = index;
            while j < n && self.slot_compat_at(j)
                invariant
                    index <= j <= n,
                    n == self.required@.len(),
                    n <= self.slots@.len(),
                    compat_run(self@.required, self@.slots, index as int) == (j - index)
                        + compat_run(self@.required, self@.slots, j as int),
                decreases n - j,
            {
                j = j + 1;
            }
            count = j - index;
        }
        count
    }

    /// Switch to a new pipeline layout, keeping the satisfied prefix of
    /// slots; returns the first slot to re-emit and how many follow it.
    pub fn change_pipeline_layout(&mut self, layout: &PipelineLayout) -> (r: (usize, usize))
        requires
            layout.group_layouts@.len() <= 32,
            layout.group_layouts@.len() <= old(self).slots@.len(),
            old(self).required@.len() <= old(self).slots@.len(),
        ensures
            ({
                let (b2, s, c) = spec_change_layout(old(self)@, layout.id, layout.group_layouts@);
                final(self)@ == b2 && r.0 == s && r.1 == c
            }),
    {
        let ghost oldb = self@;
        let old_len = self.required.len();
        let new_len = layout.group_layouts.len();
        let max_len = if old_len > new_len {
            old_len
        } else {
            new_len
        };
        // First slot whose expectation changes.
        let mut s: usize = 0;
        while s < max_len && self.expectation_same_at(layout, s)
            invariant
                s <= max_len,
                old_len == self.required@.len(),
                new_len == layout.group_layouts@.len(),
                max_len == vstd::math::max(old_len as int, new_len as int),
                self@ == oldb,
                first_diff(oldb.required, layout.group_layouts@, 0) == first_diff(
                    oldb.required,
                    layout.group_layouts@,
                    s as int,
                ),
            decreases max_len - s,
        {
            s = s + 1;
        }
        proof {
            assert(first_diff(oldb.required, layout.group_layouts@, s as int) == s as int);
        }
        // First slot that does not satisfy the new layout.
        let mut fi: usize = 0;
        while fi < new_len && self.slot_matches_new_at(layout, fi)
            invariant
                fi <= new_len,
                new_len == layout.group_layouts@.len(),
                new_len <= self.slots@.len(),
                self@ == oldb,
                first_mismatch(oldb.slots, layout.group_layouts@, 0) == first_mismatch(
                    oldb.slots,
                    layout.group_layouts@,
                    fi as int,
                ),
            decreases new_len - fi,
        {
            fi = fi + 1;
        }
        proof {
            assert(first_mismatch(oldb.slots, layout.group_layouts@, fi as int) == fi as int);
        }
        // Drop every slot at or after the first incompatibility.
        let total = self.slots.len();
        let mut j: usize = fi;
        while j < total
            invariant
                fi <= j <= total,
                total == self.slots@.len(),
                self.layout_id == oldb.layout_id,
                self.required@ == oldb.required,
                self.invalid_mask == oldb.invalid_mask,
                self@.slots.len() == oldb.slots.len(),
                forall|k: int| 0 <= k < fi ==> self@.slots[k] == oldb.slots[k],
                forall|k: int| fi <= k < j ==> self@.slots[k] == empty_slot(),
                forall|k: int| j <= k < total ==> self@.slots[k] == oldb.slots[k],
            decreases total - j,
        {
            let ghost pre = self@.slots;
            self.slots[j] = BinderSlot {
                group: None,
                layout: None,
                dynamic_offsets: Vec::new(),
                late_sizes: Vec::new(),
            };
            proof {
                assert forall|k: int| fi <= k < j + 1 implies self@.slots[k] == empty_slot() by {
                    if k == j {
                        assert(self@.slots[k] =~= empty_slot());
                    } else {
                        assert(self@.slots[k] == pre[k]);
                    }
                }
            }
            j = j + 1;
        }
        self.layout_id = Some(layout.id);
        self.required = clone_vec(&layout.group_layouts);
        self.recompute_mask();
        proof {
            let (b2, ss, cc) = spec_change_layout(oldb, layout.id, layout.group_layouts@);
            assert(self@.slots =~= b2.slots);
            assert(self@ =~= b2);
        }
        (
            s,
            if fi > s {
                fi - s
            } else {
                0
            },
        )
    }

    /// Check every late-validated buffer binding of every slot against the
    /// shader-required minimum sizes of the current pipeline.
    pub fn check_late_buffer_bindings(&self, late_groups: &Vec<LateSizedGroup>) -> (r: Option<
        LateMinBufferBindingSizeMismatch,
    >)
        requires
            late_groups@.len() <= 32,
        ensures
            r == spec_check_late(self@.slots, late_groups@, 0),
    {
        let n = late_groups.len();
        let mut g: usize = 0;
        while g < n
            invariant
                g <= n,
                n == late_groups@.len(),
                n <= 32,
                spec_check_late(self@.slots, late_groups@, 0) == spec_check_late(
                    self@.slots,
                    late_groups@,
                    g as int,
                ),
            decreases n - g,
        {
            let mins = &late_groups[g].min_sizes;
            let m = mins.len();
            let ghost late_sizes_v = if (g as int) < self@.slots.len() {
                self@.slots[g as int].late_sizes
            } else {
                Seq::<u64>::empty()
            };
            let mut k: usize = 0;
            while k < m
                invariant
                    k <= m,
                    g < n,
                    n == late_groups@.len(),
                    n <= 32,
                    spec_check_late(self@.slots, late_groups@, 0) == spec_check_late(
                        self@.slots,
                        late_groups@,
                        g as int,
                    ),
                    m == late_groups@[g as int].min_sizes@.len(),
                    mins@ == late_groups@[g as int].min_sizes@,
                    late_sizes_v == (if (g as int) < self@.slots.len() {
                        self@.slots[g as int].late_sizes
                    } else {
                        Seq::<u64>::empty()
                    }),
                    spec_late_group_err(late_sizes_v, mins@, g as int, 0) == spec_late_group_err(
                        late_sizes_v,
                        mins@,
                        g as int,
                        k as int,
                    ),
                decreases m - k,
            {
                let bound: u64 = if g < self.slots.len() {
                    let ls = &self.slots[g].late_sizes;
                    if k < ls.len() {
                        ls[k]
                    } else {
                        0
                    }
                } else {
                    0
                };
                let min = mins[k];
                if bound < min {
                    let e = LateMinBufferBindingSizeMismatch {
                        group_index: g as u32,
                        binding_index: k,
                        shader_size: min,
                        bound_size: bound,
                    };
                    proof {
                        assert(spec_late_group_err(late_sizes_v, mins@, g as int, k as int)
                            == Some(e));
                        assert(spec_check_late(self@.slots, late_groups@, g as int) == Some(e));
                    }
                    return Some(e);
                }
                k = k + 1;
            }
            proof {
                assert(spec_late_group_err(late_sizes_v, mins@, g as int, 0) is None);
            }
            g = g + 1;
        }
        None
    }
}

} // verus!
