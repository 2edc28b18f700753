//! Resource usage tracking: the per-dispatch usage scope, the pass-wide
//! first/last usage trackers, and the barrier computation that merges a
//! pass's trackers into the parent command buffer's.

use vstd::prelude::*;

use crate::data::spec_usages_compatible;
use crate::data::usages_compatible;
use crate::errors::ResourceKind;
use crate::hal::HalCommand;
use crate::hal::HalOp;

verus! {

/// The usage scope of one dispatch: for each resource index of one class,
/// the union of hardware usages observed so far (0 when untouched).
pub struct UsageTrack {
    pub states: Vec<u32>,
}

/// Per-resource first and last usage of one class, accumulated across the
/// dispatches of a pass (the intermediate tracker) or across the passes of a
/// command buffer (the persistent tracker). `None` means the resource has not
/// been used yet.
pub struct FirstLastTrack {
    pub entries: Vec<Option<(u32, u32)>>,
}

/// Merging `usage` into a scope: the union must remain simultaneously
/// allowed, else the combined usage is reported.
pub open spec fn spec_merge(states: Seq<u32>, idx: int, usage: u32) -> Result<Seq<u32>, u32> {
    let combined = states[idx] | usage;
    if spec_usages_compatible(combined) {
        Ok(states.update(idx, combined))
    } else {
        Err(combined)
    }
}

/// Moving one resource out of the scope and into a first/last tracker.
/// Returns the new tracker entries, the new scope states, and the transition
/// `(from, to)` if a barrier is needed.
pub open spec fn spec_absorb(
    entries: Seq<Option<(u32, u32)>>,
    states: Seq<u32>,
    idx: int,
) -> (Seq<Option<(u32, u32)>>, Seq<u32>, Option<(u32, u32)>) {
    let u = states[idx];
    if u == 0 {
        (entries, states, None)
    } else {
        let states2 = states.update(idx, 0u32);
        match entries[idx] {
            None => (entries.update(idx, Some((u, u))), states2, None),
            Some((first, last)) => if last != u {
                (entries.update(idx, Some((first, u))), states2, Some((last, u)))
            } else {
                (entries, states2, None)
            },
        }
    }
}

/// The barrier command for one transition of one resource.
pub open spec fn spec_barrier_op(kind: ResourceKind, idx: int, from: u32, to: u32) -> HalOp {
    match kind {
        ResourceKind::Buffer => HalOp::BufferBarrier { buffer: idx, from, to },
        ResourceKind::Texture => HalOp::TextureBarrier { texture: idx, from, to },
    }
}

/// Merging one intermediate-tracker entry into a persistent tracker: a
/// resource first seen by this pass is adopted silently; one already known
/// needs a barrier iff its last known state differs from the pass's first
/// use.
pub open spec fn spec_merge_entry(
    persistent: Seq<Option<(u32, u32)>>,
    idx: int,
    inter: Option<(u32, u32)>,
) -> (Seq<Option<(u32, u32)>>, Option<(u32, u32)>) {
    match inter {
        None => (persistent, None),
        Some((first, last)) => match persistent[idx] {
            None => (persistent.update(idx, Some((first, last))), None),
            Some((pfirst, plast)) => (
                persistent.update(idx, Some((pfirst, last))),
                if plast != first {
                    Some((plast, first))
                } else {
                    None
                },
            ),
        },
    }
}

/// Merging a whole intermediate tracker into a persistent one, walking
/// resource indices upward from `i` and collecting the barrier prelude.
pub open spec fn spec_merge_all(
    persistent: Seq<Option<(u32, u32)>>,
    inter: Seq<Option<(u32, u32)>>,
    i: int,
    kind: ResourceKind,
) -> (Seq<Option<(u32, u32)>>, Seq<HalOp>)
    decreases inter.len() - i,
{
    if i < 0 || i >= inter.len() {
        (persistent, Seq::empty())
    } else {
        let (p1, b) = spec_merge_entry(persistent, i, inter[i]);
        let (p2, rest) = spec_merge_all(p1, inter, i + 1, kind);
        match b {
            None => (p2, rest),
            Some((from, to)) => (p2, seq![spec_barrier_op(kind, i, from, to)] + rest),
        }
    }
}

impl UsageTrack {
    /// A scope over `n` resources, none of them used yet.
    pub fn new_sized(n: usize) -> (r: UsageTrack)
        ensures
            r.states@ == Seq::new(n as nat, |i: int| 0u32),
    {
        let mut states: Vec<u32> = Vec::new();
        let mut i: usize = 0;
        while i < n
            invariant
                i <= n,
                states@.len() == i,
                forall|j: int| 0 <= j < i ==> states@[j] == 0u32,
            decreases n - i,
        {
            states.push(0u32);
            i = i + 1;
        }
        proof {
            assert(states@ =~= Seq::new(n as nat, |i: int| 0u32));
        }
        UsageTrack { states }
    }

    /// Merge one use of one resource, rejecting disallowed aliasing.
    pub fn merge_one(&mut self, idx: usize, usage: u32) -> (r: Result<(), u32>)
        requires
            idx < old(self).states@.len(),
        ensures
            match spec_merge(old(self).states@, idx as int, usage) {
                Ok(states2) => r is Ok && final(self).states@ == states2,
                Err(combined) => r == Err::<(), u32>(combined) && final(self).states@ == old(
                    self,
                ).states@,
            },
    {
        let combined = self.states[idx] | usage;
        if usages_compatible(combined) {
            self.states[idx] = combined;
            Ok(())
        } else {
            Err(combined)
        }
    }
}

impl FirstLastTrack {
    /// A tracker over `n` resources, none of them seen yet.
    pub fn new_sized(n: usize) -> (r: FirstLastTrack)
        ensures
            r.entries@ == Seq::new(n as nat, |i: int| None::<(u32, u32)>),
    {
        let mut entries: Vec<Option<(u32, u32)>> = Vec::new();
        let mut i: usize = 0;
        while i < n
            invariant
                i <= n,
                entries@.len() == i,
                forall|j: int| 0 <= j < i ==> entries@[j] == None::<(u32, u32)>,
            decreases n - i,
        {
            entries.push(None);
            i = i + 1;
        }
        proof {
            assert(entries@ =~= Seq::new(n as nat, |i: int| None::<(u32, u32)>));
        }
        FirstLastTrack { entries }
    }

    /// Grow the tracker to cover `n` resources, keeping what it knows.
    pub fn grow_to(&mut self, n: usize)
        ensures
            final(self).entries@.len() == vstd::math::max(old(self).entries@.len() as int, n as int),
            forall|j: int|
                0 <= j < final(self).entries@.len() ==> final(self).entries@[j] == (if j < old(
                    self,
                ).entries@.len() {
                    old(self).entries@[j]
                } else {
                    None::<(u32, u32)>
                }),
    {
        let ghost orig = self.entries@;
        while self.entries.len() < n
            invariant
                self.entries@.len() >= orig.len(),
                self.entries@.len() <= n || self.entries@.len() == orig.len(),
                forall|j: int| 0 <= j < orig.len() ==> self.entries@[j] == orig[j],
                forall|j: int|
                    orig.len() <= j < self.entries@.len() ==> self.entries@[j] == None::<(
                        u32,
                        u32,
                    )>,
            decreases n - self.entries.len(),
        {
            self.entries.push(None);
        }
    }

    /// Move one resource out of `scope` into this tracker; the returned
    /// transition, if any, must be emitted as a barrier.
    pub fn absorb(&mut self, scope: &mut UsageTrack, idx: usize) -> (r: Option<(u32, u32)>)
        requires
            idx < old(self).entries@.len(),
            idx < old(scope).states@.len(),
        ensures
            ({
                let (e2, s2, b) = spec_absorb(old(self).entries@, old(scope).states@, idx as int);
                final(self).entries@ == e2 && final(scope).states@ == s2 && r == b
            }),
    {
        let u = scope.states[idx];
        if u == 0 {
            None
        } else {
            scope.states[idx] = 0;
            let entry = self.entries[idx];
            match entry {
                None => {
                    self.entries[idx] = Some((u, u));
                    None
                },
                Some((first, last)) => {
                    if last != u {
                        self.entries[idx] = Some((first, u));
                        Some((last, u))
                    } else {
                        None
                    }
                },
            }
        }
    }

    /// Merge one entry of an intermediate tracker into this persistent one;
    /// the returned transition, if any, needs a barrier in the prelude.
    fn merge_entry(&mut self, idx: usize, inter: Option<(u32, u32)>) -> (r: Option<(u32, u32)>)
        requires
            idx < old(self).entries@.len(),
        ensures
            ({
                let (p2, b) = spec_merge_entry(old(self).entries@, idx as int, inter);
                final(self).entries@ == p2 && r == b
            }),
    {
        match inter {
            None => None,
            Some((first, last)) => {
                let entry = self.entries[idx];
                match entry {
                    None => {
                        self.entries[idx] = Some((first, last));
                        None
                    },
                    Some((pfirst, plast)) => {
                        self.entries[idx] = Some((pfirst, last));
                        if plast != first {
                            Some((plast, first))
                        } else {
                            None
                        }
                    },
                }
            },
        }
    }

    /// Merge a pass's intermediate tracker into this persistent tracker,
    /// appending the barrier prelude to `out` in resource-index order.
    pub fn merge_from(
        &mut self,
        inter: &FirstLastTrack,
        kind: ResourceKind,
        out: &mut Vec<HalCommand>,
    )
        requires
            inter.entries@.len() <= old(self).entries@.len(),
        ensures
            ({
                let (p2, ops) = spec_merge_all(old(self).entries@, inter.entries@, 0, kind);
                final(self).entries@ == p2 && ops_of(final(out)@) == ops_of(old(out)@) + ops
            }),
    {
        let ghost orig = self.entries@;
        let ghost orig_out = out@;
        let ghost full = spec_merge_all(orig, inter.entries@, 0, kind);
        let n = inter.entries.len();
        let mut i: usize = 0;
        while i < n
            invariant
                i <= n,
                n == inter.entries@.len(),
                n <= self.entries@.len(),
                self.entries@.len() == orig.len(),
                full == spec_merge_all(orig, inter.entries@, 0, kind),
                spec_merge_all(self.entries@, inter.entries@, i as int, kind).0 == full.0,
                ops_of(out@) + spec_merge_all(self.entries@, inter.entries@, i as int, kind).1
                    == ops_of(orig_out) + full.1,
            decreases n - i,
        {
            let ghost pre = self.entries@;
            let ghost pre_out = out@;
            let b = self.merge_entry(i, inter.entries[i]);
            match b {
                None => {},
                Some((from, to)) => {
                    let cmd = match kind {
                        ResourceKind::Buffer => HalCommand::BufferBarrier { buffer: i, from, to },
                        ResourceKind::Texture => HalCommand::TextureBarrier {
                            texture: i,
                            from,
                            to,
                        },
                    };
                    proof {
                        assert(cmd@ == spec_barrier_op(kind, i as int, from, to));
                    }
                    out.push(cmd);
                },
            }
            proof {
                let (p1, bb) = spec_merge_entry(pre, i as int, inter.entries@[i as int]);
                assert(spec_merge_all(pre, inter.entries@, i as int, kind) == {
                    let (p2, rest) = spec_merge_all(p1, inter.entries@, i as int + 1, kind);
                    match bb {
                        None => (p2, rest),
                        Some((from, to)) => (
                            p2,
                            seq![spec_barrier_op(kind, i as int, from, to)] + rest,
                        ),
                    }
                });
                assert(ops_of(out@) + spec_merge_all(
                    self.entries@,
                    inter.entries@,
                    i as int + 1,
                    kind,
                ).1 =~= ops_of(orig_out) + full.1) by {
                    assert(ops_of(out@) =~= ops_of(pre_out) + ops_of(
                        out@.subrange(pre_out.len() as int, out@.len() as int),
                    ));
                };
            }
            i = i + 1;
        }
    }
}

/// The trace, viewed mathematically: each command replaced by its view.
pub open spec fn ops_of(cmds: Seq<HalCommand>) -> Seq<HalOp> {
    cmds.map_values(|c: HalCommand| c@)
}

pub proof fn lemma_ops_push(cmds: Seq<HalCommand>, c: HalCommand)
    ensures
        ops_of(cmds.push(c)) == ops_of(cmds).push(c@),
{
    assert(ops_of(cmds.push(c)) =~= ops_of(cmds).push(c@));
}

/// What one persistent-tracker entry becomes once an intermediate entry is
/// merged into it.
pub open spec fn spec_merged_value(
    persistent: Option<(u32, u32)>,
    inter: Option<(u32, u32)>,
) -> Option<(u32, u32)> {
    match inter {
        None => persistent,
        Some((first, last)) => match persistent {
            None => Some((first, last)),
            Some((pfirst, plast)) => Some((pfirst, last)),
        },
    }
}

/// The transition a resource needs in the barrier prelude: its last state
/// known to the command buffer, into its first use by the pass - if both
/// exist and differ.
pub open spec fn spec_needed_transition(
    persistent: Option<(u32, u32)>,
    inter: Option<(u32, u32)>,
) -> Option<(u32, u32)> {
    match (persistent, inter) {
        (Some((pfirst, plast)), Some((first, last))) => if plast != first {
            Some((plast, first))
        } else {
            None
        },
        _ => None,
    }
}

/// The resource index a barrier command speaks of; -1 for other commands.
pub open spec fn barrier_idx(op: HalOp) -> int {
    match op {
        HalOp::BufferBarrier { buffer, from, to } => buffer,
        HalOp::TextureBarrier { texture, from, to } => texture,
        _ => -1,
    }
}

/// Barrier minimality: the prelude computed by [`spec_merge_all`] holds
/// exactly one barrier for each resource whose last known state differs from
/// its first use in the pass - none missing, none duplicated (the indices
/// are strictly increasing), none for any other resource - and the
/// persistent tracker ends up with every intermediate entry merged in.
pub proof fn lemma_merge_all_barriers(
    persistent: Seq<Option<(u32, u32)>>,
    inter: Seq<Option<(u32, u32)>>,
    i: int,
    kind: ResourceKind,
)
    requires
        0 <= i,
        inter.len() <= persistent.len(),
    ensures
        ({
            let (p2, ops) = spec_merge_all(persistent, inter, i, kind);
            &&& p2.len() == persistent.len()
            &&& forall|j: int|
                0 <= j < persistent.len() && !(i <= j < inter.len()) ==> p2[j] == persistent[j]
            &&& forall|j: int|
                i <= j < inter.len() ==> p2[j] == spec_merged_value(persistent[j], inter[j])
            &&& forall|k: int|
                0 <= k < ops.len() ==> {
                    let idx = barrier_idx(#[trigger] ops[k]);
                    &&& i <= idx < inter.len()
                    &&& spec_needed_transition(persistent[idx], inter[idx]) matches Some(ft)
                        && ops[k] == spec_barrier_op(kind, idx, ft.0, ft.1)
                }
            &&& forall|k1: int, k2: int|
                0 <= k1 < k2 < ops.len() ==> barrier_idx(#[trigger] ops[k1]) < barrier_idx(
                    #[trigger] ops[k2],
                )
            &&& forall|j: int|
                i <= j < inter.len() ==> (#[trigger] spec_needed_transition(
                    persistent[j],
                    inter[j],
                ) matches Some(ft) ==> ops.contains(spec_barrier_op(kind, j, ft.0, ft.1)))
        }),
    decreases inter.len() - i,
{
    if i >= inter.len() {
        return ;
    }
    let (p1, b) = spec_merge_entry(persistent, i, inter[i]);
    lemma_merge_all_barriers(p1, inter, i + 1, kind);
    let (p2, rest) = spec_merge_all(p1, inter, i + 1, kind);
    let (pf, ops) = spec_merge_all(persistent, inter, i, kind);
    assert(p1.len() == persistent.len());
    assert(forall|j: int| 0 <= j < persistent.len() && j != i ==> p1[j] == persistent[j]);
    assert(p2 == pf);
    assert(b == spec_needed_transition(persistent[i], inter[i]));
    match b {
        None => {
            assert(ops == rest);
        },
        Some((from, to)) => {
            let head = seq![spec_barrier_op(kind, i, from, to)];
            assert(ops == head + rest);
            assert(ops[0] == spec_barrier_op(kind, i, from, to));
            assert(forall|k: int| 1 <= k < ops.len() ==> ops[k] == rest[k - 1]);
            assert(barrier_idx(ops[0]) == i);
        },
    }
    // Completeness: a needed transition at j > i is found in the tail.
    assert forall|j: int|
        i <= j < inter.len() && spec_needed_transition(persistent[j], inter[j]) is Some implies {
        let ft = spec_needed_transition(persistent[j], inter[j]).unwrap();
        ops.contains(spec_barrier_op(kind, j, ft.0, ft.1))
    } by {
        let ft = spec_needed_transition(persistent[j], inter[j]).unwrap();
        let op = spec_barrier_op(kind, j, ft.0, ft.1);
        if j == i {
            assert(ops[0] == op);
        } else {
            assert(spec_needed_transition(p1[j], inter[j]) == spec_needed_transition(
                persistent[j],
                inter[j],
            ));
            assert(rest.contains(op));
            let k = choose|k: int| 0 <= k < rest.len() && rest[k] == op;
            if b is Some {
                assert(ops[k + 1] == op);
            } else {
                assert(ops[k] == op);
            }
        }
    }
}

} // verus!
