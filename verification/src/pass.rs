//! The transient compute pass: the record under construction, the parent
//! encoder reference, and the redundancy filter that drops repeated
//! `SetBindGroup` / `SetPipeline` commands at record time.

use vstd::prelude::*;

use crate::data::MAX_BIND_GROUPS;
use crate::errors::ComputePassErrorInner;
use crate::global::Global;
use crate::global::ResV;
use crate::global::res_of;
use crate::record::BasePass;
use crate::record::Command;
use crate::record::RecordV;
use crate::record::wf_record;

verus! {

/// Describes the writing of timestamp values in a compute pass.
#[derive(Clone, Copy, PartialEq, Eq, Structural, Debug)]
pub struct ComputePassTimestampWrites {
    /// The query set to write the timestamps to.
    pub query_set: usize,
    /// The query index at which a start timestamp is written, if any.
    pub beginning_of_pass_write_index: Option<u32>,
    /// The query index at which an end timestamp is written, if any.
    pub end_of_pass_write_index: Option<u32>,
}

#[derive(Debug)]
pub struct ComputePassDescriptor {
    pub label: Option<String>,
    /// Defines where and when timestamp values will be written for this pass.
    pub timestamp_writes: Option<ComputePassTimestampWrites>,
}

/// What the redundancy filter remembers of one bind-group slot.
pub struct FilterSlot {
    pub group: usize,
    pub offsets: Vec<u32>,
}

/// Mathematical form of one filter slot.
#[verifier::ext_equal]
pub ghost struct FilterSlotV {
    pub group: usize,
    pub offsets: Seq<u32>,
}

impl View for FilterSlot {
    type V = FilterSlotV;

    open spec fn view(&self) -> FilterSlotV {
        FilterSlotV { group: self.group, offsets: self.offsets@ }
    }
}

/// A compute pass, created by an encoder and consumed by `compute_pass_end`.
pub struct ComputePass {
    /// The record; `None` once the pass has ended, after which every
    /// operation fails with `PassEnded`.
    pub base: Option<BasePass>,
    /// The parent command buffer; `None` marks an invalid pass, whose end
    /// fails with `InvalidParentEncoder`.
    pub parent: Option<usize>,
    pub timestamp_writes: Option<ComputePassTimestampWrites>,
    /// Redundancy-filter state: the last group and offsets per slot.
    pub current_bind_groups: Vec<Option<FilterSlot>>,
    /// Redundancy-filter state: the last pipeline set.
    pub current_pipeline: Option<usize>,
}

/// Mathematical form of a pass.
#[verifier::ext_equal]
pub ghost struct PassV {
    pub base: Option<RecordV>,
    pub parent: Option<usize>,
    pub timestamp_writes: Option<ComputePassTimestampWrites>,
    pub filter_groups: Seq<Option<FilterSlotV>>,
    pub filter_pipeline: Option<usize>,
}

impl View for ComputePass {
    type V = PassV;

    open spec fn view(&self) -> PassV {
        PassV {
            base: match self.base {
                Some(b) => Some(b@),
                None => None,
            },
            parent: self.parent,
            timestamp_writes: self.timestamp_writes,
            filter_groups: Seq::new(
                self.current_bind_groups@.len(),
                |i: int|
                    match self.current_bind_groups@[i] {
                        Some(s) => Some(s@),
                        None => None,
                    },
            ),
            filter_pipeline: self.current_pipeline,
        }
    }
}

/// Whether the resources one command names exist in the global tables.
pub open spec fn cmd_ok(c: Command, rs: ResV) -> bool {
    match c {
        Command::SetBindGroup { bind_group, .. } => bind_group < rs.bind_groups.len(),
        Command::SetPipeline { pipeline } => pipeline < rs.compute_pipelines.len(),
        Command::DispatchIndirect { buffer, .. } => buffer < rs.buffers.len(),
        Command::WriteTimestamp { query_set, .. } => query_set < rs.query_sets.len(),
        Command::BeginPipelineStatisticsQuery { query_set, .. } => query_set
            < rs.query_sets.len(),
        _ => true,
    }
}

/// Every resource a recorded command names exists in the global tables.
pub open spec fn wf_cmds(cmds: Seq<Command>, rs: ResV) -> bool {
    forall|k: int| 0 <= k < cmds.len() ==> cmd_ok(#[trigger] cmds[k], rs)
}

pub proof fn lemma_wf_cmds_push(cmds: Seq<Command>, c: Command, rs: ResV)
    requires
        wf_cmds(cmds, rs),
        cmd_ok(c, rs),
    ensures
        wf_cmds(cmds.push(c), rs),
{
    assert forall|k: int| 0 <= k < cmds.push(c).len() implies cmd_ok(
        #[trigger] cmds.push(c)[k],
        rs,
    ) by {
        if k < cmds.len() {
            assert(cmds.push(c)[k] == cmds[k]);
        } else {
            assert(cmds.push(c)[k] == c);
        }
    }
}

/// The pass invariant: the record obeys the side-buffer law, its commands
/// name existing resources, and the parent and timestamp query set exist.
pub open spec fn wf_pass(p: PassV, g: Global) -> bool {
    &&& (p.base matches Some(r) ==> wf_record(r) && wf_cmds(r.commands, res_of(g)))
    &&& (p.parent matches Some(c) ==> c < g.command_buffers@.len())
    &&& (p.timestamp_writes matches Some(tw) ==> tw.query_set < g.query_sets@.len())
    &&& p.filter_groups.len() == MAX_BIND_GROUPS as int
}

/// Whether the filter already holds exactly this binding at this slot.
pub open spec fn filter_redundant(p: PassV, index: u32, gid: usize, offsets: Seq<u32>) -> bool {
    &&& (index as int) < p.filter_groups.len()
    &&& p.filter_groups[index as int] == Some(FilterSlotV { group: gid, offsets })
}

/// The filter after remembering this binding.
pub open spec fn filter_update(p: PassV, index: u32, gid: usize, offsets: Seq<u32>) -> Seq<
    Option<FilterSlotV>,
> {
    if (index as int) < p.filter_groups.len() {
        p.filter_groups.update(index as int, Some(FilterSlotV { group: gid, offsets }))
    } else {
        p.filter_groups
    }
}

impl ComputePass {
    /// A fresh pass over the given parent; an absent parent yields the
    /// invalid pass whose operations all fail at `end`.
    pub(crate) fn new(
        parent: Option<usize>,
        label: Option<String>,
        timestamp_writes: Option<ComputePassTimestampWrites>,
    ) -> (r: ComputePass)
        ensures
            r@.base matches Some(rec) && rec == crate::record::empty_record(rec.label),
            r@.parent == parent,
            r@.timestamp_writes == timestamp_writes,
            r@.filter_groups == Seq::new(
                MAX_BIND_GROUPS as nat,
                |i: int| None::<FilterSlotV>,
            ),
            r@.filter_pipeline is None,
    {
        let mut slots: Vec<Option<FilterSlot>> = Vec::new();
        let mut i: usize = 0;
        while i < MAX_BIND_GROUPS
            invariant
                i <= MAX_BIND_GROUPS,
                slots@.len() == i,
                forall|j: int| 0 <= j < i ==> slots@[j] is None,
            decreases MAX_BIND_GROUPS - i,
        {
            slots.push(None);
            i = i + 1;
        }
        let r = ComputePass {
            base: Some(BasePass::new(label)),
            parent,
            timestamp_writes,
            current_bind_groups: slots,
            current_pipeline: None,
        };
        proof {
            assert(r@.filter_groups =~= Seq::new(MAX_BIND_GROUPS as nat, |i: int| None::<
                FilterSlotV,
            >));
        }
        r
    }

    /// The label the pass was created with, while it is still recording.
    pub fn label(&self) -> (r: Option<&str>)
        ensures
            match r {
                Some(l) => self@.base matches Some(b) && b.label == Some(l@),
                None => self@.base is None || (self@.base matches Some(b) && b.label is None),
            },
    {
        match &self.base {
            Some(b) => match &b.label {
                Some(l) => Some(l.as_str()),
                None => None,
            },
            None => None,
        }
    }
}

/// Recording `SetBindGroup`: fails on an ended pass; a binding equal to what
/// the filter holds for that slot is dropped; otherwise the filter is
/// updated, the group resolved, the offsets appended to the side buffer and
/// the command recorded.
pub open spec fn rec_set_bind_group(
    rs: ResV,
    p: PassV,
    index: u32,
    gid: usize,
    offsets: Seq<u32>,
) -> (PassV, Option<ComputePassErrorInner>) {
    match p.base {
        None => (p, Some(ComputePassErrorInner::PassEnded)),
        Some(r) => {
            if filter_redundant(p, index, gid, offsets) {
                (p, None)
            } else {
                let p2 = PassV { filter_groups: filter_update(p, index, gid, offsets), ..p };
                if gid >= rs.bind_groups.len() {
                    (p2, Some(ComputePassErrorInner::InvalidBindGroupId(gid)))
                } else {
                    let r2 = RecordV {
                        commands: r.commands.push(
                            Command::SetBindGroup {
                                index,
                                num_dynamic_offsets: offsets.len() as usize,
                                bind_group: gid,
                            },
                        ),
                        dynamic_offsets: r.dynamic_offsets + offsets,
                        ..r
                    };
                    (PassV { base: Some(r2), ..p2 }, None)
                }
            }
        },
    }
}

/// Recording `SetPipeline`: fails on an ended pass; a pipeline equal to the
/// last one recorded is dropped; otherwise the filter is updated, the
/// pipeline resolved and the command recorded.
pub open spec fn rec_set_pipeline(rs: ResV, p: PassV, pid: usize) -> (
    PassV,
    Option<ComputePassErrorInner>,
) {
    match p.base {
        None => (p, Some(ComputePassErrorInner::PassEnded)),
        Some(r) => {
            if p.filter_pipeline == Some(pid) {
                (p, None)
            } else {
                let p2 = PassV { filter_pipeline: Some(pid), ..p };
                if pid >= rs.compute_pipelines.len() {
                    (p2, Some(ComputePassErrorInner::InvalidPipeline(pid)))
                } else {
                    let r2 = RecordV {
                        commands: r.commands.push(Command::SetPipeline { pipeline: pid }),
                        ..r
                    };
                    (PassV { base: Some(r2), ..p2 }, None)
                }
            }
        },
    }
}

/// Recording `SetPushConstant`: offset and size must be 4-byte aligned, the
/// word buffer must still be addressable by 32-bit offsets; the data is
/// appended as little-endian words and the command recorded.
pub open spec fn rec_set_push_constant(p: PassV, offset: u32, data: Seq<u8>) -> (
    PassV,
    Option<ComputePassErrorInner>,
) {
    match p.base {
        None => (p, Some(ComputePassErrorInner::PassEnded)),
        Some(r) => {
            if offset % 4 != 0 {
                (p, Some(ComputePassErrorInner::PushConstantOffsetAlignment))
            } else if data.len() % 4 != 0 {
                (p, Some(ComputePassErrorInner::PushConstantSizeAlignment))
            } else if data.len() > u32::MAX as int || r.push_constant_data.len() > u32::MAX as int {
                (p, Some(ComputePassErrorInner::PushConstantOutOfMemory))
            } else {
                let r2 = RecordV {
                    commands: r.commands.push(
                        Command::SetPushConstant {
                            offset,
                            size_bytes: data.len() as u32,
                            values_offset: r.push_constant_data.len() as u32,
                        },
                    ),
                    push_constant_data: r.push_constant_data + le_words(data),
                    ..r
                };
                (PassV { base: Some(r2), ..p }, None)
            }
        },
    }
}

/// The `k`-th little-endian 32-bit word of a byte sequence.
pub open spec fn le_word(b: Seq<u8>, k: int) -> u32 {
    (b[4 * k] as u32 + b[4 * k + 1] as u32 * 0x100 + b[4 * k + 2] as u32 * 0x10000 + b[4 * k + 3]
        as u32 * 0x1000000) as u32
}

/// A byte sequence as little-endian 32-bit words.
pub open spec fn le_words(b: Seq<u8>) -> Seq<u32> {
    Seq::new((b.len() / 4) as nat, |k: int| le_word(b, k))
}

/// Assemble a byte slice into little-endian 32-bit words.
pub fn le_words_exec(data: &[u8]) -> (r: Vec<u32>)
    requires
        data@.len() % 4 == 0,
    ensures
        r@ == le_words(data@),
{
    let len = data.len();
    let n = len / 4;
    let mut r: Vec<u32> = Vec::new();
    let mut k: usize = 0;
    while k < n
        invariant
            k <= n,
            len == data@.len(),
            n == len / 4,
            r@.len() == k,
            forall|j: int| 0 <= j < k ==> r@[j] == le_word(data@, j),
        decreases n - k,
    {
        let w: u32 = data[4 * k] as u32 + data[4 * k + 1] as u32 * 0x100 + data[4 * k + 2] as u32
            * 0x10000 + data[4 * k + 3] as u32 * 0x1000000;
        r.push(w);
        k = k + 1;
    }
    proof {
        assert(r@ =~= le_words(data@));
    }
    r
}

/// Recording a plain command that only needs the pass to be live.
pub open spec fn rec_plain(p: PassV, c: Command) -> (PassV, Option<ComputePassErrorInner>) {
    match p.base {
        None => (p, Some(ComputePassErrorInner::PassEnded)),
        Some(r) => (
            PassV { base: Some(RecordV { commands: r.commands.push(c), ..r }), ..p },
            None,
        ),
    }
}

/// Recording a debug-group push or a debug-marker insert: the label bytes go
/// to the string side buffer, the command keeps only their length.
pub open spec fn rec_label_cmd(p: PassV, c: Command, label: Seq<u8>) -> (
    PassV,
    Option<ComputePassErrorInner>,
) {
    match p.base {
        None => (p, Some(ComputePassErrorInner::PassEnded)),
        Some(r) => (
            PassV {
                base: Some(
                    RecordV {
                        commands: r.commands.push(c),
                        string_data: r.string_data + label,
                        ..r
                    },
                ),
                ..p
            },
            None,
        ),
    }
}

/// Recording a command that resolves one resource index against a table of
/// the given length first.
pub open spec fn rec_resolved(
    p: PassV,
    id: usize,
    table_len: int,
    err: ComputePassErrorInner,
    c: Command,
) -> (PassV, Option<ComputePassErrorInner>) {
    match p.base {
        None => (p, Some(ComputePassErrorInner::PassEnded)),
        Some(r) => {
            if id >= table_len {
                (p, Some(err))
            } else {
                rec_plain(p, c)
            }
        },
    }
}

} // verus!
