//! Replay and finalization: ending a pass walks the recorded commands,
//! validates them against the device and the resources, tracks usage,
//! computes barriers, and emits the hardware command stream.

use vstd::prelude::*;

use crate::binder::Binder;
use crate::binder::BinderV;
use crate::binder::SlotV;
use crate::binder::first_incompat;
use crate::binder::fresh_binder;
use crate::binder::spec_assign_group;
use crate::binder::spec_change_layout;
use crate::binder::spec_check_late;
use crate::binder::wf_binder;
use crate::data::BUFFER_USAGE_INDIRECT;
use crate::data::BUFFER_USE_INDIRECT;
use crate::data::BufferInitAction;
use crate::data::BufferUse;
use crate::data::DISPATCH_INDIRECT_ARGS_SIZE;
use crate::data::Device;
use crate::data::MAX_BIND_GROUPS;
use crate::data::DynamicBindingInfo;
use crate::data::MemoryInitKind;
use crate::data::PipelineLayout;
use crate::data::PushConstantRange;
use crate::data::TextureUse;
use crate::errors::BindError;
use crate::errors::CommandEncoderError;
use crate::errors::ComputePassError;
use crate::errors::ComputePassErrorInner;
use crate::errors::DeviceError;
use crate::errors::DispatchError;
use crate::errors::MissingBufferUsageError;
use crate::errors::PassErrorScope;
use crate::errors::PushConstantUploadError;
use crate::errors::QueryUseError;
use crate::errors::ResourceKind;
use crate::errors::ResourceUsageCompatibilityError;
use crate::global::ResV;
use crate::hal::HalCommand;
use crate::hal::HalOp;
use crate::hal::HalTimestampWrites;
use crate::pass::ComputePassTimestampWrites;
use crate::record::Command;
use crate::record::RecordV;
use crate::global::Global;
use crate::global::res_of;
use crate::global::wf_res;
use crate::global::wf_global;
use crate::global::CommandEncoderStatus;
use crate::record::BasePass;
use crate::track::FirstLastTrack;
use crate::track::UsageTrack;
use crate::track::lemma_ops_push;
use crate::track::ops_of;
use crate::track::spec_absorb;
use crate::track::spec_merge;
use crate::pass::ComputePass;
use crate::pass::cmd_ok;
use crate::util::clone_vec;
use crate::util::contains_usize;
use crate::util::copy_range;
use crate::util::zero_words;
use crate::binder::lemma_compat_run_range;
use crate::binder::lemma_first_mismatch_prefix;
use crate::binder::compat_run;
use crate::binder::first_mismatch;
use crate::binder::slot_compat;

verus! {

/// Mathematical form of the transient replay state.
#[verifier::ext_equal]
pub ghost struct StateV {
    pub binder: BinderV,
    pub pipeline: Option<usize>,
    pub scope_buffers: Seq<u32>,
    pub scope_textures: Seq<u32>,
    pub inter_buffers: Seq<Option<(u32, u32)>>,
    pub inter_textures: Seq<Option<(u32, u32)>>,
    pub debug_scope_depth: int,
    pub dynamic_offset_count: int,
    pub string_offset: int,
    pub active_query: Option<(usize, u32)>,
    pub body: Seq<HalOp>,
    pub buffer_inits: Seq<BufferInitAction>,
    pub texture_fixups: Seq<usize>,
}

/// The transient state the finalizer drives through the command list.
pub struct PassState {
    pub binder: Binder,
    pub pipeline: Option<usize>,
    pub scope_buffers: UsageTrack,
    pub scope_textures: UsageTrack,
    pub inter_buffers: FirstLastTrack,
    pub inter_textures: FirstLastTrack,
    pub debug_scope_depth: usize,
    pub dynamic_offset_count: usize,
    pub string_offset: usize,
    pub active_query: Option<(usize, u32)>,
    /// The pass body: hardware commands emitted so far.
    pub body: Vec<HalCommand>,
    pub buffer_inits: Vec<BufferInitAction>,
    /// Textures needing a zero-clear in the pre-body segment.
    pub texture_fixups: Vec<usize>,
}

impl View for PassState {
    type V = StateV;

    open spec fn view(&self) -> StateV {
        StateV {
            binder: self.binder@,
            pipeline: self.pipeline,
            scope_buffers: self.scope_buffers.states@,
            scope_textures: self.scope_textures.states@,
            inter_buffers: self.inter_buffers.entries@,
            inter_textures: self.inter_textures.entries@,
            debug_scope_depth: self.debug_scope_depth as int,
            dynamic_offset_count: self.dynamic_offset_count as int,
            string_offset: self.string_offset as int,
            active_query: self.active_query,
            body: crate::track::ops_of(self.body@),
            buffer_inits: self.buffer_inits@,
            texture_fixups: self.texture_fixups@,
        }
    }
}

/// Replay-state well-formedness: scopes and trackers cover the resource
/// tables, the binder is sound, and every stored index is in range.
pub open spec fn wf_state(s: StateV, rs: ResV) -> bool {
    &&& wf_binder(s.binder)
    &&& s.scope_buffers.len() == rs.buffers.len()
    &&& s.scope_textures.len() == rs.textures.len()
    &&& s.inter_buffers.len() == rs.buffers.len()
    &&& s.inter_textures.len() == rs.textures.len()
    &&& (s.pipeline matches Some(p) ==> p < rs.compute_pipelines.len())
    &&& forall|i: int|
        0 <= i < s.binder.slots.len() ==> ((#[trigger] s.binder.slots[i]).group matches Some(gi)
            ==> gi < rs.bind_groups.len())
    &&& s.debug_scope_depth >= 0
    &&& s.dynamic_offset_count >= 0
    &&& s.string_offset >= 0
}

/// The first dynamic offset that is unaligned or out of bounds for its
/// binding, from `k` on.
pub open spec fn spec_dyn_err_at(
    bindings: Seq<DynamicBindingInfo>,
    offsets: Seq<u32>,
    group_index: u32,
    k: int,
) -> Option<BindError>
    decreases offsets.len() - k,
{
    if k < 0 || k >= offsets.len() {
        None
    } else {
        let off = offsets[k];
        let info = bindings[k];
        if off % info.alignment != 0 {
            Some(
                BindError::UnalignedDynamicBinding {
                    group: group_index,
                    idx: k as usize,
                    offset: off,
                    alignment: info.alignment,
                },
            )
        } else if off > info.max_offset {
            Some(
                BindError::DynamicBindingOutOfBounds {
                    group: group_index,
                    idx: k as usize,
                    offset: off,
                    max: info.max_offset,
                },
            )
        } else {
            spec_dyn_err_at(bindings, offsets, group_index, k + 1)
        }
    }
}

/// Validating the dynamic offsets handed to a bind group against its layout.
pub open spec fn spec_validate_dynamic(
    bindings: Seq<DynamicBindingInfo>,
    offsets: Seq<u32>,
    group_index: u32,
) -> Option<BindError> {
    if offsets.len() != bindings.len() {
        Some(
            BindError::MismatchedDynamicOffsetCount {
                group: group_index,
                actual: offsets.len() as usize,
                expected: bindings.len() as usize,
            },
        )
    } else {
        spec_dyn_err_at(bindings, offsets, group_index, 0)
    }
}

/// The init actions a bind group's buffer uses require: one per range that
/// needs initialized memory on a buffer not yet initialized.
pub open spec fn spec_buffer_inits(rs: ResV, uses: Seq<BufferUse>, k: int) -> Seq<BufferInitAction>
    decreases uses.len() - k,
{
    if k < 0 || k >= uses.len() {
        Seq::empty()
    } else {
        let u = uses[k];
        let rest = spec_buffer_inits(rs, uses, k + 1);
        if u.kind == MemoryInitKind::NeedsInitializedMemory && !rs.buffers[u.buffer as int].initialized {
            seq![
                BufferInitAction {
                    buffer: u.buffer,
                    start: u.start,
                    end: u.end,
                    kind: MemoryInitKind::NeedsInitializedMemory,
                },
            ] + rest
        } else {
            rest
        }
    }
}

/// The discard fixups a bind group's texture uses require: each discarded
/// texture read with init semantics is queued for a pre-body zero-clear,
/// once.
pub open spec fn spec_texture_fixups(
    rs: ResV,
    uses: Seq<TextureUse>,
    acc: Seq<usize>,
    k: int,
) -> Seq<usize>
    decreases uses.len() - k,
{
    if k < 0 || k >= uses.len() {
        acc
    } else {
        let u = uses[k];
        let acc2 = if u.kind == MemoryInitKind::NeedsInitializedMemory
            && rs.textures[u.texture as int].discarded && !acc.contains(u.texture) {
            acc.push(u.texture)
        } else {
            acc
        };
        spec_texture_fixups(rs, uses, acc2, k + 1)
    }
}

/// The hardware re-binds for `count` slots starting at `start`.
pub open spec fn spec_rebind_ops(b: BinderV, start: int, count: int) -> Seq<HalOp> {
    Seq::new(
        count as nat,
        |k: int|
            HalOp::SetBindGroup {
                layout: b.layout_id.unwrap(),
                index: (start + k) as u32,
                group: b.slots[start + k].group.unwrap() as int,
                dynamic_offsets: b.slots[start + k].dynamic_offsets,
            },
    )
}

/// Replaying `SetBindGroup`: same device, slot within the device limit,
/// dynamic offsets valid; then memory-init bookkeeping, the binder update
/// and the hardware re-binds (deferred while no pipeline layout is set).
pub open spec fn spec_set_bind_group(
    rs: ResV,
    cb_dev: usize,
    rec: RecordV,
    s: StateV,
    index: u32,
    num: usize,
    group: usize,
) -> Result<StateV, ComputePassErrorInner> {
    let bg = rs.bind_groups[group as int];
    let max = rs.devices[cb_dev as int].limits.max_bind_groups;
    if bg.device != cb_dev {
        Err(
            ComputePassErrorInner::Device(
                DeviceError::DeviceMismatch { expected: cb_dev, actual: bg.device },
            ),
        )
    } else if index >= max {
        Err(ComputePassErrorInner::BindGroupIndexOutOfRange { index, max })
    } else {
        let offsets = rec.dynamic_offsets.subrange(
            s.dynamic_offset_count,
            s.dynamic_offset_count + num,
        );
        let s1 = StateV { dynamic_offset_count: s.dynamic_offset_count + num, ..s };
        match spec_validate_dynamic(bg.dynamic_bindings@, offsets, index) {
            Some(e) => Err(ComputePassErrorInner::Bind(e)),
            None => {
                let s2 = StateV {
                    buffer_inits: s1.buffer_inits + spec_buffer_inits(rs, bg.used_buffers@, 0),
                    texture_fixups: spec_texture_fixups(
                        rs,
                        bg.used_textures@,
                        s1.texture_fixups,
                        0,
                    ),
                    ..s1
                };
                let (b2, count) = spec_assign_group(
                    s2.binder,
                    index as int,
                    group,
                    bg.layout,
                    offsets,
                    bg.late_sizes@,
                );
                Ok(
                    StateV {
                        binder: b2,
                        body: s2.body + spec_rebind_ops(b2, index as int, count),
                        ..s2
                    },
                )
            },
        }
    }
}

/// A sequence of `n` zero words.
pub open spec fn zero_seq(n: int) -> Seq<u32> {
    Seq::new(n as nat, |i: int| 0u32)
}

/// The push-constant clears a new pipeline layout requires: one zero upload
/// per declared range.
pub open spec fn spec_pc_clears(layout: PipelineLayout, k: int) -> Seq<HalOp>
    decreases layout.push_constant_ranges@.len() - k,
{
    if k < 0 || k >= layout.push_constant_ranges@.len() {
        Seq::empty()
    } else {
        let r = layout.push_constant_ranges@[k];
        seq![
            HalOp::SetPushConstants {
                layout: layout.id,
                offset: r.start,
                data: zero_seq((r.end - r.start) / 4),
            },
        ] + spec_pc_clears(layout, k + 1)
    }
}

/// Replaying `SetPipeline`: same device; the pipeline is emitted, and when
/// its layout differs from the current one the binder recomputes the
/// compatible prefix, the kept groups are re-bound and the declared
/// push-constant ranges are cleared to zero.
pub open spec fn spec_set_pipeline(rs: ResV, cb_dev: usize, s: StateV, pipeline: usize) -> Result<
    StateV,
    ComputePassErrorInner,
> {
    let p = rs.compute_pipelines[pipeline as int];
    if p.device != cb_dev {
        Err(
            ComputePassErrorInner::Device(
                DeviceError::DeviceMismatch { expected: cb_dev, actual: p.device },
            ),
        )
    } else {
        let s1 = StateV {
            pipeline: Some(pipeline),
            body: s.body + seq![HalOp::SetPipeline { pipeline: pipeline as int }],
            ..s
        };
        if s.binder.layout_id == Some(p.layout.id) {
            Ok(s1)
        } else {
            let (b2, start, count) = spec_change_layout(
                s.binder,
                p.layout.id,
                p.layout.group_layouts@,
            );
            Ok(
                StateV {
                    binder: b2,
                    body: s1.body + spec_rebind_ops(b2, start, count) + spec_pc_clears(
                        p.layout,
                        0,
                    ),
                    ..s1
                },
            )
        }
    }
}

/// Whether some declared range contains the byte range `[offset, end)`.
pub open spec fn range_covered(
    ranges: Seq<PushConstantRange>,
    offset: u32,
    end: int,
    k: int,
) -> bool
    decreases ranges.len() - k,
{
    if k < 0 || k >= ranges.len() {
        false
    } else {
        (ranges[k].start <= offset && end <= ranges[k].end as int) || range_covered(
            ranges,
            offset,
            end,
            k + 1,
        )
    }
}

/// Replaying `SetPushConstant`: a pipeline layout must be current and must
/// declare a range covering the upload; the recorded words are emitted.
pub open spec fn spec_set_push_constant(
    rs: ResV,
    rec: RecordV,
    s: StateV,
    offset: u32,
    size_bytes: u32,
    values_offset: u32,
) -> Result<StateV, ComputePassErrorInner> {
    match s.pipeline {
        None => Err(ComputePassErrorInner::Dispatch(DispatchError::MissingPipeline)),
        Some(p) => {
            let layout = rs.compute_pipelines[p as int].layout;
            let end = offset as int + size_bytes as int;
            if !range_covered(layout.push_constant_ranges@, offset, end, 0) {
                Err(
                    ComputePassErrorInner::PushConstants(
                        PushConstantUploadError::OutOfRange { offset, end_offset: end as u64 },
                    ),
                )
            } else {
                Ok(
                    StateV {
                        body: s.body + seq![
                            HalOp::SetPushConstants {
                                layout: layout.id,
                                offset,
                                data: rec.push_constant_data.subrange(
                                    values_offset as int,
                                    values_offset as int + size_bytes as int / 4,
                                ),
                            },
                        ],
                        ..s
                    },
                )
            }
        },
    }
}

/// Whether a dispatch may run: a pipeline is set, every slot its layout
/// requires holds a matching group, and the late-validated buffer sizes meet
/// the shader minimums.
pub open spec fn spec_is_ready(rs: ResV, s: StateV) -> Option<DispatchError> {
    match s.pipeline {
        None => Some(DispatchError::MissingPipeline),
        Some(p) => {
            match first_incompat(s.binder.required, s.binder.slots, 0) {
                Some(i) => Some(
                    DispatchError::IncompatibleBindGroup { index: i as u32, pipeline: p },
                ),
                None => {
                    match spec_check_late(
                        s.binder.slots,
                        rs.compute_pipelines[p as int].late_sized_groups@,
                        0,
                    ) {
                        Some(e) => Some(DispatchError::BindingSizeTooSmall(e)),
                        None => None,
                    }
                },
            }
        },
    }
}

/// Merging a bind group's buffer uses into the scope.
pub open spec fn merge_uses_buf(scope: Seq<u32>, uses: Seq<BufferUse>, k: int) -> Result<
    Seq<u32>,
    ResourceUsageCompatibilityError,
>
    decreases uses.len() - k,
{
    if k < 0 || k >= uses.len() {
        Ok(scope)
    } else {
        let u = uses[k];
        match spec_merge(scope, u.buffer as int, u.usage) {
            Ok(s2) => merge_uses_buf(s2, uses, k + 1),
            Err(combined) => Err(
                ResourceUsageCompatibilityError {
                    kind: ResourceKind::Buffer,
                    index: u.buffer,
                    usage: combined,
                },
            ),
        }
    }
}

/// Merging a bind group's texture uses into the scope.
pub open spec fn merge_uses_tex(scope: Seq<u32>, uses: Seq<TextureUse>, k: int) -> Result<
    Seq<u32>,
    ResourceUsageCompatibilityError,
>
    decreases uses.len() - k,
{
    if k < 0 || k >= uses.len() {
        Ok(scope)
    } else {
        let u = uses[k];
        match spec_merge(scope, u.texture as int, u.usage) {
            Ok(s2) => merge_uses_tex(s2, uses, k + 1),
            Err(combined) => Err(
                ResourceUsageCompatibilityError {
                    kind: ResourceKind::Texture,
                    index: u.texture,
                    usage: combined,
                },
            ),
        }
    }
}

/// Merging every active bind group's uses into the scope; a conflict within
/// one dispatch is intra-dispatch aliasing and is rejected.
pub open spec fn merge_groups(rs: ResV, b: BinderV, sb: Seq<u32>, st: Seq<u32>, i: int) -> Result<
    (Seq<u32>, Seq<u32>),
    ResourceUsageCompatibilityError,
>
    decreases b.required.len() - i,
{
    if i < 0 || i >= b.required.len() {
        Ok((sb, st))
    } else {
        match b.slots[i].group {
            None => merge_groups(rs, b, sb, st, i + 1),
            Some(gi) => {
                let bg = rs.bind_groups[gi as int];
                match merge_uses_buf(sb, bg.used_buffers@, 0) {
                    Err(e) => Err(e),
                    Ok(sb2) => match merge_uses_tex(st, bg.used_textures@, 0) {
                        Err(e) => Err(e),
                        Ok(st2) => merge_groups(rs, b, sb2, st2, i + 1),
                    },
                }
            },
        }
    }
}

/// The moving state of the absorb phase: both intermediate trackers, both
/// scopes, and the body trace receiving barriers.
#[verifier::ext_equal]
pub ghost struct FlushAcc {
    pub inter_buf: Seq<Option<(u32, u32)>>,
    pub inter_tex: Seq<Option<(u32, u32)>>,
    pub scope_buf: Seq<u32>,
    pub scope_tex: Seq<u32>,
    pub body: Seq<HalOp>,
}

/// Absorb one buffer into the intermediate tracker, emitting its barrier.
pub open spec fn absorb_buf(acc: FlushAcc, idx: int) -> FlushAcc {
    let (i2, s2, b) = spec_absorb(acc.inter_buf, acc.scope_buf, idx);
    FlushAcc {
        inter_buf: i2,
        scope_buf: s2,
        body: match b {
            None => acc.body,
            Some((from, to)) => acc.body.push(HalOp::BufferBarrier { buffer: idx, from, to }),
        },
        ..acc
    }
}

/// Absorb one texture into the intermediate tracker, emitting its barrier.
pub open spec fn absorb_tex(acc: FlushAcc, idx: int) -> FlushAcc {
    let (i2, s2, b) = spec_absorb(acc.inter_tex, acc.scope_tex, idx);
    FlushAcc {
        inter_tex: i2,
        scope_tex: s2,
        body: match b {
            None => acc.body,
            Some((from, to)) => acc.body.push(HalOp::TextureBarrier { texture: idx, from, to }),
        },
        ..acc
    }
}

pub open spec fn absorb_uses_buf(acc: FlushAcc, uses: Seq<BufferUse>, k: int) -> FlushAcc
    decreases uses.len() - k,
{
    if k < 0 || k >= uses.len() {
        acc
    } else {
        absorb_uses_buf(absorb_buf(acc, uses[k].buffer as int), uses, k + 1)
    }
}

pub open spec fn absorb_uses_tex(acc: FlushAcc, uses: Seq<TextureUse>, k: int) -> FlushAcc
    decreases uses.len() - k,
{
    if k < 0 || k >= uses.len() {
        acc
    } else {
        absorb_uses_tex(absorb_tex(acc, uses[k].texture as int), uses, k + 1)
    }
}

/// Move every active bind group's resources out of the scope and into the
/// intermediate trackers, emitting the needed barriers into the body.
pub open spec fn absorb_groups(rs: ResV, b: BinderV, acc: FlushAcc, i: int) -> FlushAcc
    decreases b.required.len() - i,
{
    if i < 0 || i >= b.required.len() {
        acc
    } else {
        match b.slots[i].group {
            None => absorb_groups(rs, b, acc, i + 1),
            Some(gi) => {
                let bg = rs.bind_groups[gi as int];
                let acc2 = absorb_uses_tex(
                    absorb_uses_buf(acc, bg.used_buffers@, 0),
                    bg.used_textures@,
                    0,
                );
                absorb_groups(rs, b, acc2, i + 1)
            },
        }
    }
}

/// The flush protocol run before every dispatch: merge the active groups'
/// usages into the scope (rejecting intra-dispatch aliasing), then move them
/// into the intermediate trackers, computing the inter-dispatch transitions
/// as barriers in the body; an indirect-dispatch buffer joins the second
/// step.
pub open spec fn spec_flush(rs: ResV, s: StateV, indirect: Option<usize>) -> Result<
    StateV,
    ResourceUsageCompatibilityError,
> {
    match merge_groups(rs, s.binder, s.scope_buffers, s.scope_textures, 0) {
        Err(e) => Err(e),
        Ok((sb, st)) => {
            let acc0 = FlushAcc {
                inter_buf: s.inter_buffers,
                inter_tex: s.inter_textures,
                scope_buf: sb,
                scope_tex: st,
                body: s.body,
            };
            let acc1 = absorb_groups(rs, s.binder, acc0, 0);
            let acc2 = match indirect {
                None => acc1,
                Some(bi) => absorb_buf(acc1, bi as int),
            };
            Ok(
                StateV {
                    scope_buffers: acc2.scope_buf,
                    scope_textures: acc2.scope_tex,
                    inter_buffers: acc2.inter_buf,
                    inter_textures: acc2.inter_tex,
                    body: acc2.body,
                    ..s
                },
            )
        },
    }
}

/// Replaying `Dispatch`: the binder must be ready, the scope is flushed, and
/// each workgroup dimension must stay within the device limit.
pub open spec fn spec_dispatch(
    rs: ResV,
    dev: Device,
    s: StateV,
    x: u32,
    y: u32,
    z: u32,
) -> Result<StateV, ComputePassErrorInner> {
    match spec_is_ready(rs, s) {
        Some(d) => Err(ComputePassErrorInner::Dispatch(d)),
        None => match spec_flush(rs, s, None) {
            Err(e) => Err(ComputePassErrorInner::ResourceUsageCompatibility(e)),
            Ok(s1) => {
                let limit = dev.limits.max_compute_workgroups_per_dimension;
                if x > limit || y > limit || z > limit {
                    Err(
                        ComputePassErrorInner::Dispatch(
                            DispatchError::InvalidGroupSize { x, y, z, limit },
                        ),
                    )
                } else {
                    Ok(StateV { body: s1.body + seq![HalOp::Dispatch { x, y, z }], ..s1 })
                }
            },
        },
    }
}

/// The end of the three-word argument range of an indirect dispatch,
/// saturating at the address-space limit.
pub open spec fn indirect_end(offset: u64) -> u64 {
    if offset > u64::MAX - 12 {
        u64::MAX
    } else {
        (offset + 12) as u64
    }
}

/// Replaying `DispatchIndirect`: same device, readiness, the downlevel
/// capability, the argument buffer merged with indirect usage and declared
/// for it, the argument range inside the buffer and registered for init;
/// then the flush and the hardware dispatch.
pub open spec fn spec_dispatch_indirect(
    rs: ResV,
    cb_dev: usize,
    dev: Device,
    s: StateV,
    buffer: usize,
    offset: u64,
) -> Result<StateV, ComputePassErrorInner> {
    let buf = rs.buffers[buffer as int];
    if buf.device != cb_dev {
        Err(
            ComputePassErrorInner::Device(
                DeviceError::DeviceMismatch { expected: cb_dev, actual: buf.device },
            ),
        )
    } else {
        match spec_is_ready(rs, s) {
            Some(d) => Err(ComputePassErrorInner::Dispatch(d)),
            None => {
                if !dev.indirect_execution {
                    Err(ComputePassErrorInner::MissingDownlevelFlags)
                } else {
                    match spec_merge(s.scope_buffers, buffer as int, BUFFER_USE_INDIRECT) {
                        Err(combined) => Err(
                            ComputePassErrorInner::ResourceUsageCompatibility(
                                ResourceUsageCompatibilityError {
                                    kind: ResourceKind::Buffer,
                                    index: buffer,
                                    usage: combined,
                                },
                            ),
                        ),
                        Ok(sb) => {
                            let s1 = StateV { scope_buffers: sb, ..s };
                            if buf.usage & BUFFER_USAGE_INDIRECT == 0 {
                                Err(
                                    ComputePassErrorInner::MissingBufferUsage(
                                        MissingBufferUsageError {
                                            buffer,
                                            actual: buf.usage,
                                            expected: BUFFER_USAGE_INDIRECT,
                                        },
                                    ),
                                )
                            } else if offset as int + 12 > buf.size as int {
                                Err(
                                    ComputePassErrorInner::IndirectBufferOverrun {
                                        offset,
                                        end_offset: indirect_end(offset),
                                        buffer_size: buf.size,
                                    },
                                )
                            } else {
                                let s2 = if !buf.initialized {
                                    StateV {
                                        buffer_inits: s1.buffer_inits.push(
                                            BufferInitAction {
                                                buffer,
                                                start: offset,
                                                end: (offset + 12) as u64,
                                                kind: MemoryInitKind::NeedsInitializedMemory,
                                            },
                                        ),
                                        ..s1
                                    }
                                } else {
                                    s1
                                };
                                match spec_flush(rs, s2, Some(buffer)) {
                                    Err(e) => Err(
                                        ComputePassErrorInner::ResourceUsageCompatibility(e),
                                    ),
                                    Ok(s3) => Ok(
                                        StateV {
                                            body: s3.body + seq![
                                                HalOp::DispatchIndirect {
                                                    buffer: buffer as int,
                                                    offset,
                                                },
                                            ],
                                            ..s3
                                        },
                                    ),
                                }
                            }
                        },
                    }
                }
            },
        }
    }
}

/// Replaying `PushDebugGroup`: the depth grows, the label bytes advance, and
/// the marker reaches the hardware unless labels are discarded.
pub open spec fn spec_push_debug_group(dev: Device, rec: RecordV, s: StateV, len: usize) -> StateV {
    let label = rec.string_data.subrange(s.string_offset, s.string_offset + len);
    StateV {
        debug_scope_depth: s.debug_scope_depth + 1,
        string_offset: s.string_offset + len,
        body: if dev.discard_hal_labels {
            s.body
        } else {
            s.body.push(HalOp::BeginDebugMarker { label })
        },
        ..s
    }
}

/// Replaying `PopDebugGroup`: fails when no debug group is open.
pub open spec fn spec_pop_debug_group(dev: Device, s: StateV) -> Result<
    StateV,
    ComputePassErrorInner,
> {
    if s.debug_scope_depth == 0 {
        Err(ComputePassErrorInner::InvalidPopDebugGroup)
    } else {
        Ok(
            StateV {
                debug_scope_depth: s.debug_scope_depth - 1,
                body: if dev.discard_hal_labels {
                    s.body
                } else {
                    s.body.push(HalOp::EndDebugMarker)
                },
                ..s
            },
        )
    }
}

/// Replaying `InsertDebugMarker`: the label bytes advance; the depth does
/// not change.
pub open spec fn spec_insert_debug_marker(
    dev: Device,
    rec: RecordV,
    s: StateV,
    len: usize,
) -> StateV {
    let label = rec.string_data.subrange(s.string_offset, s.string_offset + len);
    StateV {
        string_offset: s.string_offset + len,
        body: if dev.discard_hal_labels {
            s.body
        } else {
            s.body.push(HalOp::InsertDebugMarker { label })
        },
        ..s
    }
}

/// Replaying `WriteTimestamp`: same device, the feature gate, and the query
/// index within the set.
pub open spec fn spec_write_timestamp(
    rs: ResV,
    cb_dev: usize,
    dev: Device,
    s: StateV,
    query_set: usize,
    query_index: u32,
) -> Result<StateV, ComputePassErrorInner> {
    let q = rs.query_sets[query_set as int];
    if q.device != cb_dev {
        Err(
            ComputePassErrorInner::Device(
                DeviceError::DeviceMismatch { expected: cb_dev, actual: q.device },
            ),
        )
    } else if !dev.timestamp_query_inside_passes {
        Err(ComputePassErrorInner::MissingFeatures)
    } else if query_index >= q.count {
        Err(
            ComputePassErrorInner::QueryUse(
                QueryUseError::OutOfBounds { query_index, query_count: q.count },
            ),
        )
    } else {
        Ok(
            StateV {
                body: s.body + seq![
                    HalOp::WriteTimestamp { query_set: query_set as int, index: query_index },
                ],
                ..s
            },
        )
    }
}

/// Replaying `BeginPipelineStatisticsQuery`: same device, index within the
/// set, and at most one query active at a time.
pub open spec fn spec_begin_stats_query(
    rs: ResV,
    cb_dev: usize,
    s: StateV,
    query_set: usize,
    query_index: u32,
) -> Result<StateV, ComputePassErrorInner> {
    let q = rs.query_sets[query_set as int];
    if q.device != cb_dev {
        Err(
            ComputePassErrorInner::Device(
                DeviceError::DeviceMismatch { expected: cb_dev, actual: q.device },
            ),
        )
    } else if query_index >= q.count {
        Err(
            ComputePassErrorInner::QueryUse(
                QueryUseError::OutOfBounds { query_index, query_count: q.count },
            ),
        )
    } else if s.active_query is Some {
        Err(ComputePassErrorInner::QueryUse(QueryUseError::AlreadyStarted))
    } else {
        Ok(
            StateV {
                active_query: Some((query_set, query_index)),
                body: s.body + seq![
                    HalOp::BeginPipelineStatisticsQuery {
                        query_set: query_set as int,
                        index: query_index,
                    },
                ],
                ..s
            },
        )
    }
}

/// Replaying `EndPipelineStatisticsQuery`: a query must be active.
pub open spec fn spec_end_stats_query(s: StateV) -> Result<StateV, ComputePassErrorInner> {
    match s.active_query {
        None => Err(ComputePassErrorInner::QueryUse(QueryUseError::AlreadyStopped)),
        Some(q) => Ok(
            StateV {
                active_query: None,
                body: s.body + seq![HalOp::EndPipelineStatisticsQuery],
                ..s
            },
        ),
    }
}

/// One replay step: the semantics of one recorded command.
pub open spec fn spec_step(
    rs: ResV,
    cb_dev: usize,
    dev: Device,
    rec: RecordV,
    s: StateV,
    c: Command,
) -> Result<StateV, ComputePassErrorInner> {
    match c {
        Command::SetBindGroup { index, num_dynamic_offsets, bind_group } => spec_set_bind_group(
            rs,
            cb_dev,
            rec,
            s,
            index,
            num_dynamic_offsets,
            bind_group,
        ),
        Command::SetPipeline { pipeline } => spec_set_pipeline(rs, cb_dev, s, pipeline),
        Command::SetPushConstant { offset, size_bytes, values_offset } => spec_set_push_constant(
            rs,
            rec,
            s,
            offset,
            size_bytes,
            values_offset,
        ),
        Command::Dispatch { x, y, z } => spec_dispatch(rs, dev, s, x, y, z),
        Command::DispatchIndirect { buffer, offset } => spec_dispatch_indirect(
            rs,
            cb_dev,
            dev,
            s,
            buffer,
            offset,
        ),
        Command::PushDebugGroup { color, len } => Ok(spec_push_debug_group(dev, rec, s, len)),
        Command::PopDebugGroup => spec_pop_debug_group(dev, s),
        Command::InsertDebugMarker { color, len } => Ok(
            spec_insert_debug_marker(dev, rec, s, len),
        ),
        Command::WriteTimestamp { query_set, query_index } => spec_write_timestamp(
            rs,
            cb_dev,
            dev,
            s,
            query_set,
            query_index,
        ),
        Command::BeginPipelineStatisticsQuery { query_set, query_index } => spec_begin_stats_query(
            rs,
            cb_dev,
            s,
            query_set,
            query_index,
        ),
        Command::EndPipelineStatisticsQuery => spec_end_stats_query(s),
    }
}

/// The error scope under which each command kind replays.
pub open spec fn scope_of(c: Command) -> PassErrorScope {
    match c {
        Command::SetBindGroup { .. } => PassErrorScope::SetBindGroup,
        Command::SetPipeline { .. } => PassErrorScope::SetPipelineCompute,
        Command::SetPushConstant { .. } => PassErrorScope::SetPushConstant,
        Command::Dispatch { .. } => PassErrorScope::Dispatch { indirect: false },
        Command::DispatchIndirect { .. } => PassErrorScope::Dispatch { indirect: true },
        Command::PushDebugGroup { .. } => PassErrorScope::PushDebugGroup,
        Command::PopDebugGroup => PassErrorScope::PopDebugGroup,
        Command::InsertDebugMarker { .. } => PassErrorScope::InsertDebugMarker,
        Command::WriteTimestamp { .. } => PassErrorScope::WriteTimestamp,
        Command::BeginPipelineStatisticsQuery { .. } => {
            PassErrorScope::BeginPipelineStatisticsQuery
        },
        Command::EndPipelineStatisticsQuery => PassErrorScope::EndPipelineStatisticsQuery,
    }
}

/// Replaying the commands from `i` on: the final state, or the index and
/// kind of the first failure.
pub open spec fn spec_run(
    rs: ResV,
    cb_dev: usize,
    dev: Device,
    rec: RecordV,
    s: StateV,
    i: int,
) -> Result<StateV, (int, ComputePassErrorInner)>
    decreases rec.commands.len() - i,
{
    if i < 0 || i >= rec.commands.len() {
        Ok(s)
    } else {
        match spec_step(rs, cb_dev, dev, rec, s, rec.commands[i]) {
            Ok(s2) => spec_run(rs, cb_dev, dev, rec, s2, i + 1),
            Err(e) => Err((i, e)),
        }
    }
}

/// The query-reset and pass-begin commands the finalizer emits before the
/// recorded commands.
pub open spec fn init_body(tsw: Option<ComputePassTimestampWrites>) -> Seq<HalOp> {
    match tsw {
        None => seq![HalOp::BeginComputePass { timestamp_writes: None }],
        Some(tw) => {
            let begin = seq![
                HalOp::BeginComputePass {
                    timestamp_writes: Some(
                        HalTimestampWrites {
                            query_set: tw.query_set,
                            beginning_of_pass_write_index: tw.beginning_of_pass_write_index,
                            end_of_pass_write_index: tw.end_of_pass_write_index,
                        },
                    ),
                },
            ];
            match (tw.beginning_of_pass_write_index, tw.end_of_pass_write_index) {
                (Some(a), Some(b)) => seq![
                    HalOp::ResetQueries {
                        query_set: tw.query_set as int,
                        start: if a <= b {
                            a
                        } else {
                            b
                        },
                        end: ((if a <= b {
                            b
                        } else {
                            a
                        }) as u64 + 1) as u64,
                    },
                ] + begin,
                (Some(a), None) => seq![
                    HalOp::ResetQueries {
                        query_set: tw.query_set as int,
                        start: a,
                        end: (a as u64 + 1) as u64,
                    },
                ] + begin,
                (None, Some(b)) => seq![
                    HalOp::ResetQueries {
                        query_set: tw.query_set as int,
                        start: b,
                        end: (b as u64 + 1) as u64,
                    },
                ] + begin,
                (None, None) => begin,
            }
        },
    }
}

/// The state the finalizer starts replay in.
pub open spec fn init_state(rs: ResV, tsw: Option<ComputePassTimestampWrites>) -> StateV {
    StateV {
        binder: fresh_binder(),
        pipeline: None,
        scope_buffers: Seq::new(rs.buffers.len(), |i: int| 0u32),
        scope_textures: Seq::new(rs.textures.len(), |i: int| 0u32),
        inter_buffers: Seq::new(rs.buffers.len(), |i: int| None::<(u32, u32)>),
        inter_textures: Seq::new(rs.textures.len(), |i: int| None::<(u32, u32)>),
        debug_scope_depth: 0,
        dynamic_offset_count: 0,
        string_offset: 0,
        active_query: None,
        body: init_body(tsw),
        buffer_inits: Seq::empty(),
        texture_fixups: Seq::empty(),
    }
}

/// A tracker grown to cover `n` resources.
pub open spec fn grow_entries(e: Seq<Option<(u32, u32)>>, n: int) -> Seq<Option<(u32, u32)>> {
    Seq::new(
        vstd::math::max(e.len() as int, n) as nat,
        |i: int|
            if i < e.len() {
                e[i]
            } else {
                None
            },
    )
}

/// The pre-body zero-clears for the discard fixups, in registration order.
pub open spec fn fixup_clears(fixups: Seq<usize>) -> Seq<HalOp> {
    Seq::new(fixups.len(), |k: int| HalOp::ClearTexture { texture: fixups[k] as int })
}

/// What ending a pass does once the record is taken: nothing on an invalid
/// device; on a replay error the encoder is poisoned; on success the final
/// state, the pre-body segment and the merged persistent trackers.
#[verifier::ext_equal]
pub ghost enum EndSpec {
    DeviceInvalid,
    ReplayErr { at: int, inner: ComputePassErrorInner },
    Done {
        state: StateV,
        prebody: Seq<HalOp>,
        tracker_buf: Seq<Option<(u32, u32)>>,
        tracker_tex: Seq<Option<(u32, u32)>>,
    },
}

/// The whole finalization, mathematically: device check, replay from the
/// initial state, then the barrier prelude computed by merging the pass's
/// intermediate trackers into the command buffer's persistent ones, behind
/// the discard zero-clears.
pub open spec fn spec_end_impl(
    rs: ResV,
    cb_dev: usize,
    trk_buf: Seq<Option<(u32, u32)>>,
    trk_tex: Seq<Option<(u32, u32)>>,
    rec: RecordV,
    tsw: Option<ComputePassTimestampWrites>,
) -> EndSpec {
    let dev = rs.devices[cb_dev as int];
    if !dev.valid {
        EndSpec::DeviceInvalid
    } else {
        match spec_run(rs, cb_dev, dev, rec, init_state(rs, tsw), 0) {
            Err((k, e)) => EndSpec::ReplayErr { at: k, inner: e },
            Ok(s) => {
                let state = StateV { body: s.body + seq![HalOp::EndComputePass], ..s };
                let tb0 = grow_entries(trk_buf, rs.buffers.len() as int);
                let tt0 = grow_entries(trk_tex, rs.textures.len() as int);
                let (tb, buf_bars) = crate::track::spec_merge_all(
                    tb0,
                    state.inter_buffers,
                    0,
                    ResourceKind::Buffer,
                );
                let (tt, tex_bars) = crate::track::spec_merge_all(
                    tt0,
                    state.inter_textures,
                    0,
                    ResourceKind::Texture,
                );
                EndSpec::Done {
                    state,
                    prebody: fixup_clears(state.texture_fixups) + buf_bars + tex_bars,
                    tracker_buf: tb,
                    tracker_tex: tt,
                }
            },
        }
    }
}

/// Replay one `PushDebugGroup`.
fn replay_push_debug_group(dev: Device, base: &BasePass, st: &mut PassState, len: usize)
    requires
        old(st).string_offset + len <= base.string_data@.len(),
        old(st).debug_scope_depth < usize::MAX,
    ensures
        final(st)@ == spec_push_debug_group(dev, base@, old(st)@, len),
{
    let total = base.string_data.len();
    if !dev.discard_hal_labels {
        let label = copy_range(&base.string_data, st.string_offset, len);
        let ghost pre = st.body@;
        st.body.push(HalCommand::BeginDebugMarker { label });
        proof {
            lemma_ops_push(pre, HalCommand::BeginDebugMarker { label });
        }
    }
    st.debug_scope_depth = st.debug_scope_depth + 1;
    st.string_offset = st.string_offset + len;
    proof {
        assert(st@ =~~= spec_push_debug_group(dev, base@, old(st)@, len));
    }
}

/// Replay one `PopDebugGroup`.
fn replay_pop_debug_group(dev: Device, st: &mut PassState) -> (r: Result<
    (),
    ComputePassErrorInner,
>)
    ensures
        match spec_pop_debug_group(dev, old(st)@) {
            Ok(s2) => r is Ok && final(st)@ == s2,
            Err(e) => r == Err::<(), ComputePassErrorInner>(e),
        },
{
    if st.debug_scope_depth == 0 {
        return Err(ComputePassErrorInner::InvalidPopDebugGroup);
    }
    st.debug_scope_depth = st.debug_scope_depth - 1;
    if !dev.discard_hal_labels {
        let ghost pre = st.body@;
        st.body.push(HalCommand::EndDebugMarker);
        proof {
            lemma_ops_push(pre, HalCommand::EndDebugMarker);
        }
    }
    proof {
        assert(spec_pop_debug_group(dev, old(st)@) is Ok);
        assert(st@ =~~= spec_pop_debug_group(dev, old(st)@).unwrap());
    }
    Ok(())
}

/// Replay one `InsertDebugMarker`.
fn replay_insert_debug_marker(dev: Device, base: &BasePass, st: &mut PassState, len: usize)
    requires
        old(st).string_offset + len <= base.string_data@.len(),
    ensures
        final(st)@ == spec_insert_debug_marker(dev, base@, old(st)@, len),
{
    let total = base.string_data.len();
    if !dev.discard_hal_labels {
        let label = copy_range(&base.string_data, st.string_offset, len);
        let ghost pre = st.body@;
        st.body.push(HalCommand::InsertDebugMarker { label });
        proof {
            lemma_ops_push(pre, HalCommand::InsertDebugMarker { label });
        }
    }
    st.string_offset = st.string_offset + len;
    proof {
        assert(st@ =~~= spec_insert_debug_marker(dev, base@, old(st)@, len));
    }
}

/// Replay one `WriteTimestamp`.
fn replay_write_timestamp(
    g: &Global,
    cb_dev: usize,
    dev: Device,
    st: &mut PassState,
    query_set: usize,
    query_index: u32,
) -> (r: Result<(), ComputePassErrorInner>)
    requires
        query_set < g.query_sets@.len(),
    ensures
        match spec_write_timestamp(res_of(*g), cb_dev, dev, old(st)@, query_set, query_index) {
            Ok(s2) => r is Ok && final(st)@ == s2,
            Err(e) => r == Err::<(), ComputePassErrorInner>(e),
        },
{
    let q = g.query_sets[query_set];
    if q.device != cb_dev {
        return Err(
            ComputePassErrorInner::Device(
                DeviceError::DeviceMismatch { expected: cb_dev, actual: q.device },
            ),
        );
    }
    if !dev.timestamp_query_inside_passes {
        return Err(ComputePassErrorInner::MissingFeatures);
    }
    if query_index >= q.count {
        return Err(
            ComputePassErrorInner::QueryUse(
                QueryUseError::OutOfBounds { query_index, query_count: q.count },
            ),
        );
    }
    let ghost pre = st.body@;
    st.body.push(HalCommand::WriteTimestamp { query_set, index: query_index });
    proof {
        lemma_ops_push(pre, HalCommand::WriteTimestamp { query_set, index: query_index });
        assert(st@ =~~= spec_write_timestamp(
            res_of(*g),
            cb_dev,
            dev,
            old(st)@,
            query_set,
            query_index,
        ).unwrap());
    }
    Ok(())
}

/// Replay one `BeginPipelineStatisticsQuery`.
fn replay_begin_stats_query(
    g: &Global,
    cb_dev: usize,
    st: &mut PassState,
    query_set: usize,
    query_index: u32,
) -> (r: Result<(), ComputePassErrorInner>)
    requires
        query_set < g.query_sets@.len(),
    ensures
        match spec_begin_stats_query(res_of(*g), cb_dev, old(st)@, query_set, query_index) {
            Ok(s2) => r is Ok && final(st)@ == s2,
            Err(e) => r == Err::<(), ComputePassErrorInner>(e),
        },
{
    let q = g.query_sets[query_set];
    if q.device != cb_dev {
        return Err(
            ComputePassErrorInner::Device(
                DeviceError::DeviceMismatch { expected: cb_dev, actual: q.device },
            ),
        );
    }
    if query_index >= q.count {
        return Err(
            ComputePassErrorInner::QueryUse(
                QueryUseError::OutOfBounds { query_index, query_count: q.count },
            ),
        );
    }
    if st.active_query.is_some() {
        return Err(ComputePassErrorInner::QueryUse(QueryUseError::AlreadyStarted));
    }
    st.active_query = Some((query_set, query_index));
    let ghost pre = st.body@;
    st.body.push(HalCommand::BeginPipelineStatisticsQuery { query_set, index: query_index });
    proof {
        lemma_ops_push(
            pre,
            HalCommand::BeginPipelineStatisticsQuery { query_set, index: query_index },
        );
        assert(st@ =~~= spec_begin_stats_query(
            res_of(*g),
            cb_dev,
            old(st)@,
            query_set,
            query_index,
        ).unwrap());
    }
    Ok(())
}

/// Replay one `EndPipelineStatisticsQuery`.
fn replay_end_stats_query(st: &mut PassState) -> (r: Result<(), ComputePassErrorInner>)
    ensures
        match spec_end_stats_query(old(st)@) {
            Ok(s2) => r is Ok && final(st)@ == s2,
            Err(e) => r == Err::<(), ComputePassErrorInner>(e),
        },
{
    if st.active_query.is_none() {
        return Err(ComputePassErrorInner::QueryUse(QueryUseError::AlreadyStopped));
    }
    st.active_query = None;
    let ghost pre = st.body@;
    st.body.push(HalCommand::EndPipelineStatisticsQuery);
    proof {
        lemma_ops_push(pre, HalCommand::EndPipelineStatisticsQuery);
        assert(st@ =~~= spec_end_stats_query(old(st)@).unwrap());
    }
    Ok(())
}

/// Replay one `SetPushConstant`.
fn replay_set_push_constant(
    g: &Global,
    base: &BasePass,
    st: &mut PassState,
    offset: u32,
    size_bytes: u32,
    values_offset: u32,
) -> (r: Result<(), ComputePassErrorInner>)
    requires
        old(st).pipeline matches Some(p) ==> p < g.compute_pipelines@.len(),
        values_offset as int + size_bytes as int / 4 <= base.push_constant_data@.len(),
        size_bytes % 4 == 0,
    ensures
        match spec_set_push_constant(
            res_of(*g),
            base@,
            old(st)@,
            offset,
            size_bytes,
            values_offset,
        ) {
            Ok(s2) => r is Ok && final(st)@ == s2,
            Err(e) => r == Err::<(), ComputePassErrorInner>(e),
        },
{
    let p = match st.pipeline {
        Some(p) => p,
        None => {
            return Err(ComputePassErrorInner::Dispatch(DispatchError::MissingPipeline));
        },
    };
    let layout = &g.compute_pipelines[p].layout;
    let end: u64 = offset as u64 + size_bytes as u64;
    let n = layout.push_constant_ranges.len();
    let mut covered = false;
    let mut k: usize = 0;
    while k < n && !covered
        invariant
            k <= n,
            n == layout.push_constant_ranges@.len(),
            end == offset as int + size_bytes as int,
            range_covered(layout.push_constant_ranges@, offset, end as int, 0) == (covered
                || range_covered(layout.push_constant_ranges@, offset, end as int, k as int)),
        decreases n - k,
    {
        let range = layout.push_constant_ranges[k];
        if range.start <= offset && end <= range.end as u64 {
            covered = true;
        }
        k = k + 1;
    }
    if !covered {
        return Err(
            ComputePassErrorInner::PushConstants(
                PushConstantUploadError::OutOfRange { offset, end_offset: end },
            ),
        );
    }
    let data = copy_range(&base.push_constant_data, values_offset as usize, (size_bytes / 4) as usize);
    let cmd = HalCommand::SetPushConstants { layout: layout.id, offset, data };
    let ghost pre = st.body@;
    st.body.push(cmd);
    proof {
        lemma_ops_push(pre, cmd);
        assert(st@ =~~= spec_set_push_constant(
            res_of(*g),
            base@,
            old(st)@,
            offset,
            size_bytes,
            values_offset,
        ).unwrap());
    }
    Ok(())
}

/// Whether a dispatch may run now; the executable twin of [`spec_is_ready`].
fn is_ready(g: &Global, st: &PassState) -> (r: Option<DispatchError>)
    requires
        wf_res(res_of(*g)),
        wf_state(st@, res_of(*g)),
    ensures
        r == spec_is_ready(res_of(*g), st@),
{
    match st.pipeline {
        None => Some(DispatchError::MissingPipeline),
        Some(p) => {
            match st.binder.first_incompatible() {
                Some(i) => Some(
                    DispatchError::IncompatibleBindGroup { index: i as u32, pipeline: p },
                ),
                None => {
                    match st.binder.check_late_buffer_bindings(
                        &g.compute_pipelines[p].late_sized_groups,
                    ) {
                        Some(e) => Some(DispatchError::BindingSizeTooSmall(e)),
                        None => None,
                    }
                },
            }
        },
    }
}

/// Flushing never touches the bookkeeping counters, the binder, the
/// pipeline, the active query, nor the memory-init lists.
pub proof fn lemma_flush_counters(rs: ResV, s: StateV, indirect: Option<usize>)
    ensures
        spec_flush(rs, s, indirect) matches Ok(s2) ==> s2.debug_scope_depth
            == s.debug_scope_depth && s2.dynamic_offset_count == s.dynamic_offset_count
            && s2.string_offset == s.string_offset && s2.binder == s.binder && s2.pipeline
            == s.pipeline && s2.active_query == s.active_query && s2.buffer_inits
            == s.buffer_inits && s2.texture_fixups == s.texture_fixups,
{
    match merge_groups(rs, s.binder, s.scope_buffers, s.scope_textures, 0) {
        Err(_) => {},
        Ok((sb, st)) => {},
    }
}

/// The absorb-phase accumulator a state holds.
pub open spec fn acc_of(s: StateV) -> FlushAcc {
    FlushAcc {
        inter_buf: s.inter_buffers,
        inter_tex: s.inter_textures,
        scope_buf: s.scope_buffers,
        scope_tex: s.scope_textures,
        body: s.body,
    }
}

/// Merge one bind group's buffer uses into the scope.
fn merge_group_buffers(g: &Global, scope: &mut UsageTrack, gi: usize) -> (r: Result<
    (),
    ResourceUsageCompatibilityError,
>)
    requires
        wf_res(res_of(*g)),
        gi < g.bind_groups@.len(),
        old(scope).states@.len() == g.buffers@.len(),
    ensures
        ({
            let uses = g.bind_groups@[gi as int].used_buffers@;
            match merge_uses_buf(old(scope).states@, uses, 0) {
                Ok(s2) => r is Ok && final(scope).states@ == s2,
                Err(e) => r == Err::<(), ResourceUsageCompatibilityError>(e),
            }
        }),
        final(scope).states@.len() == old(scope).states@.len(),
{
    let ghost s_in = scope.states@;
    let bg = &g.bind_groups[gi];
    let nb = bg.used_buffers.len();
    let mut k: usize = 0;
    while k < nb
        invariant
            k <= nb,
            wf_res(res_of(*g)),
            gi < g.bind_groups@.len(),
            bg == g.bind_groups@[gi as int],
            nb == bg.used_buffers@.len(),
            s_in == old(scope).states@,
            scope.states@.len() == g.buffers@.len(),
            scope.states@.len() == s_in.len(),
            merge_uses_buf(s_in, bg.used_buffers@, 0) == merge_uses_buf(
                scope.states@,
                bg.used_buffers@,
                k as int,
            ),
        decreases nb - k,
    {
        let u = bg.used_buffers[k];
        match scope.merge_one(u.buffer, u.usage) {
            Ok(()) => {},
            Err(combined) => {
                let e = ResourceUsageCompatibilityError {
                    kind: ResourceKind::Buffer,
                    index: u.buffer,
                    usage: combined,
                };
                proof {
                    assert(merge_uses_buf(scope.states@, bg.used_buffers@, k as int) == Err::<
                        Seq<u32>,
                        ResourceUsageCompatibilityError,
                    >(e));
                }
                return Err(e);
            },
        }
        k = k + 1;
    }
    Ok(())
}

/// Merge one bind group's texture uses into the scope.
fn merge_group_textures(g: &Global, scope: &mut UsageTrack, gi: usize) -> (r: Result<
    (),
    ResourceUsageCompatibilityError,
>)
    requires
        wf_res(res_of(*g)),
        gi < g.bind_groups@.len(),
        old(scope).states@.len() == g.textures@.len(),
    ensures
        ({
            let uses = g.bind_groups@[gi as int].used_textures@;
            match merge_uses_tex(old(scope).states@, uses, 0) {
                Ok(s2) => r is Ok && final(scope).states@ == s2,
                Err(e) => r == Err::<(), ResourceUsageCompatibilityError>(e),
            }
        }),
        final(scope).states@.len() == old(scope).states@.len(),
{
    let ghost s_in = scope.states@;
    let bg = &g.bind_groups[gi];
    let nt = bg.used_textures.len();
    let mut k: usize = 0;
    while k < nt
        invariant
            k <= nt,
            wf_res(res_of(*g)),
            gi < g.bind_groups@.len(),
            bg == g.bind_groups@[gi as int],
            nt == bg.used_textures@.len(),
            s_in == old(scope).states@,
            scope.states@.len() == g.textures@.len(),
            scope.states@.len() == s_in.len(),
            merge_uses_tex(s_in, bg.used_textures@, 0) == merge_uses_tex(
                scope.states@,
                bg.used_textures@,
                k as int,
            ),
        decreases nt - k,
    {
        let u = bg.used_textures[k];
        match scope.merge_one(u.texture, u.usage) {
            Ok(()) => {},
            Err(combined) => {
                let e = ResourceUsageCompatibilityError {
                    kind: ResourceKind::Texture,
                    index: u.texture,
                    usage: combined,
                };
                proof {
                    assert(merge_uses_tex(scope.states@, bg.used_textures@, k as int) == Err::<
                        Seq<u32>,
                        ResourceUsageCompatibilityError,
                    >(e));
                }
                return Err(e);
            },
        }
        k = k + 1;
    }
    Ok(())
}

/// Move one resource of one class out of a scope into an intermediate
/// tracker and emit the barrier, if one is needed.
fn absorb_one(
    inter: &mut FirstLastTrack,
    scope: &mut UsageTrack,
    body: &mut Vec<HalCommand>,
    idx: usize,
    kind: ResourceKind,
)
    requires
        idx < old(inter).entries@.len(),
        idx < old(scope).states@.len(),
    ensures
        ({
            let (i2, s2, b) = spec_absorb(old(inter).entries@, old(scope).states@, idx as int);
            &&& final(inter).entries@ == i2
            &&& final(scope).states@ == s2
            &&& ops_of(final(body)@) == (match b {
                None => ops_of(old(body)@),
                Some((from, to)) => ops_of(old(body)@).push(
                    crate::track::spec_barrier_op(kind, idx as int, from, to),
                ),
            })
        }),
        final(inter).entries@.len() == old(inter).entries@.len(),
        final(scope).states@.len() == old(scope).states@.len(),
{
    let t = inter.absorb(scope, idx);
    match t {
        None => {},
        Some((from, to)) => {
            let cmd = match kind {
                ResourceKind::Buffer => HalCommand::BufferBarrier { buffer: idx, from, to },
                ResourceKind::Texture => HalCommand::TextureBarrier { texture: idx, from, to },
            };
            let ghost pre = body@;
            body.push(cmd);
            proof {
                lemma_ops_push(pre, cmd);
            }
        },
    }
}

/// Absorb one bind group's buffer uses into the intermediate tracker.
fn absorb_group_buffers(
    g: &Global,
    inter: &mut FirstLastTrack,
    scope: &mut UsageTrack,
    body: &mut Vec<HalCommand>,
    gi: usize,
    Ghost(it): Ghost<Seq<Option<(u32, u32)>>>,
    Ghost(stx): Ghost<Seq<u32>>,
)
    requires
        wf_res(res_of(*g)),
        gi < g.bind_groups@.len(),
        old(inter).entries@.len() == g.buffers@.len(),
        old(scope).states@.len() == g.buffers@.len(),
    ensures
        ({
            let uses = g.bind_groups@[gi as int].used_buffers@;
            let acc0 = FlushAcc {
                inter_buf: old(inter).entries@,
                inter_tex: it,
                scope_buf: old(scope).states@,
                scope_tex: stx,
                body: ops_of(old(body)@),
            };
            absorb_uses_buf(acc0, uses, 0) == (FlushAcc {
                inter_buf: final(inter).entries@,
                inter_tex: it,
                scope_buf: final(scope).states@,
                scope_tex: stx,
                body: ops_of(final(body)@),
            })
        }),
        final(inter).entries@.len() == old(inter).entries@.len(),
        final(scope).states@.len() == old(scope).states@.len(),
{
    let bg = &g.bind_groups[gi];
    let ghost acc_in = FlushAcc {
        inter_buf: inter.entries@,
        inter_tex: it,
        scope_buf: scope.states@,
        scope_tex: stx,
        body: ops_of(body@),
    };
    let nb = bg.used_buffers.len();
    let mut k: usize = 0;
    while k < nb
        invariant
            k <= nb,
            wf_res(res_of(*g)),
            gi < g.bind_groups@.len(),
            bg == g.bind_groups@[gi as int],
            nb == bg.used_buffers@.len(),
            acc_in == (FlushAcc {
                inter_buf: old(inter).entries@,
                inter_tex: it,
                scope_buf: old(scope).states@,
                scope_tex: stx,
                body: ops_of(old(body)@),
            }),
            inter.entries@.len() == g.buffers@.len(),
            scope.states@.len() == g.buffers@.len(),
            absorb_uses_buf(acc_in, bg.used_buffers@, 0) == absorb_uses_buf(
                (FlushAcc {
                    inter_buf: inter.entries@,
                    inter_tex: it,
                    scope_buf: scope.states@,
                    scope_tex: stx,
                    body: ops_of(body@),
                }),
                bg.used_buffers@,
                k as int,
            ),
        decreases nb - k,
    {
        let u = bg.used_buffers[k];
        let ghost pre = FlushAcc {
            inter_buf: inter.entries@,
            inter_tex: it,
            scope_buf: scope.states@,
            scope_tex: stx,
            body: ops_of(body@),
        };
        absorb_one(inter, scope, body, u.buffer, ResourceKind::Buffer);
        proof {
            assert((FlushAcc {
                inter_buf: inter.entries@,
                inter_tex: it,
                scope_buf: scope.states@,
                scope_tex: stx,
                body: ops_of(body@),
            }) =~~= absorb_buf(pre, u.buffer as int));
        }
        k = k + 1;
    }
}

/// Absorb one bind group's texture uses into the intermediate tracker.
fn absorb_group_textures(
    g: &Global,
    inter: &mut FirstLastTrack,
    scope: &mut UsageTrack,
    body: &mut Vec<HalCommand>,
    gi: usize,
    Ghost(ib): Ghost<Seq<Option<(u32, u32)>>>,
    Ghost(sb): Ghost<Seq<u32>>,
)
    requires
        wf_res(res_of(*g)),
        gi < g.bind_groups@.len(),
        old(inter).entries@.len() == g.textures@.len(),
        old(scope).states@.len() == g.textures@.len(),
    ensures
        ({
            let uses = g.bind_groups@[gi as int].used_textures@;
            let acc0 = FlushAcc {
                inter_buf: ib,
                inter_tex: old(inter).entries@,
                scope_buf: sb,
                scope_tex: old(scope).states@,
                body: ops_of(old(body)@),
            };
            absorb_uses_tex(acc0, uses, 0) == (FlushAcc {
                inter_buf: ib,
                inter_tex: final(inter).entries@,
                scope_buf: sb,
                scope_tex: final(scope).states@,
                body: ops_of(final(body)@),
            })
        }),
        final(inter).entries@.len() == old(inter).entries@.len(),
        final(scope).states@.len() == old(scope).states@.len(),
{
    let bg = &g.bind_groups[gi];
    let ghost acc_in = FlushAcc {
        inter_buf: ib,
        inter_tex: inter.entries@,
        scope_buf: sb,
        scope_tex: scope.states@,
        body: ops_of(body@),
    };
    let nt = bg.used_textures.len();
    let mut k: usize = 0;
    while k < nt
        invariant
            k <= nt,
            wf_res(res_of(*g)),
            gi < g.bind_groups@.len(),
            bg == g.bind_groups@[gi as int],
            nt == bg.used_textures@.len(),
            acc_in == (FlushAcc {
                inter_buf: ib,
                inter_tex: old(inter).entries@,
                scope_buf: sb,
                scope_tex: old(scope).states@,
                body: ops_of(old(body)@),
            }),
            inter.entries@.len() == g.textures@.len(),
            scope.states@.len() == g.textures@.len(),
            absorb_uses_tex(acc_in, bg.used_textures@, 0) == absorb_uses_tex(
                (FlushAcc {
                    inter_buf: ib,
                    inter_tex: inter.entries@,
                    scope_buf: sb,
                    scope_tex: scope.states@,
                    body: ops_of(body@),
                }),
                bg.used_textures@,
                k as int,
            ),
        decreases nt - k,
    {
        let u = bg.used_textures[k];
        let ghost pre = FlushAcc {
            inter_buf: ib,
            inter_tex: inter.entries@,
            scope_buf: sb,
            scope_tex: scope.states@,
            body: ops_of(body@),
        };
        absorb_one(inter, scope, body, u.texture, ResourceKind::Texture);
        proof {
            assert((FlushAcc {
                inter_buf: ib,
                inter_tex: inter.entries@,
                scope_buf: sb,
                scope_tex: scope.states@,
                body: ops_of(body@),
            }) =~~= absorb_tex(pre, u.texture as int));
        }
        k = k + 1;
    }
}

/// The flush protocol, run before every dispatch; the executable twin of
/// [`spec_flush`].
fn flush_states(g: &Global, st: &mut PassState, indirect: Option<usize>) -> (r: Result<
    (),
    ResourceUsageCompatibilityError,
>)
    requires
        wf_res(res_of(*g)),
        wf_state(old(st)@, res_of(*g)),
        indirect matches Some(bi) ==> bi < g.buffers@.len(),
    ensures
        match spec_flush(res_of(*g), old(st)@, indirect) {
            Ok(s2) => r is Ok && final(st)@ == s2 && wf_state(s2, res_of(*g)),
            Err(e) => r == Err::<(), ResourceUsageCompatibilityError>(e),
        },
{
    let ghost rs = res_of(*g);
    let ghost s0 = st@;
    let ghost b = st@.binder;
    // Intra-dispatch aliasing check: merge every active group into the scope.
    let nreq = st.binder.required.len();
    let mut i: usize = 0;
    while i < nreq
        invariant
            i <= nreq,
            rs == res_of(*g),
            wf_res(rs),
            wf_state(s0, rs),
            s0 == old(st)@,
            nreq == st.binder.required@.len(),
            b == st@.binder,
            st@ == (StateV {
                scope_buffers: st@.scope_buffers,
                scope_textures: st@.scope_textures,
                ..s0
            }),
            st@.scope_buffers.len() == rs.buffers.len(),
            st@.scope_textures.len() == rs.textures.len(),
            merge_groups(rs, b, s0.scope_buffers, s0.scope_textures, 0) == merge_groups(
                rs,
                b,
                st@.scope_buffers,
                st@.scope_textures,
                i as int,
            ),
        decreases nreq - i,
    {
        let group_opt = st.binder.slots[i].group;
        match group_opt {
            None => {},
            Some(gi) => {
                proof {
                    assert(st@.binder.slots[i as int].group == Some(gi));
                }
                let ghost sb_in = st@.scope_buffers;
                let ghost st_in = st@.scope_textures;
                match merge_group_buffers(g, &mut st.scope_buffers, gi) {
                    Ok(()) => {},
                    Err(e) => {
                        proof {
                            assert(merge_groups(rs, b, sb_in, st_in, i as int) == Err::<
                                (Seq<u32>, Seq<u32>),
                                ResourceUsageCompatibilityError,
                            >(e));
                        }
                        return Err(e);
                    },
                }
                match merge_group_textures(g, &mut st.scope_textures, gi) {
                    Ok(()) => {},
                    Err(e) => {
                        proof {
                            assert(merge_groups(rs, b, sb_in, st_in, i as int) == Err::<
                                (Seq<u32>, Seq<u32>),
                                ResourceUsageCompatibilityError,
                            >(e));
                        }
                        return Err(e);
                    },
                }
            },
        }
        i = i + 1;
    }
    proof {
        assert(merge_groups(rs, b, s0.scope_buffers, s0.scope_textures, 0) == Ok::<
            (Seq<u32>, Seq<u32>),
            ResourceUsageCompatibilityError,
        >((st@.scope_buffers, st@.scope_textures)));
    }
    // Move the merged usages into the intermediate trackers, emitting the
    // inter-dispatch barriers into the body.
    let ghost acc0 = acc_of(st@);
    let mut i2: usize = 0;
    while i2 < nreq
        invariant
            i2 <= nreq,
            rs == res_of(*g),
            wf_res(rs),
            wf_state(s0, rs),
            s0 == old(st)@,
            merge_groups(rs, b, s0.scope_buffers, s0.scope_textures, 0) == Ok::<
                (Seq<u32>, Seq<u32>),
                ResourceUsageCompatibilityError,
            >((acc0.scope_buf, acc0.scope_tex)),
            acc0.inter_buf == s0.inter_buffers,
            acc0.inter_tex == s0.inter_textures,
            acc0.body == s0.body,
            nreq == st.binder.required@.len(),
            b == st@.binder,
            st@ == (StateV {
                scope_buffers: st@.scope_buffers,
                scope_textures: st@.scope_textures,
                inter_buffers: st@.inter_buffers,
                inter_textures: st@.inter_textures,
                body: st@.body,
                ..s0
            }),
            st@.scope_buffers.len() == rs.buffers.len(),
            st@.scope_textures.len() == rs.textures.len(),
            st@.inter_buffers.len() == rs.buffers.len(),
            st@.inter_textures.len() == rs.textures.len(),
            absorb_groups(rs, b, acc0, 0) == absorb_groups(rs, b, acc_of(st@), i2 as int),
        decreases nreq - i2,
    {
        let group_opt = st.binder.slots[i2].group;
        match group_opt {
            None => {},
            Some(gi) => {
                proof {
                    assert(st@.binder.slots[i2 as int].group == Some(gi));
                }
                let ghost acc_in = acc_of(st@);
                let ghost it_g = st@.inter_textures;
                let ghost stx_g = st@.scope_textures;
                absorb_group_buffers(
                    g,
                    &mut st.inter_buffers,
                    &mut st.scope_buffers,
                    &mut st.body,
                    gi,
                    Ghost(it_g),
                    Ghost(stx_g),
                );
                proof {
                    assert(acc_of(st@) == absorb_uses_buf(
                        acc_in,
                        rs.bind_groups[gi as int].used_buffers@,
                        0,
                    ));
                }
                let ghost acc_mid = acc_of(st@);
                let ghost ib_g = st@.inter_buffers;
                let ghost sb_g = st@.scope_buffers;
                absorb_group_textures(
                    g,
                    &mut st.inter_textures,
                    &mut st.scope_textures,
                    &mut st.body,
                    gi,
                    Ghost(ib_g),
                    Ghost(sb_g),
                );
                proof {
                    assert(acc_of(st@) == absorb_uses_tex(
                        acc_mid,
                        rs.bind_groups[gi as int].used_textures@,
                        0,
                    ));
                }
            },
        }
        i2 = i2 + 1;
    }
    // The indirect-dispatch argument buffer joins the scope hand-off.
    let ghost acc1 = acc_of(st@);
    match indirect {
        None => {},
        Some(bi) => {
            absorb_one(&mut st.inter_buffers, &mut st.scope_buffers, &mut st.body, bi, ResourceKind::Buffer);
            proof {
                assert(acc_of(st@) =~~= absorb_buf(acc1, bi as int));
            }
        },
    }
    proof {
        let s2 = spec_flush(rs, s0, indirect).unwrap();
        assert(st@ =~~= s2);
    }
    Ok(())
}

/// Merging preserves the scope's length.
proof fn lemma_merge_uses_buf_len(scope: Seq<u32>, uses: Seq<BufferUse>, k: int)
    requires
        forall|j: int| 0 <= j < uses.len() ==> (#[trigger] uses[j]).buffer < scope.len(),
    ensures
        (merge_uses_buf(scope, uses, k) matches Ok(s2) ==> s2.len() == scope.len()),
    decreases uses.len() - k,
{
    if !(k < 0 || k >= uses.len()) {
        let u = uses[k];
        match spec_merge(scope, u.buffer as int, u.usage) {
            Ok(s2) => {
                lemma_merge_uses_buf_len(s2, uses, k + 1);
                assert(merge_uses_buf(scope, uses, k) == merge_uses_buf(s2, uses, k + 1));
            },
            Err(_) => {
                assert(merge_uses_buf(scope, uses, k) is Err);
            },
        }
    } else {
        assert(merge_uses_buf(scope, uses, k) == Ok::<Seq<u32>, ResourceUsageCompatibilityError>(scope));
    }
}

proof fn lemma_merge_uses_tex_len(scope: Seq<u32>, uses: Seq<TextureUse>, k: int)
    requires
        forall|j: int| 0 <= j < uses.len() ==> (#[trigger] uses[j]).texture < scope.len(),
    ensures
        (merge_uses_tex(scope, uses, k) matches Ok(s2) ==> s2.len() == scope.len()),
    decreases uses.len() - k,
{
    if !(k < 0 || k >= uses.len()) {
        let u = uses[k];
        match spec_merge(scope, u.texture as int, u.usage) {
            Ok(s2) => {
                lemma_merge_uses_tex_len(s2, uses, k + 1);
                assert(merge_uses_tex(scope, uses, k) == merge_uses_tex(s2, uses, k + 1));
            },
            Err(_) => {
                assert(merge_uses_tex(scope, uses, k) is Err);
            },
        }
    } else {
        assert(merge_uses_tex(scope, uses, k) == Ok::<Seq<u32>, ResourceUsageCompatibilityError>(scope));
    }
}

proof fn lemma_merge_groups_len(rs: ResV, b: BinderV, sb: Seq<u32>, st: Seq<u32>, i: int)
    requires
        wf_res(rs),
        sb.len() == rs.buffers.len(),
        st.len() == rs.textures.len(),
        forall|j: int|
            0 <= j < b.slots.len() ==> ((#[trigger] b.slots[j]).group matches Some(gi) ==> gi
                < rs.bind_groups.len()),
        b.required.len() <= b.slots.len(),
    ensures
        (merge_groups(rs, b, sb, st, i) matches Ok(p) ==> p.0.len() == sb.len() && p.1.len()
            == st.len()),
    decreases b.required.len() - i,
{
    if !(i < 0 || i >= b.required.len()) {
        match b.slots[i].group {
            None => {
                lemma_merge_groups_len(rs, b, sb, st, i + 1);
                assert(merge_groups(rs, b, sb, st, i) == merge_groups(rs, b, sb, st, i + 1));
            },
            Some(gi) => {
                let bg = rs.bind_groups[gi as int];
                lemma_merge_uses_buf_len(sb, bg.used_buffers@, 0);
                match merge_uses_buf(sb, bg.used_buffers@, 0) {
                    Err(_) => {
                        assert(merge_groups(rs, b, sb, st, i) is Err);
                    },
                    Ok(sb2) => {
                        lemma_merge_uses_tex_len(st, bg.used_textures@, 0);
                        match merge_uses_tex(st, bg.used_textures@, 0) {
                            Err(_) => {
                                assert(merge_groups(rs, b, sb, st, i) is Err);
                            },
                            Ok(st2) => {
                                lemma_merge_groups_len(rs, b, sb2, st2, i + 1);
                                assert(merge_groups(rs, b, sb, st, i) == merge_groups(
                                    rs,
                                    b,
                                    sb2,
                                    st2,
                                    i + 1,
                                ));
                            },
                        }
                    },
                }
            },
        }
    } else {
        assert(merge_groups(rs, b, sb, st, i) == Ok::<
            (Seq<u32>, Seq<u32>),
            ResourceUsageCompatibilityError,
        >((sb, st)));
    }
}

/// Absorbing preserves the tracker and scope lengths and never touches the
/// other resource class.
proof fn lemma_absorb_uses_buf_props(acc: FlushAcc, uses: Seq<BufferUse>, k: int)
    requires
        forall|j: int| 0 <= j < uses.len() ==> (#[trigger] uses[j]).buffer < acc.inter_buf.len(),
        forall|j: int| 0 <= j < uses.len() ==> (#[trigger] uses[j]).buffer < acc.scope_buf.len(),
    ensures
        ({
            let a2 = absorb_uses_buf(acc, uses, k);
            &&& a2.inter_buf.len() == acc.inter_buf.len()
            &&& a2.scope_buf.len() == acc.scope_buf.len()
            &&& a2.inter_tex == acc.inter_tex
            &&& a2.scope_tex == acc.scope_tex
        }),
    decreases uses.len() - k,
{
    if !(k < 0 || k >= uses.len()) {
        lemma_absorb_uses_buf_props(absorb_buf(acc, uses[k].buffer as int), uses, k + 1);
        assert(absorb_uses_buf(acc, uses, k) == absorb_uses_buf(
            absorb_buf(acc, uses[k].buffer as int),
            uses,
            k + 1,
        ));
    } else {
        assert(absorb_uses_buf(acc, uses, k) == acc);
    }
}

proof fn lemma_absorb_uses_tex_props(acc: FlushAcc, uses: Seq<TextureUse>, k: int)
    requires
        forall|j: int| 0 <= j < uses.len() ==> (#[trigger] uses[j]).texture < acc.inter_tex.len(),
        forall|j: int| 0 <= j < uses.len() ==> (#[trigger] uses[j]).texture < acc.scope_tex.len(),
    ensures
        ({
            let a2 = absorb_uses_tex(acc, uses, k);
            &&& a2.inter_tex.len() == acc.inter_tex.len()
            &&& a2.scope_tex.len() == acc.scope_tex.len()
            &&& a2.inter_buf == acc.inter_buf
            &&& a2.scope_buf == acc.scope_buf
        }),
    decreases uses.len() - k,
{
    if !(k < 0 || k >= uses.len()) {
        lemma_absorb_uses_tex_props(absorb_tex(acc, uses[k].texture as int), uses, k + 1);
        assert(absorb_uses_tex(acc, uses, k) == absorb_uses_tex(
            absorb_tex(acc, uses[k].texture as int),
            uses,
            k + 1,
        ));
    } else {
        assert(absorb_uses_tex(acc, uses, k) == acc);
    }
}

proof fn lemma_absorb_groups_props(rs: ResV, b: BinderV, acc: FlushAcc, i: int)
    requires
        wf_res(rs),
        acc.inter_buf.len() == rs.buffers.len(),
        acc.scope_buf.len() == rs.buffers.len(),
        acc.inter_tex.len() == rs.textures.len(),
        acc.scope_tex.len() == rs.textures.len(),
        forall|j: int|
            0 <= j < b.slots.len() ==> ((#[trigger] b.slots[j]).group matches Some(gi) ==> gi
                < rs.bind_groups.len()),
        b.required.len() <= b.slots.len(),
    ensures
        ({
            let a2 = absorb_groups(rs, b, acc, i);
            &&& a2.inter_buf.len() == acc.inter_buf.len()
            &&& a2.scope_buf.len() == acc.scope_buf.len()
            &&& a2.inter_tex.len() == acc.inter_tex.len()
            &&& a2.scope_tex.len() == acc.scope_tex.len()
        }),
    decreases b.required.len() - i,
{
    if !(i < 0 || i >= b.required.len()) {
        match b.slots[i].group {
            None => {
                lemma_absorb_groups_props(rs, b, acc, i + 1);
                assert(absorb_groups(rs, b, acc, i) == absorb_groups(rs, b, acc, i + 1));
            },
            Some(gi) => {
                let bg = rs.bind_groups[gi as int];
                lemma_absorb_uses_buf_props(acc, bg.used_buffers@, 0);
                let acc1 = absorb_uses_buf(acc, bg.used_buffers@, 0);
                lemma_absorb_uses_tex_props(acc1, bg.used_textures@, 0);
                let acc2 = absorb_uses_tex(acc1, bg.used_textures@, 0);
                lemma_absorb_groups_props(rs, b, acc2, i + 1);
                assert(absorb_groups(rs, b, acc, i) == absorb_groups(rs, b, acc2, i + 1));
            },
        }
    } else {
        assert(absorb_groups(rs, b, acc, i) == acc);
    }
}

/// Flushing keeps the state well-formed and changes no bookkeeping counter.
pub proof fn lemma_flush_props(rs: ResV, s: StateV, indirect: Option<usize>)
    requires
        wf_res(rs),
        wf_state(s, rs),
        indirect matches Some(bi) ==> bi < rs.buffers.len(),
    ensures
        spec_flush(rs, s, indirect) matches Ok(s2) ==> wf_state(s2, rs) && s2
            == (StateV {
            scope_buffers: s2.scope_buffers,
            scope_textures: s2.scope_textures,
            inter_buffers: s2.inter_buffers,
            inter_textures: s2.inter_textures,
            body: s2.body,
            ..s
        }),
{
    lemma_merge_groups_len(rs, s.binder, s.scope_buffers, s.scope_textures, 0);
    match merge_groups(rs, s.binder, s.scope_buffers, s.scope_textures, 0) {
        Err(_) => {
            assert(spec_flush(rs, s, indirect) is Err);
        },
        Ok((sb, st)) => {
            let acc0 = FlushAcc {
                inter_buf: s.inter_buffers,
                inter_tex: s.inter_textures,
                scope_buf: sb,
                scope_tex: st,
                body: s.body,
            };
            lemma_absorb_groups_props(rs, s.binder, acc0, 0);
            let acc1 = absorb_groups(rs, s.binder, acc0, 0);
            let acc2 = match indirect {
                None => acc1,
                Some(bi) => absorb_buf(acc1, bi as int),
            };
            assert(acc2.inter_buf.len() == acc1.inter_buf.len());
            assert(acc2.scope_buf.len() == acc1.scope_buf.len());
            assert(acc2.inter_tex == acc1.inter_tex);
            assert(acc2.scope_tex == acc1.scope_tex);
            let s2 = StateV {
                scope_buffers: acc2.scope_buf,
                scope_textures: acc2.scope_tex,
                inter_buffers: acc2.inter_buf,
                inter_textures: acc2.inter_tex,
                body: acc2.body,
                ..s
            };
            assert(spec_flush(rs, s, indirect) == Ok::<StateV, ResourceUsageCompatibilityError>(
                s2,
            ));
            assert(wf_state(s2, rs));
        },
    }
}

/// One successful step keeps the state well-formed, advances the side-buffer
/// cursors by exactly the command's consumption, and grows the debug depth
/// by at most one.
pub proof fn lemma_step_props(
    rs: ResV,
    cb_dev: usize,
    dev: Device,
    rec: RecordV,
    s: StateV,
    c: Command,
)
    requires
        wf_res(rs),
        wf_state(s, rs),
        cmd_ok(c, rs),
        cb_dev < rs.devices.len(),
    ensures
        spec_step(rs, cb_dev, dev, rec, s, c) matches Ok(s2) ==> {
            &&& wf_state(s2, rs)
            &&& s2.dynamic_offset_count == s.dynamic_offset_count + crate::record::dyn_count(c)
            &&& s2.string_offset == s.string_offset + crate::record::str_count(c)
            &&& s2.debug_scope_depth <= s.debug_scope_depth + 1
        },
{
    match c {
        Command::SetBindGroup { index, num_dynamic_offsets, bind_group } => {
            let bg = rs.bind_groups[bind_group as int];
            let max = rs.devices[cb_dev as int].limits.max_bind_groups;
            if bg.device == cb_dev && index < max {
                assert(max <= MAX_BIND_GROUPS as u32);
                let offsets = rec.dynamic_offsets.subrange(
                    s.dynamic_offset_count,
                    s.dynamic_offset_count + num_dynamic_offsets,
                );
                let s1 = StateV {
                    dynamic_offset_count: s.dynamic_offset_count + num_dynamic_offsets,
                    ..s
                };
                let s2 = StateV {
                    buffer_inits: s1.buffer_inits + spec_buffer_inits(rs, bg.used_buffers@, 0),
                    texture_fixups: spec_texture_fixups(
                        rs,
                        bg.used_textures@,
                        s1.texture_fixups,
                        0,
                    ),
                    ..s1
                };
                let (b2, count) = spec_assign_group(
                    s2.binder,
                    index as int,
                    bind_group,
                    bg.layout,
                    offsets,
                    bg.late_sizes@,
                );
                assert(b2.slots =~= s.binder.slots.update(
                    index as int,
                    SlotV {
                        group: Some(bind_group),
                        layout: Some(bg.layout),
                        dynamic_offsets: offsets,
                        late_sizes: bg.late_sizes@,
                    },
                ));
                assert(wf_binder(b2));
                assert(forall|i: int|
                    0 <= i < b2.slots.len() ==> ((#[trigger] b2.slots[i]).group matches Some(gi)
                        ==> gi < rs.bind_groups.len()));
            }
        },
        Command::SetPipeline { pipeline } => {
            let pl = rs.compute_pipelines[pipeline as int];
            if s.binder.layout_id != Some(pl.layout.id) {
                let (b2, start, count) = spec_change_layout(
                    s.binder,
                    pl.layout.id,
                    pl.layout.group_layouts@,
                );
                assert(pl.layout.group_layouts@.len() <= MAX_BIND_GROUPS as int);
                assert(wf_binder(b2));
                assert(forall|i: int|
                    0 <= i < b2.slots.len() ==> ((#[trigger] b2.slots[i]).group matches Some(gi)
                        ==> gi < rs.bind_groups.len()));
            }
        },
        Command::SetPushConstant { .. } => {},
        Command::Dispatch { x, y, z } => {
            lemma_flush_props(rs, s, None);
        },
        Command::DispatchIndirect { buffer, offset } => {
            let buf = rs.buffers[buffer as int];
            match spec_merge(s.scope_buffers, buffer as int, BUFFER_USE_INDIRECT) {
                Err(_) => {},
                Ok(sb) => {
                    let s1 = StateV { scope_buffers: sb, ..s };
                    let s2 = if !buf.initialized {
                        StateV {
                            buffer_inits: s1.buffer_inits.push(
                                BufferInitAction {
                                    buffer,
                                    start: offset,
                                    end: (offset + 12) as u64,
                                    kind: MemoryInitKind::NeedsInitializedMemory,
                                },
                            ),
                            ..s1
                        }
                    } else {
                        s1
                    };
                    lemma_flush_props(rs, s2, Some(buffer));
                },
            }
        },
        Command::PushDebugGroup { .. } => {},
        Command::PopDebugGroup => {},
        Command::InsertDebugMarker { .. } => {},
        Command::WriteTimestamp { .. } => {},
        Command::BeginPipelineStatisticsQuery { .. } => {},
        Command::EndPipelineStatisticsQuery => {},
    }
}

/// Replay one `SetBindGroup`.
fn replay_set_bind_group(
    g: &Global,
    cb_dev: usize,
    base: &BasePass,
    st: &mut PassState,
    index: u32,
    num: usize,
    group: usize,
) -> (r: Result<(), ComputePassErrorInner>)
    requires
        wf_res(res_of(*g)),
        wf_state(old(st)@, res_of(*g)),
        cb_dev < g.devices@.len(),
        group < g.bind_groups@.len(),
        old(st).dynamic_offset_count + num <= base.dynamic_offsets@.len(),
    ensures
        match spec_set_bind_group(res_of(*g), cb_dev, base@, old(st)@, index, num, group) {
            Ok(s2) => r is Ok && final(st)@ == s2,
            Err(e) => r == Err::<(), ComputePassErrorInner>(e),
        },
{
    let ghost rs = res_of(*g);
    let ghost s0 = st@;
    let bg = &g.bind_groups[group];
    if bg.device != cb_dev {
        return Err(
            ComputePassErrorInner::Device(
                DeviceError::DeviceMismatch { expected: cb_dev, actual: bg.device },
            ),
        );
    }
    let max = g.devices[cb_dev].limits.max_bind_groups;
    if index >= max {
        return Err(ComputePassErrorInner::BindGroupIndexOutOfRange { index, max });
    }
    let total = base.dynamic_offsets.len();
    let offsets = copy_range(&base.dynamic_offsets, st.dynamic_offset_count, num);
    st.dynamic_offset_count = st.dynamic_offset_count + num;
    let ghost offsets_v = offsets@;
    // Dynamic-offset validation against the group's layout.
    if offsets.len() != bg.dynamic_bindings.len() {
        return Err(
            ComputePassErrorInner::Bind(
                BindError::MismatchedDynamicOffsetCount {
                    group: index,
                    actual: offsets.len(),
                    expected: bg.dynamic_bindings.len(),
                },
            ),
        );
    }
    let nd = offsets.len();
    let mut dyn_err: Option<BindError> = None;
    let mut k: usize = 0;
    while k < nd && dyn_err.is_none()
        invariant
            k <= nd,
            rs == res_of(*g),
            wf_res(rs),
            group < rs.bind_groups.len(),
            bg == rs.bind_groups[group as int],
            nd == offsets@.len(),
            nd == bg.dynamic_bindings@.len(),
            offsets_v == offsets@,
            match dyn_err {
                None => spec_dyn_err_at(bg.dynamic_bindings@, offsets@, index, 0)
                    == spec_dyn_err_at(bg.dynamic_bindings@, offsets@, index, k as int),
                Some(e) => spec_dyn_err_at(bg.dynamic_bindings@, offsets@, index, 0) == Some(e),
            },
        decreases nd - k,
    {
        let off = offsets[k];
        let info = bg.dynamic_bindings[k];
        if off % info.alignment != 0 {
            dyn_err = Some(
                BindError::UnalignedDynamicBinding {
                    group: index,
                    idx: k,
                    offset: off,
                    alignment: info.alignment,
                },
            );
        } else if off > info.max_offset {
            dyn_err = Some(
                BindError::DynamicBindingOutOfBounds {
                    group: index,
                    idx: k,
                    offset: off,
                    max: info.max_offset,
                },
            );
        }
        k = k + 1;
    }
    match dyn_err {
        Some(e) => {
            return Err(ComputePassErrorInner::Bind(e));
        },
        None => {},
    }
    // Memory-init bookkeeping: buffer ranges needing a zero-fill.
    let ghost s1v = st@;
    let ghost inits0 = st@.buffer_inits;
    let nb = bg.used_buffers.len();
    let mut k2: usize = 0;
    while k2 < nb
        invariant
            k2 <= nb,
            rs == res_of(*g),
            wf_res(rs),
            group < rs.bind_groups.len(),
            bg == rs.bind_groups[group as int],
            nb == bg.used_buffers@.len(),
            st@ == (StateV { buffer_inits: st@.buffer_inits, ..s1v }),
            inits0 + spec_buffer_inits(rs, bg.used_buffers@, 0) == st.buffer_inits@
                + spec_buffer_inits(rs, bg.used_buffers@, k2 as int),
        decreases nb - k2,
    {
        let u = bg.used_buffers[k2];
        let needs = match u.kind {
            MemoryInitKind::NeedsInitializedMemory => true,
            MemoryInitKind::ImplicitlyInitialized => false,
        };
        if needs && !g.buffers[u.buffer].initialized {
            let ghost pre = st.buffer_inits@;
            st.buffer_inits.push(
                BufferInitAction {
                    buffer: u.buffer,
                    start: u.start,
                    end: u.end,
                    kind: MemoryInitKind::NeedsInitializedMemory,
                },
            );
            proof {
                assert(pre + spec_buffer_inits(rs, bg.used_buffers@, k2 as int)
                    =~= st.buffer_inits@ + spec_buffer_inits(rs, bg.used_buffers@, k2 as int + 1));
            }
        }
        k2 = k2 + 1;
    }
    proof {
        assert(inits0 + spec_buffer_inits(rs, bg.used_buffers@, 0) =~= st.buffer_inits@);
    }
    // Memory-init bookkeeping: discarded textures needing a pre-body clear.
    let ghost s2v = st@;
    let nt = bg.used_textures.len();
    let mut k3: usize = 0;
    while k3 < nt
        invariant
            k3 <= nt,
            rs == res_of(*g),
            wf_res(rs),
            group < rs.bind_groups.len(),
            bg == rs.bind_groups[group as int],
            nt == bg.used_textures@.len(),
            st@ == (StateV { texture_fixups: st@.texture_fixups, ..s2v }),
            spec_texture_fixups(rs, bg.used_textures@, st.texture_fixups@, k3 as int)
                == spec_texture_fixups(rs, bg.used_textures@, s2v.texture_fixups, 0),
        decreases nt - k3,
    {
        let u = bg.used_textures[k3];
        let needs = match u.kind {
            MemoryInitKind::NeedsInitializedMemory => true,
            MemoryInitKind::ImplicitlyInitialized => false,
        };
        if needs && g.textures[u.texture].discarded && !contains_usize(
            &st.texture_fixups,
            u.texture,
        ) {
            st.texture_fixups.push(u.texture);
        }
        k3 = k3 + 1;
    }
    // Bind the group and re-emit the disturbed hardware bindings.
    proof {
        assert(rs.devices[cb_dev as int].limits.max_bind_groups <= MAX_BIND_GROUPS as u32);
        assert(wf_binder(st@.binder));
        assert((index as usize) < st.binder.slots@.len());
    }
    let late = clone_vec(&bg.late_sizes);
    let ghost s_before_assign = st@;
    let count = st.binder.assign_group(index as usize, group, bg.layout, offsets, late);
    let ghost b2 = st@.binder;
    proof {
        if count > 0 {
            assert(st@.binder.layout_id is Some);
            if count > 1 {
                assert(count == compat_run(b2.required, b2.slots, index as int));
            }
            assert forall|j: int| index <= j < index + count implies slot_compat(
                b2.required,
                b2.slots,
                j,
            ) by {
                if count == 1 {
                    assert(slot_compat(b2.required, b2.slots, index as int));
                } else {
                    lemma_compat_run_range(b2.required, b2.slots, index as int, j);
                }
            }
        }
    }
    proof {
        assert(wf_binder(b2));
        if count > 0 {
            if count == 1 {
                assert(index as int + count <= b2.slots.len());
            } else {
                crate::binder::lemma_compat_run_range(
                    b2.required,
                    b2.slots,
                    index as int,
                    index as int + count - 1,
                );
                assert(index as int + count - 1 < b2.required.len());
            }
        }
    }
    let lid = match st.binder.layout_id {
        Some(l) => l,
        None => 0,
    };
    let ghost s_mid = st@;
    let ghost body_mid = st@.body;
    let mut e: usize = 0;
    while e < count
        invariant
            e <= count,
            rs == res_of(*g),
            b2 == st@.binder,
            wf_binder(b2),
            count > 0 ==> b2.layout_id == Some(lid),
            index as int + count <= b2.slots.len(),
            forall|j: int| index <= j < index + count ==> slot_compat(b2.required, b2.slots, j),
            ops_of(st.body@) == body_mid + spec_rebind_ops(b2, index as int, count as int).take(
                e as int,
            ),
            st@ == (StateV { body: st@.body, ..s_mid }),
        decreases count - e,
    {
        let slot_index = index as usize + e;
        proof {
            assert(slot_compat(b2.required, b2.slots, slot_index as int));
            assert(b2.slots[slot_index as int].group is Some);
        }
        let (gk, offs) = {
            let sl = &st.binder.slots[slot_index];
            let gk = match sl.group {
                Some(gq) => gq,
                None => 0,
            };
            (gk, clone_vec(&sl.dynamic_offsets))
        };
        let cmd = HalCommand::SetBindGroup {
            layout: lid,
            index: index + e as u32,
            group: gk,
            dynamic_offsets: offs,
        };
        let ghost pre = st.body@;
        st.body.push(cmd);
        proof {
            lemma_ops_push(pre, cmd);
            assert(cmd@ == spec_rebind_ops(b2, index as int, count as int)[e as int]);
            assert(ops_of(st.body@) =~= body_mid + spec_rebind_ops(
                b2,
                index as int,
                count as int,
            ).take(e as int + 1));
        }
        e = e + 1;
    }
    proof {
        assert(spec_rebind_ops(b2, index as int, count as int).take(count as int)
            =~= spec_rebind_ops(b2, index as int, count as int));
        let target = spec_set_bind_group(rs, cb_dev, base@, s0, index, num, group).unwrap();
        assert(st@ =~~= target);
    }
    Ok(())
}

/// Replay one `SetPipeline`.
fn replay_set_pipeline(
    g: &Global,
    cb_dev: usize,
    st: &mut PassState,
    pipeline: usize,
) -> (r: Result<(), ComputePassErrorInner>)
    requires
        wf_res(res_of(*g)),
        wf_state(old(st)@, res_of(*g)),
        cb_dev < g.devices@.len(),
        pipeline < g.compute_pipelines@.len(),
    ensures
        match spec_set_pipeline(res_of(*g), cb_dev, old(st)@, pipeline) {
            Ok(s2) => r is Ok && final(st)@ == s2,
            Err(e) => r == Err::<(), ComputePassErrorInner>(e),
        },
{
    let ghost rs = res_of(*g);
    let ghost s0 = st@;
    let p = &g.compute_pipelines[pipeline];
    if p.device != cb_dev {
        return Err(
            ComputePassErrorInner::Device(
                DeviceError::DeviceMismatch { expected: cb_dev, actual: p.device },
            ),
        );
    }
    st.pipeline = Some(pipeline);
    let ghost pre0 = st.body@;
    st.body.push(HalCommand::SetPipeline { pipeline });
    proof {
        lemma_ops_push(pre0, HalCommand::SetPipeline { pipeline });
    }
    let same = match st.binder.layout_id {
        Some(l) => l == p.layout.id,
        None => false,
    };
    if same {
        proof {
            assert(st@ =~~= spec_set_pipeline(rs, cb_dev, s0, pipeline).unwrap());
        }
        return Ok(());
    }
    proof {
        assert(p.layout.group_layouts@.len() <= MAX_BIND_GROUPS as int);
        assert(wf_binder(st@.binder));
    }
    let (start, count) = st.binder.change_pipeline_layout(&p.layout);
    let ghost b2 = st@.binder;
    let ghost fi = first_mismatch(s0.binder.slots, p.layout.group_layouts@, 0);
    proof {
        crate::binder::lemma_first_diff_le(s0.binder.required, p.layout.group_layouts@, 0);
        crate::binder::lemma_first_mismatch_le(s0.binder.slots, p.layout.group_layouts@, 0);
        assert(count > 0 ==> start + count == fi);
        assert forall|j: int| start <= j < start + count implies slot_compat(
            b2.required,
            b2.slots,
            j,
        ) by {
            lemma_first_mismatch_prefix(s0.binder.slots, p.layout.group_layouts@, 0, j);
        }
    }
    let ghost s_mid = st@;
    let ghost body_mid = st@.body;
    let mut e: usize = 0;
    while e < count
        invariant
            e <= count,
            rs == res_of(*g),
            b2 == st@.binder,
            wf_binder(b2),
            b2.layout_id == Some(p.layout.id),
            pipeline < rs.compute_pipelines.len(),
            p == rs.compute_pipelines[pipeline as int],
            start + count <= b2.slots.len(),
            forall|j: int| start <= j < start + count ==> slot_compat(b2.required, b2.slots, j),
            ops_of(st.body@) == body_mid + spec_rebind_ops(b2, start as int, count as int).take(
                e as int,
            ),
            st@ == (StateV { body: st@.body, ..s_mid }),
        decreases count - e,
    {
        let slot_index = start + e;
        proof {
            assert(slot_compat(b2.required, b2.slots, slot_index as int));
            assert(b2.slots[slot_index as int].group is Some);
        }
        let (gk, offs) = {
            let sl = &st.binder.slots[slot_index];
            let gk = match sl.group {
                Some(gq) => gq,
                None => 0,
            };
            (gk, clone_vec(&sl.dynamic_offsets))
        };
        let cmd = HalCommand::SetBindGroup {
            layout: p.layout.id,
            index: slot_index as u32,
            group: gk,
            dynamic_offsets: offs,
        };
        let ghost pre = st.body@;
        st.body.push(cmd);
        proof {
            lemma_ops_push(pre, cmd);
            assert(cmd@ == spec_rebind_ops(b2, start as int, count as int)[e as int]);
            assert(ops_of(st.body@) =~= body_mid + spec_rebind_ops(
                b2,
                start as int,
                count as int,
            ).take(e as int + 1));
        }
        e = e + 1;
    }
    proof {
        assert(spec_rebind_ops(b2, start as int, count as int).take(count as int)
            =~= spec_rebind_ops(b2, start as int, count as int));
    }
    // Clear the declared push-constant ranges to zero.
    let ghost s_clears = st@;
    let ghost body_clears = st@.body;
    let nr = p.layout.push_constant_ranges.len();
    let mut cidx: usize = 0;
    while cidx < nr
        invariant
            cidx <= nr,
            rs == res_of(*g),
            wf_res(rs),
            pipeline < rs.compute_pipelines.len(),
            p == rs.compute_pipelines[pipeline as int],
            nr == p.layout.push_constant_ranges@.len(),
            body_clears + spec_pc_clears(p.layout, 0) == ops_of(st.body@) + spec_pc_clears(
                p.layout,
                cidx as int,
            ),
            st@ == (StateV { body: st@.body, ..s_clears }),
            b2 == st@.binder,
        decreases nr - cidx,
    {
        let range = p.layout.push_constant_ranges[cidx];
        let words = zero_words(((range.end - range.start) / 4) as usize);
        let cmd = HalCommand::SetPushConstants {
            layout: p.layout.id,
            offset: range.start,
            data: words,
        };
        let ghost pre = st.body@;
        st.body.push(cmd);
        proof {
            lemma_ops_push(pre, cmd);
            assert(cmd@ == HalOp::SetPushConstants {
                layout: p.layout.id,
                offset: range.start,
                data: zero_seq((range.end - range.start) / 4),
            });
            assert(body_clears + spec_pc_clears(p.layout, 0) =~= ops_of(st.body@)
                + spec_pc_clears(p.layout, cidx as int + 1));
        }
        cidx = cidx + 1;
    }
    proof {
        let target = spec_set_pipeline(rs, cb_dev, s0, pipeline).unwrap();
        assert(st@.body =~~= target.body);
        assert(st@ =~~= target);
    }
    Ok(())
}

/// Replay one `Dispatch`.
fn replay_dispatch(
    g: &Global,
    dev: Device,
    st: &mut PassState,
    x: u32,
    y: u32,
    z: u32,
) -> (r: Result<(), ComputePassErrorInner>)
    requires
        wf_res(res_of(*g)),
        wf_state(old(st)@, res_of(*g)),
    ensures
        match spec_dispatch(res_of(*g), dev, old(st)@, x, y, z) {
            Ok(s2) => r is Ok && final(st)@ == s2,
            Err(e) => r == Err::<(), ComputePassErrorInner>(e),
        },
{
    let ghost rs = res_of(*g);
    let ghost s0 = st@;
    match is_ready(g, st) {
        Some(d) => {
            return Err(ComputePassErrorInner::Dispatch(d));
        },
        None => {},
    }
    match flush_states(g, st, None) {
        Ok(()) => {},
        Err(e) => {
            return Err(ComputePassErrorInner::ResourceUsageCompatibility(e));
        },
    }
    let limit = dev.limits.max_compute_workgroups_per_dimension;
    if x > limit || y > limit || z > limit {
        return Err(
            ComputePassErrorInner::Dispatch(DispatchError::InvalidGroupSize { x, y, z, limit }),
        );
    }
    let ghost pre = st.body@;
    st.body.push(HalCommand::Dispatch { x, y, z });
    proof {
        lemma_ops_push(pre, HalCommand::Dispatch { x, y, z });
        assert(st@ =~~= spec_dispatch(rs, dev, s0, x, y, z).unwrap());
    }
    Ok(())
}

/// Replay one `DispatchIndirect`.
fn replay_dispatch_indirect(
    g: &Global,
    cb_dev: usize,
    dev: Device,
    st: &mut PassState,
    buffer: usize,
    offset: u64,
) -> (r: Result<(), ComputePassErrorInner>)
    requires
        wf_res(res_of(*g)),
        wf_state(old(st)@, res_of(*g)),
        cb_dev < g.devices@.len(),
        buffer < g.buffers@.len(),
    ensures
        match spec_dispatch_indirect(res_of(*g), cb_dev, dev, old(st)@, buffer, offset) {
            Ok(s2) => r is Ok && final(st)@ == s2,
            Err(e) => r == Err::<(), ComputePassErrorInner>(e),
        },
{
    let ghost rs = res_of(*g);
    let ghost s0 = st@;
    let buf = g.buffers[buffer];
    if buf.device != cb_dev {
        return Err(
            ComputePassErrorInner::Device(
                DeviceError::DeviceMismatch { expected: cb_dev, actual: buf.device },
            ),
        );
    }
    match is_ready(g, st) {
        Some(d) => {
            return Err(ComputePassErrorInner::Dispatch(d));
        },
        None => {},
    }
    if !dev.indirect_execution {
        return Err(ComputePassErrorInner::MissingDownlevelFlags);
    }
    match st.scope_buffers.merge_one(buffer, BUFFER_USE_INDIRECT) {
        Ok(()) => {},
        Err(combined) => {
            return Err(
                ComputePassErrorInner::ResourceUsageCompatibility(
                    ResourceUsageCompatibilityError {
                        kind: ResourceKind::Buffer,
                        index: buffer,
                        usage: combined,
                    },
                ),
            );
        },
    }
    if buf.usage & BUFFER_USAGE_INDIRECT == 0 {
        return Err(
            ComputePassErrorInner::MissingBufferUsage(
                MissingBufferUsageError {
                    buffer,
                    actual: buf.usage,
                    expected: BUFFER_USAGE_INDIRECT,
                },
            ),
        );
    }
    if buf.size < DISPATCH_INDIRECT_ARGS_SIZE || offset > buf.size - DISPATCH_INDIRECT_ARGS_SIZE {
        let end_offset = if offset > u64::MAX - DISPATCH_INDIRECT_ARGS_SIZE {
            u64::MAX
        } else {
            offset + DISPATCH_INDIRECT_ARGS_SIZE
        };
        return Err(
            ComputePassErrorInner::IndirectBufferOverrun {
                offset,
                end_offset,
                buffer_size: buf.size,
            },
        );
    }
    if !buf.initialized {
        st.buffer_inits.push(
            BufferInitAction {
                buffer,
                start: offset,
                end: offset + DISPATCH_INDIRECT_ARGS_SIZE,
                kind: MemoryInitKind::NeedsInitializedMemory,
            },
        );
    }
    match flush_states(g, st, Some(buffer)) {
        Ok(()) => {},
        Err(e) => {
            return Err(ComputePassErrorInner::ResourceUsageCompatibility(e));
        },
    }
    let ghost pre = st.body@;
    st.body.push(HalCommand::DispatchIndirect { buffer, offset });
    proof {
        lemma_ops_push(pre, HalCommand::DispatchIndirect { buffer, offset });
        assert(st@ =~~= spec_dispatch_indirect(rs, cb_dev, dev, s0, buffer, offset).unwrap());
    }
    Ok(())
}

/// The executable twin of [`scope_of`].
fn scope_of_exec(c: Command) -> (r: PassErrorScope)
    ensures
        r == scope_of(c),
{
    match c {
        Command::SetBindGroup { .. } => PassErrorScope::SetBindGroup,
        Command::SetPipeline { .. } => PassErrorScope::SetPipelineCompute,
        Command::SetPushConstant { .. } => PassErrorScope::SetPushConstant,
        Command::Dispatch { .. } => PassErrorScope::Dispatch { indirect: false },
        Command::DispatchIndirect { .. } => PassErrorScope::Dispatch { indirect: true },
        Command::PushDebugGroup { .. } => PassErrorScope::PushDebugGroup,
        Command::PopDebugGroup => PassErrorScope::PopDebugGroup,
        Command::InsertDebugMarker { .. } => PassErrorScope::InsertDebugMarker,
        Command::WriteTimestamp { .. } => PassErrorScope::WriteTimestamp,
        Command::BeginPipelineStatisticsQuery { .. } => {
            PassErrorScope::BeginPipelineStatisticsQuery
        },
        Command::EndPipelineStatisticsQuery => PassErrorScope::EndPipelineStatisticsQuery,
    }
}

impl Global {
    /// Finalization: replay the record against the device state, then close
    /// the body, splice the pre-body barriers before it, and merge the
    /// trackers into the parent command buffer.
    fn compute_pass_end_impl(
        &mut self,
        cb_idx: usize,
        base: BasePass,
        tsw: Option<ComputePassTimestampWrites>,
    ) -> (r: Result<(), ComputePassError>)
        requires
            wf_global(*old(self)),
            cb_idx < old(self).command_buffers@.len(),
            old(self).command_buffers@[cb_idx as int].status == CommandEncoderStatus::Recording,
            crate::record::wf_record(base@),
            crate::pass::wf_cmds(base@.commands, res_of(*old(self))),
            tsw matches Some(tw) ==> tw.query_set < old(self).query_sets@.len(),
        ensures
            crate::global::same_resources(*old(self), *final(self)),
            wf_global(*final(self)),
            final(self).command_buffers@.len() == old(self).command_buffers@.len(),
            forall|j: int|
                0 <= j < old(self).command_buffers@.len() && j != cb_idx ==> final(self).command_buffers@[j] == old(self).command_buffers@[j],
            ({
                let rs = res_of(*old(self));
                let cb = old(self).command_buffers@[cb_idx as int];
                let cb2 = final(self).command_buffers@[cb_idx as int];
                let scope = PassErrorScope::Pass(Some(cb_idx));
                match spec_end_impl(
                    rs,
                    cb.device,
                    cb.tracker_buffers.entries@,
                    cb.tracker_textures.entries@,
                    base@,
                    tsw,
                ) {
                    EndSpec::DeviceInvalid => {
                        &&& r == Err::<(), ComputePassError>(
                            (ComputePassError {
                                scope,
                                inner: ComputePassErrorInner::Device(DeviceError::Invalid),
                            }),
                        )
                        &&& cb2 == cb
                    },
                    EndSpec::ReplayErr { at, inner } => {
                        &&& r == Err::<(), ComputePassError>(
                            (ComputePassError { scope: scope_of(base@.commands[at]), inner }),
                        )
                        &&& crate::global::cb_same_but_status(cb, cb2)
                        &&& cb2.status == CommandEncoderStatus::Error
                    },
                    EndSpec::Done { state, prebody, tracker_buf, tracker_tex } => {
                        &&& r is Ok
                        &&& cb2.status == CommandEncoderStatus::Recording
                        &&& cb2.device == cb.device
                        &&& cb2@.segments == cb@.segments.push(prebody).push(state.body)
                        &&& cb2.tracker_buffers.entries@ == tracker_buf
                        &&& cb2.tracker_textures.entries@ == tracker_tex
                        &&& cb2.buffer_memory_init_actions@ == cb.buffer_memory_init_actions@
                            + state.buffer_inits
                    },
                }
            }),
    {
        let ghost rs = res_of(*old(self));
        let ghost cb0 = old(self).command_buffers@[cb_idx as int];
        let pass_scope = PassErrorScope::Pass(Some(cb_idx));
        let cb_dev = self.command_buffers[cb_idx].device;
        let dev = self.devices[cb_dev];
        if !dev.valid {
            return Err(
                ComputePassError {
                    scope: pass_scope,
                    inner: ComputePassErrorInner::Device(DeviceError::Invalid),
                },
            );
        }
        self.command_buffers[cb_idx].status = CommandEncoderStatus::Error;
        let ghost g_frozen = *self;
        proof {
            assert(res_of(g_frozen) =~= rs);
        }
        let nb = self.buffers.len();
        let ntex = self.textures.len();
        let mut st = PassState {
            binder: Binder::new(),
            pipeline: None,
            scope_buffers: UsageTrack::new_sized(nb),
            scope_textures: UsageTrack::new_sized(ntex),
            inter_buffers: FirstLastTrack::new_sized(nb),
            inter_textures: FirstLastTrack::new_sized(ntex),
            debug_scope_depth: 0,
            dynamic_offset_count: 0,
            string_offset: 0,
            active_query: None,
            body: Vec::new(),
            buffer_inits: Vec::new(),
            texture_fixups: Vec::new(),
        };
        match tsw {
            Some(tw) => {
                match (tw.beginning_of_pass_write_index, tw.end_of_pass_write_index) {
                    (Some(a), Some(b)) => {
                        let lo = if a <= b {
                            a
                        } else {
                            b
                        };
                        let hi = if a <= b {
                            b
                        } else {
                            a
                        };
                        let ghost pre = st.body@;
                        let cmd = HalCommand::ResetQueries {
                            query_set: tw.query_set,
                            start: lo,
                            end: hi as u64 + 1,
                        };
                        st.body.push(cmd);
                        proof {
                            lemma_ops_push(pre, cmd);
                        }
                    },
                    (Some(a), None) => {
                        let ghost pre = st.body@;
                        let cmd = HalCommand::ResetQueries {
                            query_set: tw.query_set,
                            start: a,
                            end: a as u64 + 1,
                        };
                        st.body.push(cmd);
                        proof {
                            lemma_ops_push(pre, cmd);
                        }
                    },
                    (None, Some(b)) => {
                        let ghost pre = st.body@;
                        let cmd = HalCommand::ResetQueries {
                            query_set: tw.query_set,
                            start: b,
                            end: b as u64 + 1,
                        };
                        st.body.push(cmd);
                        proof {
                            lemma_ops_push(pre, cmd);
                        }
                    },
                    (None, None) => {},
                }
                let ghost pre = st.body@;
                let cmd = HalCommand::BeginComputePass {
                    timestamp_writes: Some(
                        HalTimestampWrites {
                            query_set: tw.query_set,
                            beginning_of_pass_write_index: tw.beginning_of_pass_write_index,
                            end_of_pass_write_index: tw.end_of_pass_write_index,
                        },
                    ),
                };
                st.body.push(cmd);
                proof {
                    lemma_ops_push(pre, cmd);
                }
            },
            None => {
                let ghost pre = st.body@;
                let cmd = HalCommand::BeginComputePass { timestamp_writes: None };
                st.body.push(cmd);
                proof {
                    lemma_ops_push(pre, cmd);
                }
            },
        }
        proof {
            assert(st@.body =~= init_body(tsw));
            assert(st@ =~~= init_state(rs, tsw));
        }
        let ncmd = base.commands.len();
        let mut i: usize = 0;
        while i < ncmd
            invariant
                i <= ncmd,
                ncmd == base.commands@.len(),
                *self == g_frozen,
                rs == res_of(*self),
                rs == res_of(*old(self)),
                crate::global::same_resources(*old(self), *self),
                wf_global(*self),
                wf_res(rs),
                self.command_buffers@.len() == old(self).command_buffers@.len(),
                cb_idx < self.command_buffers@.len(),
                forall|j: int|
                    0 <= j < old(self).command_buffers@.len() && j != cb_idx
                        ==> self.command_buffers@[j] == old(self).command_buffers@[j],
                cb0 == old(self).command_buffers@[cb_idx as int],
                crate::global::cb_same_but_status(cb0, self.command_buffers@[cb_idx as int]),
                self.command_buffers@[cb_idx as int].status == CommandEncoderStatus::Error,
                cb_dev == cb0.device,
                cb_dev < rs.devices.len(),
                dev == rs.devices[cb_dev as int],
                dev.valid,
                crate::record::wf_record(base@),
                crate::pass::wf_cmds(base@.commands, rs),
                wf_state(st@, rs),
                st@.dynamic_offset_count == crate::record::prefix_total(
                    base@.commands,
                    crate::record::dyn_f(),
                    i as int,
                ),
                st@.string_offset == crate::record::prefix_total(
                    base@.commands,
                    crate::record::str_f(),
                    i as int,
                ),
                st@.debug_scope_depth <= i,
                spec_run(rs, cb_dev, dev, base@, init_state(rs, tsw), 0) == spec_run(
                    rs,
                    cb_dev,
                    dev,
                    base@,
                    st@,
                    i as int,
                ),
            decreases ncmd - i,
        {
            let c = base.commands[i];
            let ghost st_pre = st@;
            proof {
                assert(crate::record::dyn_f()(c) == crate::record::dyn_count(c));
                assert(crate::record::str_f()(c) == crate::record::str_count(c));
                assert(crate::record::push_f()(c) == crate::record::push_count(c));
                assert(forall|cc: Command| #[trigger] crate::record::dyn_f()(cc) >= 0);
                assert(forall|cc: Command| #[trigger] crate::record::str_f()(cc) >= 0);
                assert(forall|cc: Command| #[trigger] crate::record::push_f()(cc) >= 0);
                crate::record::lemma_prefix_total_step(
                    base@.commands,
                    crate::record::dyn_f(),
                    i as int,
                );
                crate::record::lemma_prefix_total_step(
                    base@.commands,
                    crate::record::str_f(),
                    i as int,
                );
                crate::record::lemma_prefix_total_step(
                    base@.commands,
                    crate::record::push_f(),
                    i as int,
                );
                crate::record::lemma_prefix_total_le(
                    base@.commands,
                    crate::record::dyn_f(),
                    i as int + 1,
                );
                crate::record::lemma_prefix_total_le(
                    base@.commands,
                    crate::record::str_f(),
                    i as int + 1,
                );
                crate::record::lemma_prefix_total_le(
                    base@.commands,
                    crate::record::push_f(),
                    i as int + 1,
                );
                assert(crate::pass::cmd_ok(base@.commands[i as int], rs));
            }
            let res: Result<(), ComputePassErrorInner> = match c {
                Command::SetBindGroup { index, num_dynamic_offsets, bind_group } => {
                    replay_set_bind_group(
                        self,
                        cb_dev,
                        &base,
                        &mut st,
                        index,
                        num_dynamic_offsets,
                        bind_group,
                    )
                },
                Command::SetPipeline { pipeline } => {
                    replay_set_pipeline(self, cb_dev, &mut st, pipeline)
                },
                Command::SetPushConstant { offset, size_bytes, values_offset } => {
                    replay_set_push_constant(
                        self,
                        &base,
                        &mut st,
                        offset,
                        size_bytes,
                        values_offset,
                    )
                },
                Command::Dispatch { x, y, z } => replay_dispatch(self, dev, &mut st, x, y, z),
                Command::DispatchIndirect { buffer, offset } => {
                    replay_dispatch_indirect(self, cb_dev, dev, &mut st, buffer, offset)
                },
                Command::PushDebugGroup { color, len } => {
                    replay_push_debug_group(dev, &base, &mut st, len);
                    Ok(())
                },
                Command::PopDebugGroup => replay_pop_debug_group(dev, &mut st),
                Command::InsertDebugMarker { color, len } => {
                    replay_insert_debug_marker(dev, &base, &mut st, len);
                    Ok(())
                },
                Command::WriteTimestamp { query_set, query_index } => {
                    replay_write_timestamp(self, cb_dev, dev, &mut st, query_set, query_index)
                },
                Command::BeginPipelineStatisticsQuery { query_set, query_index } => {
                    replay_begin_stats_query(self, cb_dev, &mut st, query_set, query_index)
                },
                Command::EndPipelineStatisticsQuery => replay_end_stats_query(&mut st),
            };
            match res {
                Ok(()) => {
                    proof {
                        assert(spec_step(rs, cb_dev, dev, base@, st_pre, c) == Ok::<
                            StateV,
                            ComputePassErrorInner,
                        >(st@));
                        lemma_step_props(rs, cb_dev, dev, base@, st_pre, c);
                        assert(spec_run(rs, cb_dev, dev, base@, st_pre, i as int) == spec_run(
                            rs,
                            cb_dev,
                            dev,
                            base@,
                            st@,
                            i as int + 1,
                        ));
                    }
                },
                Err(inner) => {
                    proof {
                        assert(spec_step(rs, cb_dev, dev, base@, st_pre, c) == Err::<
                            StateV,
                            ComputePassErrorInner,
                        >(inner));
                        assert(spec_run(rs, cb_dev, dev, base@, st_pre, i as int) == Err::<
                            StateV,
                            (int, ComputePassErrorInner),
                        >((i as int, inner)));
                    }
                    return Err(ComputePassError { scope: scope_of_exec(c), inner });
                },
            }
            i = i + 1;
        }
        let ghost s_final = st@;
        proof {
            assert(spec_run(rs, cb_dev, dev, base@, s_final, ncmd as int) == Ok::<
                StateV,
                (int, ComputePassErrorInner),
            >(s_final));
        }
        let ghost pre_end = st.body@;
        st.body.push(HalCommand::EndComputePass);
        proof {
            lemma_ops_push(pre_end, HalCommand::EndComputePass);
        }
        self.command_buffers[cb_idx].status = CommandEncoderStatus::Recording;
        // Pre-body segment: discard zero-clears, then the barrier prelude.
        let mut prebody: Vec<HalCommand> = Vec::new();
        let nf = st.texture_fixups.len();
        let mut k: usize = 0;
        while k < nf
            invariant
                k <= nf,
                nf == st.texture_fixups@.len(),
                ops_of(prebody@).len() == k,
                forall|j: int|
                    0 <= j < k ==> ops_of(prebody@)[j] == (HalOp::ClearTexture {
                        texture: st.texture_fixups@[j] as int,
                    }),
            decreases nf - k,
        {
            let ghost pre = prebody@;
            let cmd = HalCommand::ClearTexture { texture: st.texture_fixups[k] };
            prebody.push(cmd);
            proof {
                lemma_ops_push(pre, cmd);
            }
            k = k + 1;
        }
        proof {
            assert(ops_of(prebody@) =~= fixup_clears(st@.texture_fixups));
        }
        self.command_buffers[cb_idx].tracker_buffers.grow_to(nb);
        self.command_buffers[cb_idx].tracker_textures.grow_to(ntex);
        proof {
            assert(self.command_buffers@[cb_idx as int].tracker_buffers.entries@ =~= grow_entries(
                cb0.tracker_buffers.entries@,
                rs.buffers.len() as int,
            ));
            assert(self.command_buffers@[cb_idx as int].tracker_textures.entries@ =~= grow_entries(
                cb0.tracker_textures.entries@,
                rs.textures.len() as int,
            ));
        }
        self.command_buffers[cb_idx].tracker_buffers.merge_from(
            &st.inter_buffers,
            ResourceKind::Buffer,
            &mut prebody,
        );
        self.command_buffers[cb_idx].tracker_textures.merge_from(
            &st.inter_textures,
            ResourceKind::Texture,
            &mut prebody,
        );
        let PassState { body, mut buffer_inits, .. } = st;
        self.command_buffers[cb_idx].segments.push(prebody);
        self.command_buffers[cb_idx].segments.push(body);
        self.command_buffers[cb_idx].buffer_memory_init_actions.append(&mut buffer_inits);
        proof {
            let outcome = spec_end_impl(
                rs,
                cb0.device,
                cb0.tracker_buffers.entries@,
                cb0.tracker_textures.entries@,
                base@,
                tsw,
            );
            match outcome {
                EndSpec::Done { state, prebody: pb, tracker_buf, tracker_tex } => {
                    let cb2 = self.command_buffers@[cb_idx as int];
                    assert(cb2@.segments =~~= cb0@.segments.push(pb).push(state.body));
                    assert(cb2.buffer_memory_init_actions@ =~= cb0.buffer_memory_init_actions@
                        + state.buffer_inits);
                },
                _ => {
                    assert(false);
                },
            }
        }
        Ok(())
    }

    /// Ends the pass: unlocks the parent encoder, takes the record, and runs
    /// finalization. The pass records nothing further afterwards.
    pub fn compute_pass_end(&mut self, pass: &mut ComputePass) -> (r: Result<
        (),
        ComputePassError,
    >)
        requires
            wf_global(*old(self)),
            crate::pass::wf_pass(old(pass)@, *old(self)),
        ensures
            crate::global::same_resources(*old(self), *final(self)),
            wf_global(*final(self)),
            final(self).command_buffers@.len() == old(self).command_buffers@.len(),
            final(pass)@.parent == old(pass)@.parent,
            ({
                match old(pass)@.parent {
                    None => {
                        &&& r == Err::<(), ComputePassError>(
                            (ComputePassError {
                                scope: PassErrorScope::Pass(None),
                                inner: ComputePassErrorInner::InvalidParentEncoder,
                            }),
                        )
                        &&& *final(self) == *old(self)
                        &&& final(pass)@ == old(pass)@
                    },
                    Some(cb_idx) => {
                        let rs = res_of(*old(self));
                        let cb = old(self).command_buffers@[cb_idx as int];
                        let cb2 = final(self).command_buffers@[cb_idx as int];
                        let scope = PassErrorScope::Pass(Some(cb_idx));
                        &&& (forall|j: int|
                            0 <= j < old(self).command_buffers@.len() && j != cb_idx ==> final(self).command_buffers@[j] == old(self).command_buffers@[j])
                        &&& if cb.status != CommandEncoderStatus::Locked {
                            &&& r == Err::<(), ComputePassError>(
                                (ComputePassError {
                                    scope,
                                    inner: ComputePassErrorInner::Encoder(
                                        CommandEncoderError::Invalid,
                                    ),
                                }),
                            )
                            &&& *final(self) == *old(self)
                            &&& final(pass)@ == old(pass)@
                        } else {
                            match old(pass)@.base {
                                None => {
                                    &&& r == Err::<(), ComputePassError>(
                                        (ComputePassError {
                                            scope,
                                            inner: ComputePassErrorInner::PassEnded,
                                        }),
                                    )
                                    &&& final(pass)@ == old(pass)@
                                    &&& crate::global::cb_same_but_status(cb, cb2)
                                    &&& cb2.status == CommandEncoderStatus::Recording
                                },
                                Some(rec) => {
                                    &&& final(pass)@.base is None
                                    &&& final(pass)@.timestamp_writes is None
                                    &&& final(pass)@.filter_groups == old(pass)@.filter_groups
                                    &&& final(pass)@.filter_pipeline == old(pass)@.filter_pipeline
                                    &&& match spec_end_impl(
                                        rs,
                                        cb.device,
                                        cb.tracker_buffers.entries@,
                                        cb.tracker_textures.entries@,
                                        rec,
                                        old(pass)@.timestamp_writes,
                                    ) {
                                        EndSpec::DeviceInvalid => {
                                            &&& r == Err::<(), ComputePassError>(
                                                (ComputePassError {
                                                    scope,
                                                    inner: ComputePassErrorInner::Device(
                                                        DeviceError::Invalid,
                                                    ),
                                                }),
                                            )
                                            &&& crate::global::cb_same_but_status(cb, cb2)
                                            &&& cb2.status == CommandEncoderStatus::Recording
                                        },
                                        EndSpec::ReplayErr { at, inner } => {
                                            &&& r == Err::<(), ComputePassError>(
                                                (ComputePassError {
                                                    scope: scope_of(rec.commands[at]),
                                                    inner,
                                                }),
                                            )
                                            &&& crate::global::cb_same_but_status(cb, cb2)
                                            &&& cb2.status == CommandEncoderStatus::Error
                                        },
                                        EndSpec::Done { state, prebody, tracker_buf, tracker_tex } => {
                                            &&& r is Ok
                                            &&& cb2.status == CommandEncoderStatus::Recording
                                            &&& cb2.device == cb.device
                                            &&& cb2@.segments == cb@.segments.push(prebody).push(
                                                state.body,
                                            )
                                            &&& cb2.tracker_buffers.entries@ == tracker_buf
                                            &&& cb2.tracker_textures.entries@ == tracker_tex
                                            &&& cb2.buffer_memory_init_actions@
                                                == cb.buffer_memory_init_actions@
                                                + state.buffer_inits
                                        },
                                    }
                                },
                            }
                        }
                    },
                }
            }),
    {
        let parent = match pass.parent {
            Some(p) => p,
            None => {
                return Err(
                    ComputePassError {
                        scope: PassErrorScope::Pass(None),
                        inner: ComputePassErrorInner::InvalidParentEncoder,
                    },
                );
            },
        };
        let scope = PassErrorScope::Pass(Some(parent));
        let locked = match self.command_buffers[parent].status {
            CommandEncoderStatus::Locked => true,
            _ => false,
        };
        if !locked {
            return Err(
                ComputePassError {
                    scope,
                    inner: ComputePassErrorInner::Encoder(CommandEncoderError::Invalid),
                },
            );
        }
        self.command_buffers[parent].status = CommandEncoderStatus::Recording;
        let base = match pass.base.take() {
            Some(b) => b,
            None => {
                return Err(
                    ComputePassError { scope, inner: ComputePassErrorInner::PassEnded },
                );
            },
        };
        let tsw = pass.timestamp_writes.take();
        let ghost g_unlocked = *self;
        proof {
            assert(res_of(g_unlocked) =~= res_of(*old(self)));
        }
        self.compute_pass_end_impl(parent, base, tsw)
    }
}

} // verus!
