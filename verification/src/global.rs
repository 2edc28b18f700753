//! The global state a pass runs against: the resource tables and the command
//! buffers, plus the recording half of the pass API.

use vstd::prelude::*;

use crate::data::BindGroup;
use crate::data::Buffer;
use crate::data::BufferInitAction;
use crate::data::ComputePipeline;
use crate::data::Device;
use crate::data::MAX_BIND_GROUPS;
use crate::data::QuerySet;
use crate::data::Texture;
use crate::errors::CommandEncoderError;
use crate::errors::ComputePassError;
use crate::errors::ComputePassErrorInner;
use crate::errors::DeviceError;
use crate::errors::PassErrorScope;
use crate::hal::HalCommand;
use crate::hal::HalOp;
use crate::pass::ComputePass;
use crate::pass::ComputePassDescriptor;
use crate::pass::ComputePassTimestampWrites;
use crate::pass::FilterSlot;
use crate::pass::cmd_ok;
use crate::pass::filter_redundant;
use crate::pass::filter_update;
use crate::pass::le_words_exec;
use crate::pass::lemma_wf_cmds_push;
use crate::pass::rec_label_cmd;
use crate::pass::rec_plain;
use crate::pass::rec_resolved;
use crate::pass::rec_set_bind_group;
use crate::pass::rec_set_pipeline;
use crate::pass::rec_set_push_constant;
use crate::pass::wf_cmds;
use crate::pass::wf_pass;
use crate::record::Command;
use crate::record::dyn_count;
use crate::record::lemma_wf_record_append;
use crate::record::push_count;
use crate::record::str_count;
use crate::record::wf_record;
use crate::track::FirstLastTrack;
use crate::track::ops_of;
use crate::util::append_slice;
use crate::util::eq_slice_u32;
use crate::util::slice_copy;
use vstd::string::StringSliceAdditionalSpecFns;

verus! {

#[derive(Clone, Copy, PartialEq, Eq, Structural, Debug)]
pub enum CommandEncoderStatus {
    /// Ready to record.
    Recording,
    /// Locked by a live compute pass.
    Locked,
    Finished,
    /// A pass failed; the buffer must be discarded.
    Error,
}

/// A command buffer: the encoder state, the hardware segments recorded so
/// far (in execution order), the persistent per-resource trackers and the
/// pending memory-init work.
pub struct CommandBuffer {
    /// Index of the owning device.
    pub device: usize,
    pub status: CommandEncoderStatus,
    /// Closed hardware-command segments, in the order they will execute.
    pub segments: Vec<Vec<HalCommand>>,
    pub tracker_buffers: FirstLastTrack,
    pub tracker_textures: FirstLastTrack,
    pub buffer_memory_init_actions: Vec<BufferInitAction>,
}

/// Mathematical form of a command buffer.
#[verifier::ext_equal]
pub ghost struct CbV {
    pub device: usize,
    pub status: CommandEncoderStatus,
    pub segments: Seq<Seq<HalOp>>,
    pub tracker_buffers: Seq<Option<(u32, u32)>>,
    pub tracker_textures: Seq<Option<(u32, u32)>>,
    pub buffer_memory_init_actions: Seq<BufferInitAction>,
}

impl View for CommandBuffer {
    type V = CbV;

    open spec fn view(&self) -> CbV {
        CbV {
            device: self.device,
            status: self.status,
            segments: Seq::new(self.segments@.len(), |i: int| ops_of(self.segments@[i]@)),
            tracker_buffers: self.tracker_buffers.entries@,
            tracker_textures: self.tracker_textures.entries@,
            buffer_memory_init_actions: self.buffer_memory_init_actions@,
        }
    }
}

/// The process-wide state: resource tables indexed by the identifiers the
/// API hands out, and the command buffers.
pub struct Global {
    pub devices: Vec<Device>,
    pub command_buffers: Vec<CommandBuffer>,
    pub buffers: Vec<Buffer>,
    pub textures: Vec<Texture>,
    pub bind_groups: Vec<BindGroup>,
    pub compute_pipelines: Vec<ComputePipeline>,
    pub query_sets: Vec<QuerySet>,
}

/// The resource tables alone, as mathematical sequences: what replay reads
/// and never changes.
#[verifier::ext_equal]
pub ghost struct ResV {
    pub devices: Seq<Device>,
    pub buffers: Seq<Buffer>,
    pub textures: Seq<Texture>,
    pub bind_groups: Seq<BindGroup>,
    pub compute_pipelines: Seq<ComputePipeline>,
    pub query_sets: Seq<QuerySet>,
}

/// The resource tables of a global state.
pub open spec fn res_of(g: Global) -> ResV {
    ResV {
        devices: g.devices@,
        buffers: g.buffers@,
        textures: g.textures@,
        bind_groups: g.bind_groups@,
        compute_pipelines: g.compute_pipelines@,
        query_sets: g.query_sets@,
    }
}

/// Well-formedness of the resource tables: every resource belongs to an
/// existing device, references between resources stay inside the tables, and
/// creation-time validation has bounded what replay relies on.
pub open spec fn wf_res(rs: ResV) -> bool {
    &&& forall|d: int|
        0 <= d < rs.devices.len() ==> (#[trigger] rs.devices[d]).limits.max_bind_groups
            <= MAX_BIND_GROUPS as u32
    &&& forall|b: int|
        0 <= b < rs.buffers.len() ==> (#[trigger] rs.buffers[b]).device < rs.devices.len()
    &&& forall|t: int|
        0 <= t < rs.textures.len() ==> (#[trigger] rs.textures[t]).device < rs.devices.len()
    &&& forall|b: int|
        0 <= b < rs.bind_groups.len() ==> {
            let bg = #[trigger] rs.bind_groups[b];
            &&& bg.device < rs.devices.len()
            &&& forall|u: int|
                0 <= u < bg.used_buffers@.len() ==> (#[trigger] bg.used_buffers@[u]).buffer
                    < rs.buffers.len()
            &&& forall|u: int|
                0 <= u < bg.used_textures@.len() ==> (#[trigger] bg.used_textures@[u]).texture
                    < rs.textures.len()
            &&& forall|u: int|
                0 <= u < bg.dynamic_bindings@.len() ==> (#[trigger] bg.dynamic_bindings@[u]).alignment
                    > 0
        }
    &&& forall|p: int|
        0 <= p < rs.compute_pipelines.len() ==> {
            let pl = #[trigger] rs.compute_pipelines[p];
            &&& pl.device < rs.devices.len()
            &&& pl.layout.group_layouts@.len() <= rs.devices[pl.device as int].limits.max_bind_groups
                as int
            &&& pl.late_sized_groups@.len() <= MAX_BIND_GROUPS as int
            &&& forall|r: int|
                0 <= r < pl.layout.push_constant_ranges@.len() ==> {
                    let range = #[trigger] pl.layout.push_constant_ranges@[r];
                    range.start <= range.end && range.start % 4 == 0 && range.end % 4 == 0
                }
        }
    &&& forall|q: int|
        0 <= q < rs.query_sets.len() ==> (#[trigger] rs.query_sets[q]).device < rs.devices.len()
}

/// Well-formedness of the global state: sound resource tables, and every
/// command buffer owned by an existing device.
pub open spec fn wf_global(g: Global) -> bool {
    &&& wf_res(res_of(g))
    &&& forall|c: int|
        0 <= c < g.command_buffers@.len() ==> (#[trigger] g.command_buffers@[c]).device
            < g.devices@.len()
}

/// Locking succeeds on an existing encoder that is recording.
pub open spec fn lock_encoder_ok(g: Global, encoder_id: usize) -> bool {
    encoder_id < g.command_buffers@.len() && g.command_buffers@[encoder_id as int].status
        == CommandEncoderStatus::Recording
}

/// What pass creation decides: whether the encoder was locked, the parent and
/// timestamp writes the pass keeps, and the error returned alongside it.
pub open spec fn spec_create_pass(
    g: Global,
    encoder_id: usize,
    tsw: Option<ComputePassTimestampWrites>,
) -> (bool, Option<usize>, Option<ComputePassTimestampWrites>, Option<CommandEncoderError>) {
    if !lock_encoder_ok(g, encoder_id) {
        (false, None, None, Some(CommandEncoderError::Invalid))
    } else {
        match tsw {
            Some(tw) => {
                if tw.query_set >= g.query_sets@.len() {
                    (true, None, None, Some(CommandEncoderError::InvalidTimestampWritesQuerySetId))
                } else if g.query_sets@[tw.query_set as int].device
                    != g.command_buffers@[encoder_id as int].device {
                    (
                        true,
                        None,
                        None,
                        Some(
                            CommandEncoderError::Device(
                                DeviceError::DeviceMismatch {
                                    expected: g.command_buffers@[encoder_id as int].device,
                                    actual: g.query_sets@[tw.query_set as int].device,
                                },
                            ),
                        ),
                    )
                } else {
                    (true, Some(encoder_id), Some(tw), None)
                }
            },
            None => (true, Some(encoder_id), None, None),
        }
    }
}

/// Both command buffers hold the same data, up to the encoder status.
pub open spec fn cb_same_but_status(a: CommandBuffer, b: CommandBuffer) -> bool {
    &&& b.device == a.device
    &&& b.segments == a.segments
    &&& b.tracker_buffers == a.tracker_buffers
    &&& b.tracker_textures == a.tracker_textures
    &&& b.buffer_memory_init_actions == a.buffer_memory_init_actions
}

/// The resource tables of both states are identical (command buffers may
/// differ).
pub open spec fn same_resources(a: Global, b: Global) -> bool {
    &&& b.devices == a.devices
    &&& b.buffers == a.buffers
    &&& b.textures == a.textures
    &&& b.bind_groups == a.bind_groups
    &&& b.compute_pipelines == a.compute_pipelines
    &&& b.query_sets == a.query_sets
}

impl Global {
    /// Creates a compute pass.
    ///
    /// If creation fails, an invalid pass is returned alongside the error;
    /// every later operation on it reports the failure uniformly. On success
    /// the parent encoder is locked for the pass's lifetime.
    pub fn command_encoder_create_compute_pass(
        &mut self,
        encoder_id: usize,
        desc: ComputePassDescriptor,
    ) -> (r: (ComputePass, Option<CommandEncoderError>))
        ensures
            ({
                let (lock, parent, stored, err) = spec_create_pass(
                    *old(self),
                    encoder_id,
                    desc.timestamp_writes,
                );
                &&& r.1 == err
                &&& r.0@.parent == parent
                &&& r.0@.timestamp_writes == stored
                &&& (r.0@.base matches Some(rec) && rec == crate::record::empty_record(rec.label))
                &&& r.0@.filter_pipeline is None
                &&& same_resources(*old(self), *final(self))
                &&& final(self).command_buffers@.len() == old(self).command_buffers@.len()
                &&& (forall|j: int|
                    0 <= j < old(self).command_buffers@.len() && j != encoder_id ==> final(self).command_buffers@[j] == old(self).command_buffers@[j])
                &&& (if lock {
                    cb_same_but_status(
                        old(self).command_buffers@[encoder_id as int],
                        final(self).command_buffers@[encoder_id as int],
                    ) && final(self).command_buffers@[encoder_id as int].status
                        == CommandEncoderStatus::Locked
                } else {
                    final(self).command_buffers@ == old(self).command_buffers@
                })
                &&& (wf_global(*old(self)) ==> wf_pass(r.0@, *final(self)) && wf_global(
                    *final(self),
                ))
            }),
    {
        if encoder_id >= self.command_buffers.len() {
            return (ComputePass::new(None, desc.label, None), Some(CommandEncoderError::Invalid));
        }
        let recording = match self.command_buffers[encoder_id].status {
            CommandEncoderStatus::Recording => true,
            _ => false,
        };
        if !recording {
            return (ComputePass::new(None, desc.label, None), Some(CommandEncoderError::Invalid));
        }
        self.command_buffers[encoder_id].status = CommandEncoderStatus::Locked;
        // The timestamp-writes descriptor is resolved only once the encoder
        // is locked; a failure here hands back the invalid pass with the
        // encoder still locked, so later work on the encoder reports it.
        match desc.timestamp_writes {
            Some(tw) => {
                if tw.query_set >= self.query_sets.len() {
                    return (
                        ComputePass::new(None, desc.label, None),
                        Some(CommandEncoderError::InvalidTimestampWritesQuerySetId),
                    );
                }
                let qs_dev = self.query_sets[tw.query_set].device;
                let cb_dev = self.command_buffers[encoder_id].device;
                if qs_dev != cb_dev {
                    return (
                        ComputePass::new(None, desc.label, None),
                        Some(
                            CommandEncoderError::Device(
                                DeviceError::DeviceMismatch { expected: cb_dev, actual: qs_dev },
                            ),
                        ),
                    );
                }
                (ComputePass::new(Some(encoder_id), desc.label, Some(tw)), None)
            },
            None => (ComputePass::new(Some(encoder_id), desc.label, None), None),
        }
    }

    /// Append one command, with no side-buffer data, to a live pass.
    fn record_plain(&self, pass: &mut ComputePass, c: Command, scope: PassErrorScope) -> (r:
        Result<(), ComputePassError>)
        requires
            cmd_ok(c, res_of(*self)),
            dyn_count(c) == 0,
            str_count(c) == 0,
            push_count(c) == 0,
            !(c matches Command::SetPushConstant { .. }),
        ensures
            ({
                let (p2, e) = rec_plain(old(pass)@, c);
                &&& final(pass)@ == p2
                &&& (match e {
                    None => r is Ok,
                    Some(inner) => r == Err::<(), ComputePassError>(
                        (ComputePassError { scope, inner }),
                    ),
                })
                &&& (wf_pass(old(pass)@, *self) ==> wf_pass(final(pass)@, *self))
            }),
    {
        let taken = pass.base.take();
        match taken {
            None => Err(ComputePassError { scope, inner: ComputePassErrorInner::PassEnded }),
            Some(mut base) => {
                let ghost r0 = base@;
                base.commands.push(c);
                pass.base = Some(base);
                proof {
                    let (p2, e) = rec_plain(old(pass)@, c);
                    assert(pass@.base.unwrap() =~= p2.base.unwrap());
                    assert(pass@ =~= p2);
                    if wf_pass(old(pass)@, *self) {
                        lemma_wf_record_append(r0, c, pass@.base.unwrap());
                        lemma_wf_cmds_push(r0.commands, c, res_of(*self));
                    }
                }
                Ok(())
            },
        }
    }

    /// Record a `SetBindGroup`, dropping it when the redundancy filter shows
    /// the same group already bound at that slot with the same offsets.
    pub fn compute_pass_set_bind_group(
        &self,
        pass: &mut ComputePass,
        index: u32,
        bind_group_id: usize,
        offsets: &[u32],
    ) -> (r: Result<(), ComputePassError>)
        ensures
            ({
                let (p2, e) = rec_set_bind_group(res_of(*self), old(pass)@, index, bind_group_id, offsets@);
                &&& final(pass)@ == p2
                &&& (match e {
                    None => r is Ok,
                    Some(inner) => r == Err::<(), ComputePassError>(
                        (ComputePassError { scope: PassErrorScope::SetBindGroup, inner }),
                    ),
                })
                &&& (wf_pass(old(pass)@, *self) ==> wf_pass(final(pass)@, *self))
            }),
    {
        if pass.base.is_none() {
            return Err(
                ComputePassError {
                    scope: PassErrorScope::SetBindGroup,
                    inner: ComputePassErrorInner::PassEnded,
                },
            );
        }
        // Redundancy check: run only once the pass is known to be live.
        let mut redundant = false;
        if (index as usize) < pass.current_bind_groups.len() {
            match &pass.current_bind_groups[index as usize] {
                Some(fs) => {
                    if fs.group == bind_group_id && eq_slice_u32(&fs.offsets, offsets) {
                        redundant = true;
                    }
                },
                None => {},
            }
        }
        proof {
            assert(redundant == filter_redundant(old(pass)@, index, bind_group_id, offsets@));
        }
        if redundant {
            return Ok(());
        }
        if (index as usize) < pass.current_bind_groups.len() {
            pass.current_bind_groups[index as usize] = Some(
                FilterSlot { group: bind_group_id, offsets: slice_copy(offsets) },
            );
        }
        proof {
            assert(pass@.filter_groups =~~= filter_update(
                old(pass)@,
                index,
                bind_group_id,
                offsets@,
            ));
        }
        if bind_group_id >= self.bind_groups.len() {
            return Err(
                ComputePassError {
                    scope: PassErrorScope::SetBindGroup,
                    inner: ComputePassErrorInner::InvalidBindGroupId(bind_group_id),
                },
            );
        }
        let c = Command::SetBindGroup {
            index,
            num_dynamic_offsets: offsets.len(),
            bind_group: bind_group_id,
        };
        let taken = pass.base.take();
        match taken {
            Some(mut base) => {
                let ghost r0 = base@;
                base.commands.push(c);
                append_slice(&mut base.dynamic_offsets, offsets);
                pass.base = Some(base);
                proof {
                    let (p2, e) = rec_set_bind_group(
                        res_of(*self),
                        old(pass)@,
                        index,
                        bind_group_id,
                        offsets@,
                    );
                    assert(pass@.base.unwrap() =~= p2.base.unwrap());
                    assert(pass@ =~= p2);
                    if wf_pass(old(pass)@, *self) {
                        lemma_wf_record_append(r0, c, pass@.base.unwrap());
                        lemma_wf_cmds_push(r0.commands, c, res_of(*self));
                    }
                }
                Ok(())
            },
            None => {
                // Unreachable: the pass was checked to be live above.
                proof {
                    assert(false);
                }
                Err(
                    ComputePassError {
                        scope: PassErrorScope::SetBindGroup,
                        inner: ComputePassErrorInner::PassEnded,
                    },
                )
            },
        }
    }

    /// Record a `SetPipeline`, dropping it when it equals the last pipeline
    /// recorded in this pass.
    pub fn compute_pass_set_pipeline(&self, pass: &mut ComputePass, pipeline_id: usize) -> (r:
        Result<(), ComputePassError>)
        ensures
            ({
                let (p2, e) = rec_set_pipeline(res_of(*self), old(pass)@, pipeline_id);
                &&& final(pass)@ == p2
                &&& (match e {
                    None => r is Ok,
                    Some(inner) => r == Err::<(), ComputePassError>(
                        (ComputePassError { scope: PassErrorScope::SetPipelineCompute, inner }),
                    ),
                })
                &&& (wf_pass(old(pass)@, *self) ==> wf_pass(final(pass)@, *self))
            }),
    {
        if pass.base.is_none() {
            return Err(
                ComputePassError {
                    scope: PassErrorScope::SetPipelineCompute,
                    inner: ComputePassErrorInner::PassEnded,
                },
            );
        }
        let redundant = match pass.current_pipeline {
            Some(last) => last == pipeline_id,
            None => false,
        };
        if redundant {
            return Ok(());
        }
        pass.current_pipeline = Some(pipeline_id);
        if pipeline_id >= self.compute_pipelines.len() {
            return Err(
                ComputePassError {
                    scope: PassErrorScope::SetPipelineCompute,
                    inner: ComputePassErrorInner::InvalidPipeline(pipeline_id),
                },
            );
        }
        let c = Command::SetPipeline { pipeline: pipeline_id };
        let taken = pass.base.take();
        match taken {
            Some(mut base) => {
                let ghost r0 = base@;
                base.commands.push(c);
                pass.base = Some(base);
                proof {
                    let (p2, e) = rec_set_pipeline(res_of(*self), old(pass)@, pipeline_id);
                    assert(pass@.base.unwrap() =~= p2.base.unwrap());
                    assert(pass@ =~= p2);
                    if wf_pass(old(pass)@, *self) {
                        lemma_wf_record_append(r0, c, pass@.base.unwrap());
                        lemma_wf_cmds_push(r0.commands, c, res_of(*self));
                    }
                }
                Ok(())
            },
            None => {
                proof {
                    assert(false);
                }
                Err(
                    ComputePassError {
                        scope: PassErrorScope::SetPipelineCompute,
                        inner: ComputePassErrorInner::PassEnded,
                    },
                )
            },
        }
    }

    /// Record a `SetPushConstant`: the data must be 4-byte aligned at a
    /// 4-byte aligned offset; it is stored as words in the push-constant side
    /// buffer.
    pub fn compute_pass_set_push_constant(
        &self,
        pass: &mut ComputePass,
        offset: u32,
        data: &[u8],
    ) -> (r: Result<(), ComputePassError>)
        ensures
            ({
                let (p2, e) = rec_set_push_constant(old(pass)@, offset, data@);
                &&& final(pass)@ == p2
                &&& (match e {
                    None => r is Ok,
                    Some(inner) => r == Err::<(), ComputePassError>(
                        (ComputePassError { scope: PassErrorScope::SetPushConstant, inner }),
                    ),
                })
                &&& (wf_pass(old(pass)@, *self) ==> wf_pass(final(pass)@, *self))
            }),
    {
        if pass.base.is_none() {
            return Err(
                ComputePassError {
                    scope: PassErrorScope::SetPushConstant,
                    inner: ComputePassErrorInner::PassEnded,
                },
            );
        }
        if offset % 4 != 0 {
            return Err(
                ComputePassError {
                    scope: PassErrorScope::SetPushConstant,
                    inner: ComputePassErrorInner::PushConstantOffsetAlignment,
                },
            );
        }
        if data.len() % 4 != 0 {
            return Err(
                ComputePassError {
                    scope: PassErrorScope::SetPushConstant,
                    inner: ComputePassErrorInner::PushConstantSizeAlignment,
                },
            );
        }
        let taken = pass.base.take();
        match taken {
            Some(mut base) => {
                if data.len() > u32::MAX as usize || base.push_constant_data.len() > u32::MAX
                    as usize {
                    pass.base = Some(base);
                    proof {
                        assert(pass@ =~= old(pass)@);
                    }
                    return Err(
                        ComputePassError {
                            scope: PassErrorScope::SetPushConstant,
                            inner: ComputePassErrorInner::PushConstantOutOfMemory,
                        },
                    );
                }
                let c = Command::SetPushConstant {
                    offset,
                    size_bytes: data.len() as u32,
                    values_offset: base.push_constant_data.len() as u32,
                };
                let ghost r0 = base@;
                base.commands.push(c);
                let mut words = le_words_exec(data);
                base.push_constant_data.append(&mut words);
                pass.base = Some(base);
                proof {
                    let (p2, e) = rec_set_push_constant(old(pass)@, offset, data@);
                    assert(pass@.base.unwrap() =~= p2.base.unwrap());
                    assert(pass@ =~= p2);
                    if wf_pass(old(pass)@, *self) {
                        lemma_wf_record_append(r0, c, pass@.base.unwrap());
                        lemma_wf_cmds_push(r0.commands, c, res_of(*self));
                    }
                }
                Ok(())
            },
            None => {
                proof {
                    assert(false);
                }
                Err(
                    ComputePassError {
                        scope: PassErrorScope::SetPushConstant,
                        inner: ComputePassErrorInner::PassEnded,
                    },
                )
            },
        }
    }

    /// Record a `Dispatch` of the given workgroup counts.
    pub fn compute_pass_dispatch_workgroups(
        &self,
        pass: &mut ComputePass,
        groups_x: u32,
        groups_y: u32,
        groups_z: u32,
    ) -> (r: Result<(), ComputePassError>)
        ensures
            ({
                let (p2, e) = rec_plain(
                    old(pass)@,
                    (Command::Dispatch { x: groups_x, y: groups_y, z: groups_z }),
                );
                &&& final(pass)@ == p2
                &&& (match e {
                    None => r is Ok,
                    Some(inner) => r == Err::<(), ComputePassError>(
                        (ComputePassError {
                            scope: PassErrorScope::Dispatch { indirect: false },
                            inner,
                        }),
                    ),
                })
                &&& (wf_pass(old(pass)@, *self) ==> wf_pass(final(pass)@, *self))
            }),
    {
        self.record_plain(
            pass,
            Command::Dispatch { x: groups_x, y: groups_y, z: groups_z },
            PassErrorScope::Dispatch { indirect: false },
        )
    }

    /// Record a `DispatchIndirect`, resolving the argument buffer.
    pub fn compute_pass_dispatch_workgroups_indirect(
        &self,
        pass: &mut ComputePass,
        buffer_id: usize,
        offset: u64,
    ) -> (r: Result<(), ComputePassError>)
        ensures
            ({
                let (p2, e) = rec_resolved(
                    old(pass)@,
                    buffer_id,
                    self.buffers@.len() as int,
                    ComputePassErrorInner::InvalidBufferId(buffer_id),
                    (Command::DispatchIndirect { buffer: buffer_id, offset }),
                );
                &&& final(pass)@ == p2
                &&& (match e {
                    None => r is Ok,
                    Some(inner) => r == Err::<(), ComputePassError>(
                        (ComputePassError {
                            scope: PassErrorScope::Dispatch { indirect: true },
                            inner,
                        }),
                    ),
                })
                &&& (wf_pass(old(pass)@, *self) ==> wf_pass(final(pass)@, *self))
            }),
    {
        if pass.base.is_none() {
            return Err(
                ComputePassError {
                    scope: PassErrorScope::Dispatch { indirect: true },
                    inner: ComputePassErrorInner::PassEnded,
                },
            );
        }
        if buffer_id >= self.buffers.len() {
            return Err(
                ComputePassError {
                    scope: PassErrorScope::Dispatch { indirect: true },
                    inner: ComputePassErrorInner::InvalidBufferId(buffer_id),
                },
            );
        }
        self.record_plain(
            pass,
            Command::DispatchIndirect { buffer: buffer_id, offset },
            PassErrorScope::Dispatch { indirect: true },
        )
    }

    /// Record a `PushDebugGroup`; the label bytes go to the string side
    /// buffer.
    pub fn compute_pass_push_debug_group(
        &self,
        pass: &mut ComputePass,
        label: &str,
        color: u32,
    ) -> (r: Result<(), ComputePassError>)
        ensures
            ({
                let (p2, e) = rec_label_cmd(
                    old(pass)@,
                    (Command::PushDebugGroup {
                        color,
                        len: label.spec_bytes().len() as usize,
                    }),
                    label.spec_bytes(),
                );
                &&& final(pass)@ == p2
                &&& (match e {
                    None => r is Ok,
                    Some(inner) => r == Err::<(), ComputePassError>(
                        (ComputePassError { scope: PassErrorScope::PushDebugGroup, inner }),
                    ),
                })
                &&& (wf_pass(old(pass)@, *self) ==> wf_pass(final(pass)@, *self))
            }),
    {
        let taken = pass.base.take();
        match taken {
            None => Err(
                ComputePassError {
                    scope: PassErrorScope::PushDebugGroup,
                    inner: ComputePassErrorInner::PassEnded,
                },
            ),
            Some(mut base) => {
                let bytes = label.as_bytes();
                let c = Command::PushDebugGroup { color, len: bytes.len() };
                let ghost r0 = base@;
                base.commands.push(c);
                append_slice(&mut base.string_data, bytes);
                pass.base = Some(base);
                proof {
                    let (p2, e) = rec_label_cmd(old(pass)@, c, label.spec_bytes());
                    assert(pass@.base.unwrap() =~= p2.base.unwrap());
                    assert(pass@ =~= p2);
                    if wf_pass(old(pass)@, *self) {
                        lemma_wf_record_append(r0, c, pass@.base.unwrap());
                        lemma_wf_cmds_push(r0.commands, c, res_of(*self));
                    }
                }
                Ok(())
            },
        }
    }

    /// Record a `PopDebugGroup`.
    pub fn compute_pass_pop_debug_group(&self, pass: &mut ComputePass) -> (r: Result<
        (),
        ComputePassError,
    >)
        ensures
            ({
                let (p2, e) = rec_plain(old(pass)@, Command::PopDebugGroup);
                &&& final(pass)@ == p2
                &&& (match e {
                    None => r is Ok,
                    Some(inner) => r == Err::<(), ComputePassError>(
                        (ComputePassError { scope: PassErrorScope::PopDebugGroup, inner }),
                    ),
                })
                &&& (wf_pass(old(pass)@, *self) ==> wf_pass(final(pass)@, *self))
            }),
    {
        self.record_plain(pass, Command::PopDebugGroup, PassErrorScope::PopDebugGroup)
    }

    /// Record an `InsertDebugMarker`; the label bytes go to the string side
    /// buffer.
    pub fn compute_pass_insert_debug_marker(
        &self,
        pass: &mut ComputePass,
        label: &str,
        color: u32,
    ) -> (r: Result<(), ComputePassError>)
        ensures
            ({
                let (p2, e) = rec_label_cmd(
                    old(pass)@,
                    (Command::InsertDebugMarker {
                        color,
                        len: label.spec_bytes().len() as usize,
                    }),
                    label.spec_bytes(),
                );
                &&& final(pass)@ == p2
                &&& (match e {
                    None => r is Ok,
                    Some(inner) => r == Err::<(), ComputePassError>(
                        (ComputePassError { scope: PassErrorScope::InsertDebugMarker, inner }),
                    ),
                })
                &&& (wf_pass(old(pass)@, *self) ==> wf_pass(final(pass)@, *self))
            }),
    {
        let taken = pass.base.take();
        match taken {
            None => Err(
                ComputePassError {
                    scope: PassErrorScope::InsertDebugMarker,
                    inner: ComputePassErrorInner::PassEnded,
                },
            ),
            Some(mut base) => {
                let bytes = label.as_bytes();
                let c = Command::InsertDebugMarker { color, len: bytes.len() };
                let ghost r0 = base@;
                base.commands.push(c);
                append_slice(&mut base.string_data, bytes);
                pass.base = Some(base);
                proof {
                    let (p2, e) = rec_label_cmd(old(pass)@, c, label.spec_bytes());
                    assert(pass@.base.unwrap() =~= p2.base.unwrap());
                    assert(pass@ =~= p2);
                    if wf_pass(old(pass)@, *self) {
                        lemma_wf_record_append(r0, c, pass@.base.unwrap());
                        lemma_wf_cmds_push(r0.commands, c, res_of(*self));
                    }
                }
                Ok(())
            },
        }
    }

    /// Record a `WriteTimestamp`, resolving the query set.
    pub fn compute_pass_write_timestamp(
        &self,
        pass: &mut ComputePass,
        query_set_id: usize,
        query_index: u32,
    ) -> (r: Result<(), ComputePassError>)
        ensures
            ({
                let (p2, e) = rec_resolved(
                    old(pass)@,
                    query_set_id,
                    self.query_sets@.len() as int,
                    ComputePassErrorInner::InvalidQuerySet(query_set_id),
                    (Command::WriteTimestamp { query_set: query_set_id, query_index }),
                );
                &&& final(pass)@ == p2
                &&& (match e {
                    None => r is Ok,
                    Some(inner) => r == Err::<(), ComputePassError>(
                        (ComputePassError { scope: PassErrorScope::WriteTimestamp, inner }),
                    ),
                })
                &&& (wf_pass(old(pass)@, *self) ==> wf_pass(final(pass)@, *self))
            }),
    {
        if pass.base.is_none() {
            return Err(
                ComputePassError {
                    scope: PassErrorScope::WriteTimestamp,
                    inner: ComputePassErrorInner::PassEnded,
                },
            );
        }
        if query_set_id >= self.query_sets.len() {
            return Err(
                ComputePassError {
                    scope: PassErrorScope::WriteTimestamp,
                    inner: ComputePassErrorInner::InvalidQuerySet(query_set_id),
                },
            );
        }
        self.record_plain(
            pass,
            Command::WriteTimestamp { query_set: query_set_id, query_index },
            PassErrorScope::WriteTimestamp,
        )
    }

    /// Record a `BeginPipelineStatisticsQuery`, resolving the query set.
    pub fn compute_pass_begin_pipeline_statistics_query(
        &self,
        pass: &mut ComputePass,
        query_set_id: usize,
        query_index: u32,
    ) -> (r: Result<(), ComputePassError>)
        ensures
            ({
                let (p2, e) = rec_resolved(
                    old(pass)@,
                    query_set_id,
                    self.query_sets@.len() as int,
                    ComputePassErrorInner::InvalidQuerySet(query_set_id),
                    (Command::BeginPipelineStatisticsQuery {
                        query_set: query_set_id,
                        query_index,
                    }),
                );
                &&& final(pass)@ == p2
                &&& (match e {
                    None => r is Ok,
                    Some(inner) => r == Err::<(), ComputePassError>(
                        (ComputePassError {
                            scope: PassErrorScope::BeginPipelineStatisticsQuery,
                            inner,
                        }),
                    ),
                })
                &&& (wf_pass(old(pass)@, *self) ==> wf_pass(final(pass)@, *self))
            }),
    {
        if pass.base.is_none() {
            return Err(
                ComputePassError {
                    scope: PassErrorScope::BeginPipelineStatisticsQuery,
                    inner: ComputePassErrorInner::PassEnded,
                },
            );
        }
        if query_set_id >= self.query_sets.len() {
            return Err(
                ComputePassError {
                    scope: PassErrorScope::BeginPipelineStatisticsQuery,
                    inner: ComputePassErrorInner::InvalidQuerySet(query_set_id),
                },
            );
        }
        self.record_plain(
            pass,
            Command::BeginPipelineStatisticsQuery { query_set: query_set_id, query_index },
            PassErrorScope::BeginPipelineStatisticsQuery,
        )
    }

    /// Record an `EndPipelineStatisticsQuery`.
    pub fn compute_pass_end_pipeline_statistics_query(&self, pass: &mut ComputePass) -> (r: Result<
        (),
        ComputePassError,
    >)
        ensures
            ({
                let (p2, e) = rec_plain(old(pass)@, Command::EndPipelineStatisticsQuery);
                &&& final(pass)@ == p2
                &&& (match e {
                    None => r is Ok,
                    Some(inner) => r == Err::<(), ComputePassError>(
                        (ComputePassError {
                            scope: PassErrorScope::EndPipelineStatisticsQuery,
                            inner,
                        }),
                    ),
                })
                &&& (wf_pass(old(pass)@, *self) ==> wf_pass(final(pass)@, *self))
            }),
    {
        self.record_plain(
            pass,
            Command::EndPipelineStatisticsQuery,
            PassErrorScope::EndPipelineStatisticsQuery,
        )
    }
}

} // verus!
