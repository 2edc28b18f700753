//! End-to-end scenarios: recording command sequences, ending the pass, and
//! checking the exact error or the exact hardware trace.

use compute_pass::data::BindGroup;
use compute_pass::data::Buffer;
use compute_pass::data::ComputePipeline;
use compute_pass::data::Device;
use compute_pass::data::DeviceLimits;
use compute_pass::data::DynamicBindingInfo;
use compute_pass::data::LateSizedGroup;
use compute_pass::data::MemoryInitKind;
use compute_pass::data::PipelineLayout;
use compute_pass::data::PushConstantRange;
use compute_pass::data::QuerySet;
use compute_pass::data::Texture;
use compute_pass::data::BufferUse;
use compute_pass::data::TextureUse;
use compute_pass::data::BUFFER_USAGE_INDIRECT;
use compute_pass::data::BUFFER_USE_STORAGE_READ;
use compute_pass::data::BUFFER_USE_STORAGE_READ_WRITE;
use compute_pass::data::BUFFER_USE_UNIFORM;
use compute_pass::data::TEXTURE_USE_RESOURCE;
use compute_pass::errors::BindError;
use compute_pass::errors::CommandEncoderError;
use compute_pass::errors::ComputePassError;
use compute_pass::errors::ComputePassErrorInner;
use compute_pass::errors::DeviceError;
use compute_pass::errors::DispatchError;
use compute_pass::errors::LateMinBufferBindingSizeMismatch;
use compute_pass::errors::MissingBufferUsageError;
use compute_pass::errors::PassErrorScope;
use compute_pass::errors::PushConstantUploadError;
use compute_pass::errors::QueryUseError;
use compute_pass::errors::ResourceKind;
use compute_pass::errors::ResourceUsageCompatibilityError;
use compute_pass::global::CommandBuffer;
use compute_pass::global::CommandEncoderStatus;
use compute_pass::global::Global;
use compute_pass::hal::HalCommand;
use compute_pass::hal::HalTimestampWrites;
use compute_pass::pass::ComputePassDescriptor;
use compute_pass::pass::ComputePassTimestampWrites;
use compute_pass::track::FirstLastTrack;

fn device() -> Device {
    Device {
        valid: true,
        timestamp_query_inside_passes: true,
        indirect_execution: true,
        discard_hal_labels: false,
        limits: DeviceLimits { max_bind_groups: 4, max_compute_workgroups_per_dimension: 65535 },
    }
}

fn encoder() -> CommandBuffer {
    CommandBuffer {
        device: 0,
        status: CommandEncoderStatus::Recording,
        segments: vec![],
        tracker_buffers: FirstLastTrack { entries: vec![] },
        tracker_textures: FirstLastTrack { entries: vec![] },
        buffer_memory_init_actions: vec![],
    }
}

fn simple_pipeline() -> ComputePipeline {
    ComputePipeline {
        device: 0,
        layout: PipelineLayout { id: 100, group_layouts: vec![], push_constant_ranges: vec![] },
        late_sized_groups: vec![],
    }
}

fn one_slot_pipeline() -> ComputePipeline {
    ComputePipeline {
        device: 0,
        layout: PipelineLayout { id: 101, group_layouts: vec![7], push_constant_ranges: vec![] },
        late_sized_groups: vec![],
    }
}

fn simple_group() -> BindGroup {
    BindGroup {
        device: 0,
        layout: 7,
        dynamic_bindings: vec![],
        used_buffers: vec![],
        used_textures: vec![],
        late_sizes: vec![],
    }
}

fn base_global() -> Global {
    Global {
        devices: vec![device()],
        command_buffers: vec![encoder()],
        buffers: vec![],
        textures: vec![],
        bind_groups: vec![],
        compute_pipelines: vec![],
        query_sets: vec![],
    }
}

fn desc() -> ComputePassDescriptor {
    ComputePassDescriptor { label: None, timestamp_writes: None }
}

#[test]
fn dispatch_without_pipeline() {
    let mut g = base_global();
    let (mut pass, err) = g.command_encoder_create_compute_pass(0, desc());
    assert!(err.is_none());
    g.compute_pass_dispatch_workgroups(&mut pass, 1, 1, 1).unwrap();
    let r = g.compute_pass_end(&mut pass);
    assert_eq!(
        r,
        Err(ComputePassError {
            scope: PassErrorScope::Dispatch { indirect: false },
            inner: ComputePassErrorInner::Dispatch(DispatchError::MissingPipeline),
        })
    );
    assert_eq!(g.command_buffers[0].status, CommandEncoderStatus::Error);
}

#[test]
fn dispatch_with_incomplete_bindings() {
    let mut g = base_global();
    g.compute_pipelines.push(one_slot_pipeline());
    let (mut pass, err) = g.command_encoder_create_compute_pass(0, desc());
    assert!(err.is_none());
    g.compute_pass_set_pipeline(&mut pass, 0).unwrap();
    g.compute_pass_dispatch_workgroups(&mut pass, 1, 1, 1).unwrap();
    let r = g.compute_pass_end(&mut pass);
    assert_eq!(
        r,
        Err(ComputePassError {
            scope: PassErrorScope::Dispatch { indirect: false },
            inner: ComputePassErrorInner::Dispatch(DispatchError::IncompatibleBindGroup {
                index: 0,
                pipeline: 0,
            }),
        })
    );
}

#[test]
fn indirect_overrun() {
    let mut g = base_global();
    g.compute_pipelines.push(simple_pipeline());
    g.buffers.push(Buffer { device: 0, size: 8, usage: BUFFER_USAGE_INDIRECT, initialized: true });
    let (mut pass, err) = g.command_encoder_create_compute_pass(0, desc());
    assert!(err.is_none());
    g.compute_pass_set_pipeline(&mut pass, 0).unwrap();
    g.compute_pass_dispatch_workgroups_indirect(&mut pass, 0, 0).unwrap();
    let r = g.compute_pass_end(&mut pass);
    assert_eq!(
        r,
        Err(ComputePassError {
            scope: PassErrorScope::Dispatch { indirect: true },
            inner: ComputePassErrorInner::IndirectBufferOverrun {
                offset: 0,
                end_offset: 12,
                buffer_size: 8,
            },
        })
    );
}

#[test]
fn oversize_dispatch() {
    let mut g = base_global();
    g.compute_pipelines.push(simple_pipeline());
    let (mut pass, err) = g.command_encoder_create_compute_pass(0, desc());
    assert!(err.is_none());
    g.compute_pass_set_pipeline(&mut pass, 0).unwrap();
    g.compute_pass_dispatch_workgroups(&mut pass, 65536, 1, 1).unwrap();
    let r = g.compute_pass_end(&mut pass);
    assert_eq!(
        r,
        Err(ComputePassError {
            scope: PassErrorScope::Dispatch { indirect: false },
            inner: ComputePassErrorInner::Dispatch(DispatchError::InvalidGroupSize {
                x: 65536,
                y: 1,
                z: 1,
                limit: 65535,
            }),
        })
    );
}

#[test]
fn extra_pop() {
    let mut g = base_global();
    let (mut pass, err) = g.command_encoder_create_compute_pass(0, desc());
    assert!(err.is_none());
    g.compute_pass_push_debug_group(&mut pass, "a", 0).unwrap();
    g.compute_pass_pop_debug_group(&mut pass).unwrap();
    g.compute_pass_pop_debug_group(&mut pass).unwrap();
    let r = g.compute_pass_end(&mut pass);
    assert_eq!(
        r,
        Err(ComputePassError {
            scope: PassErrorScope::PopDebugGroup,
            inner: ComputePassErrorInner::InvalidPopDebugGroup,
        })
    );
}

#[test]
fn successful_pipeline_bind_dispatch() {
    let mut g = base_global();
    g.compute_pipelines.push(one_slot_pipeline());
    g.bind_groups.push(simple_group());
    let (mut pass, err) = g.command_encoder_create_compute_pass(0, desc());
    assert!(err.is_none());
    g.compute_pass_set_pipeline(&mut pass, 0).unwrap();
    g.compute_pass_set_bind_group(&mut pass, 0, 0, &[]).unwrap();
    g.compute_pass_dispatch_workgroups(&mut pass, 1, 1, 1).unwrap();
    let r = g.compute_pass_end(&mut pass);
    assert_eq!(r, Ok(()));
    assert_eq!(g.command_buffers[0].status, CommandEncoderStatus::Recording);
    // Pre-body first (empty: nothing to clear, no prior state to transition),
    // then the body.
    assert_eq!(g.command_buffers[0].segments.len(), 2);
    assert_eq!(g.command_buffers[0].segments[0], vec![]);
    assert_eq!(
        g.command_buffers[0].segments[1],
        vec![
            HalCommand::BeginComputePass { timestamp_writes: None },
            HalCommand::SetPipeline { pipeline: 0 },
            HalCommand::SetBindGroup {
                layout: 101,
                index: 0,
                group: 0,
                dynamic_offsets: vec![],
            },
            HalCommand::Dispatch { x: 1, y: 1, z: 1 },
            HalCommand::EndComputePass,
        ]
    );
}

#[test]
fn bind_group_index_out_of_range() {
    let mut g = base_global();
    g.bind_groups.push(simple_group());
    let (mut pass, err) = g.command_encoder_create_compute_pass(0, desc());
    assert!(err.is_none());
    g.compute_pass_set_bind_group(&mut pass, 4, 0, &[]).unwrap();
    let r = g.compute_pass_end(&mut pass);
    assert_eq!(
        r,
        Err(ComputePassError {
            scope: PassErrorScope::SetBindGroup,
            inner: ComputePassErrorInner::BindGroupIndexOutOfRange { index: 4, max: 4 },
        })
    );
}

#[test]
fn redundant_set_bind_group_records_once() {
    let mut g = base_global();
    g.bind_groups.push(simple_group());
    let (mut pass, err) = g.command_encoder_create_compute_pass(0, desc());
    assert!(err.is_none());
    g.compute_pass_set_bind_group(&mut pass, 0, 0, &[1, 2]).unwrap();
    g.compute_pass_set_bind_group(&mut pass, 0, 0, &[1, 2]).unwrap();
    assert_eq!(pass.base.as_ref().unwrap().commands.len(), 1);
    assert_eq!(pass.base.as_ref().unwrap().dynamic_offsets, vec![1, 2]);
    // A different offset list is not redundant.
    g.compute_pass_set_bind_group(&mut pass, 0, 0, &[3, 4]).unwrap();
    assert_eq!(pass.base.as_ref().unwrap().commands.len(), 2);
    assert_eq!(pass.base.as_ref().unwrap().dynamic_offsets, vec![1, 2, 3, 4]);
}

#[test]
fn redundant_set_pipeline_records_once() {
    let mut g = base_global();
    g.compute_pipelines.push(simple_pipeline());
    let (mut pass, err) = g.command_encoder_create_compute_pass(0, desc());
    assert!(err.is_none());
    g.compute_pass_set_pipeline(&mut pass, 0).unwrap();
    g.compute_pass_set_pipeline(&mut pass, 0).unwrap();
    assert_eq!(pass.base.as_ref().unwrap().commands.len(), 1);
}

#[test]
fn redundant_bind_yields_same_trace() {
    // Two encoders, one pass each: the same commands but with the repeated
    // binding recorded twice on the second pass; the final traces are equal.
    let mut g = base_global();
    g.command_buffers.push(encoder());
    g.compute_pipelines.push(one_slot_pipeline());
    g.bind_groups.push(simple_group());

    let (mut pass1, _) = g.command_encoder_create_compute_pass(0, desc());
    g.compute_pass_set_pipeline(&mut pass1, 0).unwrap();
    g.compute_pass_set_bind_group(&mut pass1, 0, 0, &[]).unwrap();
    g.compute_pass_dispatch_workgroups(&mut pass1, 1, 1, 1).unwrap();
    g.compute_pass_end(&mut pass1).unwrap();

    let (mut pass2, _) = g.command_encoder_create_compute_pass(1, desc());
    g.compute_pass_set_pipeline(&mut pass2, 0).unwrap();
    g.compute_pass_set_bind_group(&mut pass2, 0, 0, &[]).unwrap();
    g.compute_pass_set_bind_group(&mut pass2, 0, 0, &[]).unwrap();
    g.compute_pass_dispatch_workgroups(&mut pass2, 1, 1, 1).unwrap();
    g.compute_pass_end(&mut pass2).unwrap();

    assert_eq!(g.command_buffers[0].segments, g.command_buffers[1].segments);
}

#[test]
fn side_buffers_cover_commands() {
    let mut g = base_global();
    g.bind_groups.push(simple_group());
    let (mut pass, err) = g.command_encoder_create_compute_pass(0, desc());
    assert!(err.is_none());
    g.compute_pass_set_bind_group(&mut pass, 0, 0, &[8, 16]).unwrap();
    g.compute_pass_push_debug_group(&mut pass, "abc", 0).unwrap();
    g.compute_pass_insert_debug_marker(&mut pass, "xy", 0).unwrap();
    let base = pass.base.as_ref().unwrap();
    // Dynamic offsets: one SetBindGroup with two offsets.
    assert_eq!(base.dynamic_offsets.len(), 2);
    // Label bytes: "abc" + "xy".
    assert_eq!(base.string_data, b"abcxy".to_vec());
    assert_eq!(base.string_data.len(), 5);
}

#[test]
fn push_constants_recorded_as_words_and_replayed() {
    let mut g = base_global();
    g.compute_pipelines.push(ComputePipeline {
        device: 0,
        layout: PipelineLayout {
            id: 102,
            group_layouts: vec![],
            push_constant_ranges: vec![PushConstantRange { start: 0, end: 16 }],
        },
        late_sized_groups: vec![],
    });
    let (mut pass, err) = g.command_encoder_create_compute_pass(0, desc());
    assert!(err.is_none());
    g.compute_pass_set_pipeline(&mut pass, 0).unwrap();
    g.compute_pass_set_push_constant(&mut pass, 4, &[0x01, 0x02, 0x03, 0x04, 0xff, 0x00, 0x00, 0x00])
        .unwrap();
    assert_eq!(pass.base.as_ref().unwrap().push_constant_data, vec![0x04030201, 0xff]);
    g.compute_pass_end(&mut pass).unwrap();
    assert_eq!(
        g.command_buffers[0].segments[1],
        vec![
            HalCommand::BeginComputePass { timestamp_writes: None },
            HalCommand::SetPipeline { pipeline: 0 },
            // Switching to a layout with a declared range clears it to zero.
            HalCommand::SetPushConstants { layout: 102, offset: 0, data: vec![0, 0, 0, 0] },
            HalCommand::SetPushConstants { layout: 102, offset: 4, data: vec![0x04030201, 0xff] },
            HalCommand::EndComputePass,
        ]
    );
}

#[test]
fn push_constant_alignment_errors() {
    let mut g = base_global();
    let (mut pass, _) = g.command_encoder_create_compute_pass(0, desc());
    let r = g.compute_pass_set_push_constant(&mut pass, 2, &[0, 0, 0, 0]);
    assert_eq!(
        r,
        Err(ComputePassError {
            scope: PassErrorScope::SetPushConstant,
            inner: ComputePassErrorInner::PushConstantOffsetAlignment,
        })
    );
    let r = g.compute_pass_set_push_constant(&mut pass, 0, &[0, 0, 0]);
    assert_eq!(
        r,
        Err(ComputePassError {
            scope: PassErrorScope::SetPushConstant,
            inner: ComputePassErrorInner::PushConstantSizeAlignment,
        })
    );
}

#[test]
fn push_constant_out_of_range() {
    let mut g = base_global();
    g.compute_pipelines.push(ComputePipeline {
        device: 0,
        layout: PipelineLayout {
            id: 103,
            group_layouts: vec![],
            push_constant_ranges: vec![PushConstantRange { start: 0, end: 8 }],
        },
        late_sized_groups: vec![],
    });
    let (mut pass, _) = g.command_encoder_create_compute_pass(0, desc());
    g.compute_pass_set_pipeline(&mut pass, 0).unwrap();
    g.compute_pass_set_push_constant(&mut pass, 4, &[0; 8]).unwrap();
    let r = g.compute_pass_end(&mut pass);
    assert_eq!(
        r,
        Err(ComputePassError {
            scope: PassErrorScope::SetPushConstant,
            inner: ComputePassErrorInner::PushConstants(PushConstantUploadError::OutOfRange {
                offset: 4,
                end_offset: 12,
            }),
        })
    );
}

#[test]
fn push_constant_without_pipeline() {
    let mut g = base_global();
    let (mut pass, _) = g.command_encoder_create_compute_pass(0, desc());
    g.compute_pass_set_push_constant(&mut pass, 0, &[0, 0, 0, 0]).unwrap();
    let r = g.compute_pass_end(&mut pass);
    assert_eq!(
        r,
        Err(ComputePassError {
            scope: PassErrorScope::SetPushConstant,
            inner: ComputePassErrorInner::Dispatch(DispatchError::MissingPipeline),
        })
    );
}

#[test]
fn invalid_resource_ids_at_record_time() {
    let mut g = base_global();
    let (mut pass, _) = g.command_encoder_create_compute_pass(0, desc());
    let r = g.compute_pass_set_bind_group(&mut pass, 0, 3, &[]);
    assert_eq!(
        r.unwrap_err().inner,
        ComputePassErrorInner::InvalidBindGroupId(3)
    );
    let r = g.compute_pass_set_pipeline(&mut pass, 9);
    assert_eq!(r.unwrap_err().inner, ComputePassErrorInner::InvalidPipeline(9));
    let r = g.compute_pass_dispatch_workgroups_indirect(&mut pass, 2, 0);
    assert_eq!(r.unwrap_err().inner, ComputePassErrorInner::InvalidBufferId(2));
    let r = g.compute_pass_write_timestamp(&mut pass, 1, 0);
    assert_eq!(r.unwrap_err().inner, ComputePassErrorInner::InvalidQuerySet(1));
    let r = g.compute_pass_begin_pipeline_statistics_query(&mut pass, 1, 0);
    assert_eq!(r.unwrap_err().inner, ComputePassErrorInner::InvalidQuerySet(1));
}

#[test]
fn pass_ended_and_double_end() {
    let mut g = base_global();
    let (mut pass, _) = g.command_encoder_create_compute_pass(0, desc());
    g.compute_pass_end(&mut pass).unwrap();
    // Recording on an ended pass fails.
    let r = g.compute_pass_dispatch_workgroups(&mut pass, 1, 1, 1);
    assert_eq!(r.unwrap_err().inner, ComputePassErrorInner::PassEnded);
    // A second end fails at the encoder, which is no longer locked.
    let r = g.compute_pass_end(&mut pass);
    assert_eq!(
        r,
        Err(ComputePassError {
            scope: PassErrorScope::Pass(Some(0)),
            inner: ComputePassErrorInner::Encoder(CommandEncoderError::Invalid),
        })
    );
}

#[test]
fn invalid_parent_encoder() {
    let mut g = base_global();
    let (mut pass, err) = g.command_encoder_create_compute_pass(5, desc());
    assert_eq!(err, Some(CommandEncoderError::Invalid));
    // Recording still works on the invalid pass; only end reports it.
    g.compute_pass_dispatch_workgroups(&mut pass, 1, 1, 1).unwrap();
    let r = g.compute_pass_end(&mut pass);
    assert_eq!(
        r,
        Err(ComputePassError {
            scope: PassErrorScope::Pass(None),
            inner: ComputePassErrorInner::InvalidParentEncoder,
        })
    );
}

#[test]
fn device_invalid_at_end() {
    let mut g = base_global();
    g.devices[0].valid = false;
    let (mut pass, _) = g.command_encoder_create_compute_pass(0, desc());
    let r = g.compute_pass_end(&mut pass);
    assert_eq!(
        r,
        Err(ComputePassError {
            scope: PassErrorScope::Pass(Some(0)),
            inner: ComputePassErrorInner::Device(DeviceError::Invalid),
        })
    );
}

#[test]
fn same_device_is_enforced() {
    let mut g = base_global();
    g.devices.push(device());
    let mut foreign = simple_group();
    foreign.device = 1;
    g.bind_groups.push(foreign);
    let (mut pass, _) = g.command_encoder_create_compute_pass(0, desc());
    g.compute_pass_set_bind_group(&mut pass, 0, 0, &[]).unwrap();
    let r = g.compute_pass_end(&mut pass);
    assert_eq!(
        r,
        Err(ComputePassError {
            scope: PassErrorScope::SetBindGroup,
            inner: ComputePassErrorInner::Device(DeviceError::DeviceMismatch {
                expected: 0,
                actual: 1,
            }),
        })
    );
}

#[test]
fn dynamic_offset_validation() {
    let mut g = base_global();
    g.bind_groups.push(BindGroup {
        device: 0,
        layout: 7,
        dynamic_bindings: vec![DynamicBindingInfo { alignment: 256, max_offset: 512 }],
        used_buffers: vec![],
        used_textures: vec![],
        late_sizes: vec![],
    });
    // Wrong count.
    let (mut pass, _) = g.command_encoder_create_compute_pass(0, desc());
    g.compute_pass_set_bind_group(&mut pass, 0, 0, &[]).unwrap();
    let r = g.compute_pass_end(&mut pass);
    assert_eq!(
        r.unwrap_err().inner,
        ComputePassErrorInner::Bind(BindError::MismatchedDynamicOffsetCount {
            group: 0,
            actual: 0,
            expected: 1,
        })
    );
    // Unaligned offset.
    g.command_buffers[0].status = CommandEncoderStatus::Recording;
    let (mut pass, _) = g.command_encoder_create_compute_pass(0, desc());
    g.compute_pass_set_bind_group(&mut pass, 0, 0, &[100]).unwrap();
    let r = g.compute_pass_end(&mut pass);
    assert_eq!(
        r.unwrap_err().inner,
        ComputePassErrorInner::Bind(BindError::UnalignedDynamicBinding {
            group: 0,
            idx: 0,
            offset: 100,
            alignment: 256,
        })
    );
    // Offset past the binding's end.
    g.command_buffers[0].status = CommandEncoderStatus::Recording;
    let (mut pass, _) = g.command_encoder_create_compute_pass(0, desc());
    g.compute_pass_set_bind_group(&mut pass, 0, 0, &[768]).unwrap();
    let r = g.compute_pass_end(&mut pass);
    assert_eq!(
        r.unwrap_err().inner,
        ComputePassErrorInner::Bind(BindError::DynamicBindingOutOfBounds {
            group: 0,
            idx: 0,
            offset: 768,
            max: 512,
        })
    );
}

#[test]
fn late_binding_size_too_small() {
    let mut g = base_global();
    g.compute_pipelines.push(ComputePipeline {
        device: 0,
        layout: PipelineLayout { id: 104, group_layouts: vec![7], push_constant_ranges: vec![] },
        late_sized_groups: vec![LateSizedGroup { min_sizes: vec![16] }],
    });
    let mut group = simple_group();
    group.late_sizes = vec![8];
    g.bind_groups.push(group);
    let (mut pass, _) = g.command_encoder_create_compute_pass(0, desc());
    g.compute_pass_set_pipeline(&mut pass, 0).unwrap();
    g.compute_pass_set_bind_group(&mut pass, 0, 0, &[]).unwrap();
    g.compute_pass_dispatch_workgroups(&mut pass, 1, 1, 1).unwrap();
    let r = g.compute_pass_end(&mut pass);
    assert_eq!(
        r.unwrap_err().inner,
        ComputePassErrorInner::Dispatch(DispatchError::BindingSizeTooSmall(
            LateMinBufferBindingSizeMismatch {
                group_index: 0,
                binding_index: 0,
                shader_size: 16,
                bound_size: 8,
            }
        ))
    );
}

#[test]
fn intra_dispatch_aliasing_rejected() {
    let mut g = base_global();
    g.buffers.push(Buffer { device: 0, size: 64, usage: 0, initialized: true });
    g.compute_pipelines.push(one_slot_pipeline());
    let mut group = simple_group();
    group.used_buffers = vec![
        BufferUse {
            buffer: 0,
            usage: BUFFER_USE_STORAGE_READ_WRITE,
            start: 0,
            end: 64,
            kind: MemoryInitKind::ImplicitlyInitialized,
        },
        BufferUse {
            buffer: 0,
            usage: BUFFER_USE_STORAGE_READ,
            start: 0,
            end: 64,
            kind: MemoryInitKind::ImplicitlyInitialized,
        },
    ];
    g.bind_groups.push(group);
    let (mut pass, _) = g.command_encoder_create_compute_pass(0, desc());
    g.compute_pass_set_pipeline(&mut pass, 0).unwrap();
    g.compute_pass_set_bind_group(&mut pass, 0, 0, &[]).unwrap();
    g.compute_pass_dispatch_workgroups(&mut pass, 1, 1, 1).unwrap();
    let r = g.compute_pass_end(&mut pass);
    assert_eq!(
        r.unwrap_err().inner,
        ComputePassErrorInner::ResourceUsageCompatibility(ResourceUsageCompatibilityError {
            kind: ResourceKind::Buffer,
            index: 0,
            usage: BUFFER_USE_STORAGE_READ_WRITE | BUFFER_USE_STORAGE_READ,
        })
    );
}

#[test]
fn barriers_between_dispatches_and_in_prelude() {
    let mut g = base_global();
    g.buffers.push(Buffer { device: 0, size: 64, usage: 0, initialized: true });
    g.compute_pipelines.push(one_slot_pipeline());
    let mut writer = simple_group();
    writer.used_buffers = vec![BufferUse {
        buffer: 0,
        usage: BUFFER_USE_STORAGE_READ_WRITE,
        start: 0,
        end: 64,
        kind: MemoryInitKind::ImplicitlyInitialized,
    }];
    let mut reader = simple_group();
    reader.used_buffers = vec![BufferUse {
        buffer: 0,
        usage: BUFFER_USE_STORAGE_READ,
        start: 0,
        end: 64,
        kind: MemoryInitKind::ImplicitlyInitialized,
    }];
    g.bind_groups.push(writer);
    g.bind_groups.push(reader);
    let (mut pass, _) = g.command_encoder_create_compute_pass(0, desc());
    g.compute_pass_set_pipeline(&mut pass, 0).unwrap();
    g.compute_pass_set_bind_group(&mut pass, 0, 0, &[]).unwrap();
    g.compute_pass_dispatch_workgroups(&mut pass, 1, 1, 1).unwrap();
    g.compute_pass_set_bind_group(&mut pass, 0, 1, &[]).unwrap();
    g.compute_pass_dispatch_workgroups(&mut pass, 1, 1, 1).unwrap();
    g.compute_pass_end(&mut pass).unwrap();
    // First use adopts the buffer silently; the change of usage between the
    // dispatches needs a barrier inside the body; the prelude has none.
    assert_eq!(g.command_buffers[0].segments[0], vec![]);
    assert_eq!(
        g.command_buffers[0].segments[1],
        vec![
            HalCommand::BeginComputePass { timestamp_writes: None },
            HalCommand::SetPipeline { pipeline: 0 },
            HalCommand::SetBindGroup { layout: 101, index: 0, group: 0, dynamic_offsets: vec![] },
            HalCommand::Dispatch { x: 1, y: 1, z: 1 },
            HalCommand::SetBindGroup { layout: 101, index: 0, group: 1, dynamic_offsets: vec![] },
            HalCommand::BufferBarrier {
                buffer: 0,
                from: BUFFER_USE_STORAGE_READ_WRITE,
                to: BUFFER_USE_STORAGE_READ,
            },
            HalCommand::Dispatch { x: 1, y: 1, z: 1 },
            HalCommand::EndComputePass,
        ]
    );
    // The persistent tracker now knows the buffer; a second pass reading it
    // with another usage gets its transition in the pre-body segment.
    let (mut pass2, _) = g.command_encoder_create_compute_pass(0, desc());
    let mut uniform = simple_group();
    uniform.used_buffers = vec![BufferUse {
        buffer: 0,
        usage: BUFFER_USE_UNIFORM,
        start: 0,
        end: 64,
        kind: MemoryInitKind::ImplicitlyInitialized,
    }];
    g.bind_groups.push(uniform);
    g.compute_pass_set_pipeline(&mut pass2, 0).unwrap();
    g.compute_pass_set_bind_group(&mut pass2, 0, 2, &[]).unwrap();
    g.compute_pass_dispatch_workgroups(&mut pass2, 1, 1, 1).unwrap();
    g.compute_pass_end(&mut pass2).unwrap();
    assert_eq!(
        g.command_buffers[0].segments[2],
        vec![HalCommand::BufferBarrier {
            buffer: 0,
            from: BUFFER_USE_STORAGE_READ,
            to: BUFFER_USE_UNIFORM,
        }]
    );
}

#[test]
fn discard_fixup_cleared_in_prelude() {
    let mut g = base_global();
    g.textures.push(Texture { device: 0, discarded: true });
    g.compute_pipelines.push(one_slot_pipeline());
    let mut group = simple_group();
    group.used_textures = vec![TextureUse {
        texture: 0,
        usage: TEXTURE_USE_RESOURCE,
        kind: MemoryInitKind::NeedsInitializedMemory,
    }];
    g.bind_groups.push(group);
    let (mut pass, _) = g.command_encoder_create_compute_pass(0, desc());
    g.compute_pass_set_pipeline(&mut pass, 0).unwrap();
    g.compute_pass_set_bind_group(&mut pass, 0, 0, &[]).unwrap();
    g.compute_pass_dispatch_workgroups(&mut pass, 1, 1, 1).unwrap();
    g.compute_pass_end(&mut pass).unwrap();
    assert_eq!(
        g.command_buffers[0].segments[0][0],
        HalCommand::ClearTexture { texture: 0 }
    );
}

#[test]
fn buffer_init_action_registered() {
    let mut g = base_global();
    g.buffers.push(Buffer {
        device: 0,
        size: 64,
        usage: BUFFER_USAGE_INDIRECT,
        initialized: false,
    });
    g.compute_pipelines.push(simple_pipeline());
    let (mut pass, _) = g.command_encoder_create_compute_pass(0, desc());
    g.compute_pass_set_pipeline(&mut pass, 0).unwrap();
    g.compute_pass_dispatch_workgroups_indirect(&mut pass, 0, 16).unwrap();
    g.compute_pass_end(&mut pass).unwrap();
    let actions = &g.command_buffers[0].buffer_memory_init_actions;
    assert_eq!(actions.len(), 1);
    assert_eq!(actions[0].buffer, 0);
    assert_eq!(actions[0].start, 16);
    assert_eq!(actions[0].end, 28);
    assert_eq!(actions[0].kind, MemoryInitKind::NeedsInitializedMemory);
}

#[test]
fn missing_buffer_usage_and_downlevel() {
    let mut g = base_global();
    g.buffers.push(Buffer { device: 0, size: 64, usage: 0, initialized: true });
    g.compute_pipelines.push(simple_pipeline());
    let (mut pass, _) = g.command_encoder_create_compute_pass(0, desc());
    g.compute_pass_set_pipeline(&mut pass, 0).unwrap();
    g.compute_pass_dispatch_workgroups_indirect(&mut pass, 0, 0).unwrap();
    let r = g.compute_pass_end(&mut pass);
    assert_eq!(
        r.unwrap_err().inner,
        ComputePassErrorInner::MissingBufferUsage(MissingBufferUsageError {
            buffer: 0,
            actual: 0,
            expected: BUFFER_USAGE_INDIRECT,
        })
    );
    // Without the downlevel capability the indirect dispatch is rejected
    // before the buffer is looked at.
    let mut g2 = base_global();
    g2.devices[0].indirect_execution = false;
    g2.buffers.push(Buffer { device: 0, size: 64, usage: BUFFER_USAGE_INDIRECT, initialized: true });
    g2.compute_pipelines.push(simple_pipeline());
    let (mut pass2, _) = g2.command_encoder_create_compute_pass(0, desc());
    g2.compute_pass_set_pipeline(&mut pass2, 0).unwrap();
    g2.compute_pass_dispatch_workgroups_indirect(&mut pass2, 0, 0).unwrap();
    let r = g2.compute_pass_end(&mut pass2);
    assert_eq!(r.unwrap_err().inner, ComputePassErrorInner::MissingDownlevelFlags);
}

#[test]
fn timestamp_and_statistics_queries() {
    let mut g = base_global();
    g.query_sets.push(QuerySet { device: 0, count: 2 });
    let (mut pass, _) = g.command_encoder_create_compute_pass(0, desc());
    g.compute_pass_write_timestamp(&mut pass, 0, 1).unwrap();
    g.compute_pass_begin_pipeline_statistics_query(&mut pass, 0, 0).unwrap();
    g.compute_pass_end_pipeline_statistics_query(&mut pass).unwrap();
    g.compute_pass_end(&mut pass).unwrap();
    assert_eq!(
        g.command_buffers[0].segments[1],
        vec![
            HalCommand::BeginComputePass { timestamp_writes: None },
            HalCommand::WriteTimestamp { query_set: 0, index: 1 },
            HalCommand::BeginPipelineStatisticsQuery { query_set: 0, index: 0 },
            HalCommand::EndPipelineStatisticsQuery,
            HalCommand::EndComputePass,
        ]
    );
}

#[test]
fn query_errors() {
    // Timestamp feature missing.
    let mut g = base_global();
    g.devices[0].timestamp_query_inside_passes = false;
    g.query_sets.push(QuerySet { device: 0, count: 2 });
    let (mut pass, _) = g.command_encoder_create_compute_pass(0, desc());
    g.compute_pass_write_timestamp(&mut pass, 0, 0).unwrap();
    let r = g.compute_pass_end(&mut pass);
    assert_eq!(r.unwrap_err().inner, ComputePassErrorInner::MissingFeatures);
    // Query index out of bounds.
    let mut g = base_global();
    g.query_sets.push(QuerySet { device: 0, count: 2 });
    let (mut pass, _) = g.command_encoder_create_compute_pass(0, desc());
    g.compute_pass_write_timestamp(&mut pass, 0, 5).unwrap();
    let r = g.compute_pass_end(&mut pass);
    assert_eq!(
        r.unwrap_err().inner,
        ComputePassErrorInner::QueryUse(QueryUseError::OutOfBounds {
            query_index: 5,
            query_count: 2,
        })
    );
    // Two active statistics queries.
    let mut g = base_global();
    g.query_sets.push(QuerySet { device: 0, count: 2 });
    let (mut pass, _) = g.command_encoder_create_compute_pass(0, desc());
    g.compute_pass_begin_pipeline_statistics_query(&mut pass, 0, 0).unwrap();
    g.compute_pass_begin_pipeline_statistics_query(&mut pass, 0, 1).unwrap();
    let r = g.compute_pass_end(&mut pass);
    assert_eq!(
        r.unwrap_err().inner,
        ComputePassErrorInner::QueryUse(QueryUseError::AlreadyStarted)
    );
    // Ending with none active.
    let mut g = base_global();
    let (mut pass, _) = g.command_encoder_create_compute_pass(0, desc());
    g.compute_pass_end_pipeline_statistics_query(&mut pass).unwrap();
    let r = g.compute_pass_end(&mut pass);
    assert_eq!(
        r.unwrap_err().inner,
        ComputePassErrorInner::QueryUse(QueryUseError::AlreadyStopped)
    );
}

#[test]
fn timestamp_writes_reset_queries() {
    let mut g = base_global();
    g.query_sets.push(QuerySet { device: 0, count: 8 });
    let (mut pass, err) = g.command_encoder_create_compute_pass(
        0,
        ComputePassDescriptor {
            label: None,
            timestamp_writes: Some(ComputePassTimestampWrites {
                query_set: 0,
                beginning_of_pass_write_index: Some(5),
                end_of_pass_write_index: Some(2),
            }),
        },
    );
    assert!(err.is_none());
    g.compute_pass_end(&mut pass).unwrap();
    assert_eq!(
        g.command_buffers[0].segments[1],
        vec![
            HalCommand::ResetQueries { query_set: 0, start: 2, end: 6 },
            HalCommand::BeginComputePass {
                timestamp_writes: Some(HalTimestampWrites {
                    query_set: 0,
                    beginning_of_pass_write_index: Some(5),
                    end_of_pass_write_index: Some(2),
                }),
            },
            HalCommand::EndComputePass,
        ]
    );
}

#[test]
fn timestamp_writes_bad_query_set() {
    let mut g = base_global();
    let (pass, err) = g.command_encoder_create_compute_pass(
        0,
        ComputePassDescriptor {
            label: None,
            timestamp_writes: Some(ComputePassTimestampWrites {
                query_set: 3,
                beginning_of_pass_write_index: Some(0),
                end_of_pass_write_index: None,
            }),
        },
    );
    assert_eq!(err, Some(CommandEncoderError::InvalidTimestampWritesQuerySetId));
    assert!(pass.parent.is_none());
    // The encoder stays locked, as when pass creation succeeds.
    assert_eq!(g.command_buffers[0].status, CommandEncoderStatus::Locked);
}

#[test]
fn debug_markers_in_trace_and_label() {
    let mut g = base_global();
    let (mut pass, _) = g.command_encoder_create_compute_pass(
        0,
        ComputePassDescriptor { label: Some(String::from("main")), timestamp_writes: None },
    );
    assert_eq!(pass.label(), Some("main"));
    g.compute_pass_push_debug_group(&mut pass, "grp", 0).unwrap();
    g.compute_pass_insert_debug_marker(&mut pass, "mk", 0).unwrap();
    g.compute_pass_pop_debug_group(&mut pass).unwrap();
    g.compute_pass_end(&mut pass).unwrap();
    assert_eq!(pass.label(), None);
    assert_eq!(
        g.command_buffers[0].segments[1],
        vec![
            HalCommand::BeginComputePass { timestamp_writes: None },
            HalCommand::BeginDebugMarker { label: b"grp".to_vec() },
            HalCommand::InsertDebugMarker { label: b"mk".to_vec() },
            HalCommand::EndDebugMarker,
            HalCommand::EndComputePass,
        ]
    );
}

#[test]
fn discard_hal_labels_suppresses_markers() {
    let mut g = base_global();
    g.devices[0].discard_hal_labels = true;
    let (mut pass, _) = g.command_encoder_create_compute_pass(0, desc());
    g.compute_pass_push_debug_group(&mut pass, "grp", 0).unwrap();
    g.compute_pass_pop_debug_group(&mut pass).unwrap();
    g.compute_pass_end(&mut pass).unwrap();
    assert_eq!(
        g.command_buffers[0].segments[1],
        vec![
            HalCommand::BeginComputePass { timestamp_writes: None },
            HalCommand::EndComputePass,
        ]
    );
}
