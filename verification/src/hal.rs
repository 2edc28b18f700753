//! The hardware boundary, as data: replay emits a trace of [`HalCommand`]
//! values instead of driving a live encoder, so that the exact command stream
//! a pass produces is part of its contract.

use vstd::prelude::*;

verus! {

/// The timestamp-writes descriptor handed to the hardware at pass begin.
#[derive(Clone, Copy, PartialEq, Eq, Structural, Debug)]
pub struct HalTimestampWrites {
    /// Index of the query set in the global table.
    pub query_set: usize,
    pub beginning_of_pass_write_index: Option<u32>,
    pub end_of_pass_write_index: Option<u32>,
}

/// One hardware-level command. Resources are named by their index in the
/// owning table of [`crate::global::Global`].
#[derive(Clone, PartialEq, Eq, Debug)]
pub enum HalCommand {
    ResetQueries { query_set: usize, start: u32, end: u64 },
    BeginComputePass { timestamp_writes: Option<HalTimestampWrites> },
    EndComputePass,
    SetPipeline { pipeline: usize },
    SetBindGroup { layout: u32, index: u32, group: usize, dynamic_offsets: Vec<u32> },
    SetPushConstants { layout: u32, offset: u32, data: Vec<u32> },
    Dispatch { x: u32, y: u32, z: u32 },
    DispatchIndirect { buffer: usize, offset: u64 },
    BeginDebugMarker { label: Vec<u8> },
    EndDebugMarker,
    InsertDebugMarker { label: Vec<u8> },
    WriteTimestamp { query_set: usize, index: u32 },
    BeginPipelineStatisticsQuery { query_set: usize, index: u32 },
    EndPipelineStatisticsQuery,
    /// Barrier transitioning a buffer between two hardware usage states.
    BufferBarrier { buffer: usize, from: u32, to: u32 },
    /// Barrier transitioning a texture between two hardware usage states.
    TextureBarrier { texture: usize, from: u32, to: u32 },
    /// Zero-clear of a texture left discarded by a prior pass.
    ClearTexture { texture: usize },
}

/// Mathematical form of one hardware command.
#[verifier::ext_equal]
pub ghost enum HalOp {
    ResetQueries { query_set: int, start: u32, end: u64 },
    BeginComputePass { timestamp_writes: Option<HalTimestampWrites> },
    EndComputePass,
    SetPipeline { pipeline: int },
    SetBindGroup { layout: u32, index: u32, group: int, dynamic_offsets: Seq<u32> },
    SetPushConstants { layout: u32, offset: u32, data: Seq<u32> },
    Dispatch { x: u32, y: u32, z: u32 },
    DispatchIndirect { buffer: int, offset: u64 },
    BeginDebugMarker { label: Seq<u8> },
    EndDebugMarker,
    InsertDebugMarker { label: Seq<u8> },
    WriteTimestamp { query_set: int, index: u32 },
    BeginPipelineStatisticsQuery { query_set: int, index: u32 },
    EndPipelineStatisticsQuery,
    BufferBarrier { buffer: int, from: u32, to: u32 },
    TextureBarrier { texture: int, from: u32, to: u32 },
    ClearTexture { texture: int },
}

impl View for HalCommand {
    type V = HalOp;

    open spec fn view(&self) -> HalOp {
        match self {
            HalCommand::ResetQueries { query_set, start, end } => HalOp::ResetQueries {
                query_set: *query_set as int,
                start: *start,
                end: *end,
            },
            HalCommand::BeginComputePass { timestamp_writes } => HalOp::BeginComputePass {
                timestamp_writes: *timestamp_writes,
            },
            HalCommand::EndComputePass => HalOp::EndComputePass,
            HalCommand::SetPipeline { pipeline } => HalOp::SetPipeline {
                pipeline: *pipeline as int,
            },
            HalCommand::SetBindGroup { layout, index, group, dynamic_offsets } => {
                HalOp::SetBindGroup {
                    layout: *layout,
                    index: *index,
                    group: *group as int,
                    dynamic_offsets: dynamic_offsets@,
                }
            },
            HalCommand::SetPushConstants { layout, offset, data } => HalOp::SetPushConstants {
                layout: *layout,
                offset: *offset,
                data: data@,
            },
            HalCommand::Dispatch { x, y, z } => HalOp::Dispatch { x: *x, y: *y, z: *z },
            HalCommand::DispatchIndirect { buffer, offset } => HalOp::DispatchIndirect {
                buffer: *buffer as int,
                offset: *offset,
            },
            HalCommand::BeginDebugMarker { label } => HalOp::BeginDebugMarker { label: label@ },
            HalCommand::EndDebugMarker => HalOp::EndDebugMarker,
            HalCommand::InsertDebugMarker { label } => HalOp::InsertDebugMarker { label: label@ },
            HalCommand::WriteTimestamp { query_set, index } => HalOp::WriteTimestamp {
                query_set: *query_set as int,
                index: *index,
            },
            HalCommand::BeginPipelineStatisticsQuery { query_set, index } => {
                HalOp::BeginPipelineStatisticsQuery { query_set: *query_set as int, index: *index }
            },
            HalCommand::EndPipelineStatisticsQuery => HalOp::EndPipelineStatisticsQuery,
            HalCommand::BufferBarrier { buffer, from, to } => HalOp::BufferBarrier {
                buffer: *buffer as int,
                from: *from,
                to: *to,
            },
            HalCommand::TextureBarrier { texture, from, to } => HalOp::TextureBarrier {
                texture: *texture as int,
                from: *from,
                to: *to,
            },
            HalCommand::ClearTexture { texture } => HalOp::ClearTexture {
                texture: *texture as int,
            },
        }
    }
}

} // verus!
