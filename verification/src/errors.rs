//! The error model: structured error kinds, wrapped at the pass boundary in a
//! scope naming the command that failed.

use vstd::prelude::*;

verus! {

/// Which resource class an error speaks of.
#[derive(Clone, Copy, PartialEq, Eq, Structural, Debug)]
pub enum ResourceKind {
    Buffer,
    Texture,
}

#[derive(Clone, Copy, PartialEq, Eq, Structural, Debug)]
pub enum DeviceError {
    /// The device was lost or destroyed.
    Invalid,
    /// A command referenced a resource owned by another device than the
    /// parent encoder's.
    DeviceMismatch { expected: usize, actual: usize },
}

#[derive(Clone, Copy, PartialEq, Eq, Structural, Debug)]
pub enum CommandEncoderError {
    /// The encoder does not exist or is not in a state that allows the
    /// operation.
    Invalid,
    /// The timestamp-writes descriptor names a query set that does not exist.
    InvalidTimestampWritesQuerySetId,
    Device(DeviceError),
}

/// A dynamic-offset validation failure when binding a group.
#[derive(Clone, Copy, PartialEq, Eq, Structural, Debug)]
pub enum BindError {
    MismatchedDynamicOffsetCount { group: u32, actual: usize, expected: usize },
    UnalignedDynamicBinding { group: u32, idx: usize, offset: u32, alignment: u32 },
    DynamicBindingOutOfBounds { group: u32, idx: usize, offset: u32, max: u32 },
}

/// A push-constant upload outside every declared range of the layout.
#[derive(Clone, Copy, PartialEq, Eq, Structural, Debug)]
pub enum PushConstantUploadError {
    OutOfRange { offset: u32, end_offset: u64 },
}

#[derive(Clone, Copy, PartialEq, Eq, Structural, Debug)]
pub enum QueryUseError {
    OutOfBounds { query_index: u32, query_count: u32 },
    AlreadyStarted,
    AlreadyStopped,
}

/// Two uses of one resource within a single usage scope that the hardware
/// does not allow simultaneously.
#[derive(Clone, Copy, PartialEq, Eq, Structural, Debug)]
pub struct ResourceUsageCompatibilityError {
    pub kind: ResourceKind,
    pub index: usize,
    /// The combined usage bits that were rejected.
    pub usage: u32,
}

#[derive(Clone, Copy, PartialEq, Eq, Structural, Debug)]
pub struct MissingBufferUsageError {
    pub buffer: usize,
    pub actual: u32,
    pub expected: u32,
}

/// A buffer binding whose minimum size is only known at dispatch time and is
/// not met by the bound buffer.
#[derive(Clone, Copy, PartialEq, Eq, Structural, Debug)]
pub struct LateMinBufferBindingSizeMismatch {
    pub group_index: u32,
    pub binding_index: usize,
    pub shader_size: u64,
    pub bound_size: u64,
}

/// Why a dispatch cannot run.
#[derive(Clone, Copy, PartialEq, Eq, Structural, Debug)]
pub enum DispatchError {
    /// No compute pipeline is set.
    MissingPipeline,
    /// The bind group at this slot is missing or its layout does not match
    /// the current pipeline layout.
    IncompatibleBindGroup { index: u32, pipeline: usize },
    /// A workgroup-count dimension exceeds the device limit.
    InvalidGroupSize { x: u32, y: u32, z: u32, limit: u32 },
    BindingSizeTooSmall(LateMinBufferBindingSizeMismatch),
}

/// Error encountered while recording or replaying a compute pass.
#[derive(Clone, Copy, PartialEq, Eq, Structural, Debug)]
pub enum ComputePassErrorInner {
    Device(DeviceError),
    Encoder(CommandEncoderError),
    /// The pass was created against an invalid encoder; no operation on it
    /// can succeed.
    InvalidParentEncoder,
    InvalidBindGroupId(usize),
    BindGroupIndexOutOfRange { index: u32, max: u32 },
    InvalidPipeline(usize),
    InvalidQuerySet(usize),
    /// The indirect-dispatch argument range runs past the end of the buffer.
    IndirectBufferOverrun { offset: u64, end_offset: u64, buffer_size: u64 },
    InvalidBufferId(usize),
    ResourceUsageCompatibility(ResourceUsageCompatibilityError),
    MissingBufferUsage(MissingBufferUsageError),
    /// More debug groups were popped than pushed.
    InvalidPopDebugGroup,
    Dispatch(DispatchError),
    Bind(BindError),
    PushConstants(PushConstantUploadError),
    PushConstantOffsetAlignment,
    PushConstantSizeAlignment,
    /// The push-constant side buffer outgrew the 32-bit offsets that index it.
    PushConstantOutOfMemory,
    QueryUse(QueryUseError),
    MissingFeatures,
    MissingDownlevelFlags,
    /// The pass was already ended and can record no further commands.
    PassEnded,
}

/// Names the command kind during which an error arose.
#[derive(Clone, Copy, PartialEq, Eq, Structural, Debug)]
pub enum PassErrorScope {
    /// The pass boundary itself; carries the parent encoder when known.
    Pass(Option<usize>),
    SetBindGroup,
    SetPipelineCompute,
    SetPushConstant,
    Dispatch { indirect: bool },
    PushDebugGroup,
    PopDebugGroup,
    InsertDebugMarker,
    WriteTimestamp,
    BeginPipelineStatisticsQuery,
    EndPipelineStatisticsQuery,
}

/// Error encountered when performing a compute pass: an inner kind plus the
/// scope in which it arose.
#[derive(Clone, Copy, PartialEq, Eq, Structural, Debug)]
pub struct ComputePassError {
    pub scope: PassErrorScope,
    pub inner: ComputePassErrorInner,
}

} // verus!
