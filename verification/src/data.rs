//! The resource inventory a pass runs against: devices, buffers, textures,
//! bind groups, pipelines and query sets, modelled as plain data.
//!
//! Resources are referred to by their index in the owning table of
//! [`crate::global::Global`]; the registry that the real driver consults at
//! record time is that table.

use vstd::prelude::*;

verus! {

/// Hardware buffer usage: read by shaders through a uniform binding.
pub const BUFFER_USE_UNIFORM: u32 = 1;

/// Hardware buffer usage: read through a read-only storage binding.
pub const BUFFER_USE_STORAGE_READ: u32 = 2;

/// Hardware buffer usage: read and written through a writable storage
/// binding. Exclusive: it may not alias any other use in one usage scope.
pub const BUFFER_USE_STORAGE_READ_WRITE: u32 = 4;

/// Hardware buffer usage: read as the argument buffer of an indirect dispatch.
pub const BUFFER_USE_INDIRECT: u32 = 8;

/// Hardware texture usage: sampled or read as a resource.
pub const TEXTURE_USE_RESOURCE: u32 = 1;

/// Hardware texture usage: read through a read-only storage binding.
pub const TEXTURE_USE_STORAGE_READ: u32 = 2;

/// Hardware texture usage: read and written through a writable storage
/// binding. Exclusive, as for buffers.
pub const TEXTURE_USE_STORAGE_READ_WRITE: u32 = 4;

/// Buffer usage flag (declared at buffer creation): may serve as the argument
/// buffer of an indirect dispatch.
pub const BUFFER_USAGE_INDIRECT: u32 = 0x100;

/// A combination of hardware usages is allowed within one usage scope iff it
/// either contains no writable-storage use, or is exactly the
/// writable-storage use alone: a resource written in a dispatch may not be
/// read or written through any other binding of the same dispatch.
pub open spec fn spec_usages_compatible(u: u32) -> bool {
    u & BUFFER_USE_STORAGE_READ_WRITE == 0 || u == BUFFER_USE_STORAGE_READ_WRITE
}

/// Executable twin of [`spec_usages_compatible`].
pub fn usages_compatible(u: u32) -> (r: bool)
    ensures
        r == spec_usages_compatible(u),
{
    u & BUFFER_USE_STORAGE_READ_WRITE == 0 || u == BUFFER_USE_STORAGE_READ_WRITE
}

/// The number of bind-group slots the redundancy filter and the binder track;
/// a device's `max_bind_groups` limit never exceeds it.
pub const MAX_BIND_GROUPS: usize = 8;

/// The byte alignment required of push-constant offsets and sizes.
pub const PUSH_CONSTANT_ALIGNMENT: u32 = 4;

/// The byte size of the three-word argument block read by an indirect
/// dispatch.
pub const DISPATCH_INDIRECT_ARGS_SIZE: u64 = 12;

#[derive(Clone, Copy, PartialEq, Eq, Structural, Debug)]
pub struct DeviceLimits {
    pub max_bind_groups: u32,
    pub max_compute_workgroups_per_dimension: u32,
}

/// A device, with the limits, features and flags the pass consults.
#[derive(Clone, Copy, PartialEq, Eq, Structural, Debug)]
pub struct Device {
    /// False once the device is lost; finalization fails on an invalid device.
    pub valid: bool,
    /// Feature: timestamps may be written from inside a pass.
    pub timestamp_query_inside_passes: bool,
    /// Downlevel capability: indirect dispatch is supported.
    pub indirect_execution: bool,
    /// Instance flag: debug-marker labels are not forwarded to the hardware.
    pub discard_hal_labels: bool,
    pub limits: DeviceLimits,
}

/// Whether a recorded use of a buffer range or texture requires the memory to
/// be zero-filled before its first read.
#[derive(Clone, Copy, PartialEq, Eq, Structural, Debug)]
pub enum MemoryInitKind {
    NeedsInitializedMemory,
    ImplicitlyInitialized,
}

/// A buffer, owned by a device.
#[derive(Clone, Copy, PartialEq, Eq, Structural, Debug)]
pub struct Buffer {
    /// Index of the owning device.
    pub device: usize,
    /// Size in bytes.
    pub size: u64,
    /// Declared usage flags, e.g. [`BUFFER_USAGE_INDIRECT`].
    pub usage: u32,
    /// Whether the buffer's memory is already known to be initialized.
    pub initialized: bool,
}

/// A texture, owned by a device.
#[derive(Clone, Copy, PartialEq, Eq, Structural, Debug)]
pub struct Texture {
    /// Index of the owning device.
    pub device: usize,
    /// Whether a prior pass left the texture's contents discarded, so that a
    /// read requires a zero-clear fixup first.
    pub discarded: bool,
}

/// One use of a buffer range by a bind group.
#[derive(Clone, Copy, PartialEq, Eq, Structural, Debug)]
pub struct BufferUse {
    /// Index of the buffer in the global buffer table.
    pub buffer: usize,
    /// Hardware usage bits this binding exercises.
    pub usage: u32,
    /// Byte range used, `start <= end <= size` of the buffer.
    pub start: u64,
    pub end: u64,
    pub kind: MemoryInitKind,
}

/// One use of a texture by a bind group.
#[derive(Clone, Copy, PartialEq, Eq, Structural, Debug)]
pub struct TextureUse {
    /// Index of the texture in the global texture table.
    pub texture: usize,
    /// Hardware usage bits this binding exercises.
    pub usage: u32,
    pub kind: MemoryInitKind,
}

/// Validation data for one dynamic-offset binding of a bind group's layout.
#[derive(Clone, Copy, PartialEq, Eq, Structural, Debug)]
pub struct DynamicBindingInfo {
    /// The offset handed in at bind time must be a multiple of this.
    pub alignment: u32,
    /// The largest offset that keeps the binding inside its buffer.
    pub max_offset: u32,
}

/// A bind group: a pre-baked set of resource views satisfying one slot of a
/// pipeline layout, resolved down to what replay consults.
pub struct BindGroup {
    /// Index of the owning device.
    pub device: usize,
    /// Identifier of the bind-group layout this group was created against.
    pub layout: u32,
    /// One entry per dynamic-offset binding, in binding order.
    pub dynamic_bindings: Vec<DynamicBindingInfo>,
    /// Buffer ranges the group reads or writes.
    pub used_buffers: Vec<BufferUse>,
    /// Textures the group reads or writes.
    pub used_textures: Vec<TextureUse>,
    /// Actual bound sizes of the buffer bindings whose minimum size is only
    /// known late, at dispatch time, in binding order.
    pub late_sizes: Vec<u64>,
}

/// A half-open byte range of push-constant space declared by a pipeline
/// layout for the compute stage.
#[derive(Clone, Copy, PartialEq, Eq, Structural, Debug)]
pub struct PushConstantRange {
    pub start: u32,
    pub end: u32,
}

/// The declared interface between a pipeline and its bind groups.
pub struct PipelineLayout {
    /// Identifier; two layouts are interchangeable iff their identifiers are
    /// equal.
    pub id: u32,
    /// Required bind-group layout per slot, in slot order.
    pub group_layouts: Vec<u32>,
    /// Declared push-constant ranges, sorted and pairwise disjoint.
    pub push_constant_ranges: Vec<PushConstantRange>,
}

/// Shader-required minimum sizes for the late-validated buffer bindings of
/// one bind-group slot.
pub struct LateSizedGroup {
    pub min_sizes: Vec<u64>,
}

/// A compute pipeline, owned by a device.
pub struct ComputePipeline {
    /// Index of the owning device.
    pub device: usize,
    pub layout: PipelineLayout,
    /// One entry per bind-group slot of the layout.
    pub late_sized_groups: Vec<LateSizedGroup>,
}

/// A pending zero-fill of a buffer range, registered during replay and
/// handed to the parent command buffer on success.
#[derive(Clone, Copy, PartialEq, Eq, Structural, Debug)]
pub struct BufferInitAction {
    pub buffer: usize,
    pub start: u64,
    pub end: u64,
    pub kind: MemoryInitKind,
}

/// A query set, owned by a device.
#[derive(Clone, Copy, PartialEq, Eq, Structural, Debug)]
pub struct QuerySet {
    /// Index of the owning device.
    pub device: usize,
    /// Number of queries in the set.
    pub count: u32,
}

} // verus!
