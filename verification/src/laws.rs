//! Pass-level laws: properties of recording and replay that hold for every
//! pass, proved over the replay semantics of [`crate::replay`].

use vstd::prelude::*;

use crate::data::Device;
use crate::data::MAX_BIND_GROUPS;
use crate::errors::ComputePassErrorInner;
use crate::errors::DeviceError;
use crate::global::ResV;
use crate::global::wf_res;
use crate::hal::HalOp;
use crate::pass::PassV;
use crate::pass::rec_set_bind_group;
use crate::record::Command;
use crate::record::RecordV;
use crate::record::dyn_f;
use crate::record::prefix_total;
use crate::record::push_f;
use crate::record::str_f;
use crate::record::total;
use crate::record::wf_record;
use crate::replay::EndSpec;
use crate::replay::StateV;
use crate::replay::spec_end_impl;
use crate::replay::spec_run;
use crate::replay::spec_step;

verus! {

/// The side-buffer law: within any well-formed record, the concatenation of
/// `num_dynamic_offsets` over all `SetBindGroup` commands covers the
/// dynamic-offset buffer exactly, the label lengths cover the label bytes,
/// and the push-constant word counts cover the word buffer. Every recording
/// operation preserves this (see `wf_record` in each operation's contract);
/// this lemma states the law itself.
pub proof fn lemma_side_buffer_law(r: RecordV)
    requires
        wf_record(r),
    ensures
        total(r.commands, dyn_f()) == r.dynamic_offsets.len(),
        total(r.commands, str_f()) == r.string_data.len(),
        total(r.commands, push_f()) == r.push_constant_data.len(),
{
}

/// One step errs for every state when its command is doomed; replay from any
/// earlier point therefore fails at or before it, and with exactly the
/// doomed command's error when it is reached.
proof fn lemma_run_errs_at(
    rs: ResV,
    cb_dev: usize,
    dev: Device,
    rec: RecordV,
    s: StateV,
    i: int,
    k: int,
    e: ComputePassErrorInner,
)
    requires
        0 <= i <= k < rec.commands.len(),
        forall|s2: StateV|
            #[trigger] spec_step(rs, cb_dev, dev, rec, s2, rec.commands[k]) == Err::<
                StateV,
                ComputePassErrorInner,
            >(e),
    ensures
        ({
            let r = spec_run(rs, cb_dev, dev, rec, s, i);
            &&& r is Err
            &&& (r matches Err(p) ==> p.0 <= k && (p.0 == k ==> p.1 == e))
        }),
    decreases k - i,
{
    if i == k {
        assert(spec_step(rs, cb_dev, dev, rec, s, rec.commands[k]) == Err::<
            StateV,
            ComputePassErrorInner,
        >(e));
    } else {
        match spec_step(rs, cb_dev, dev, rec, s, rec.commands[i]) {
            Ok(s2) => {
                lemma_run_errs_at(rs, cb_dev, dev, rec, s2, i + 1, k, e);
            },
            Err(_) => {},
        }
    }
}

/// One step errs for every state when its command is doomed, whatever the
/// error; replay from any earlier point therefore fails.
proof fn lemma_run_errs_weak(
    rs: ResV,
    cb_dev: usize,
    dev: Device,
    rec: RecordV,
    s: StateV,
    i: int,
    k: int,
)
    requires
        0 <= i <= k < rec.commands.len(),
        forall|s2: StateV|
            (#[trigger] spec_step(rs, cb_dev, dev, rec, s2, rec.commands[k])) is Err,
    ensures
        spec_run(rs, cb_dev, dev, rec, s, i) is Err,
    decreases k - i,
{
    if i < k {
        match spec_step(rs, cb_dev, dev, rec, s, rec.commands[i]) {
            Ok(s2) => {
                lemma_run_errs_weak(rs, cb_dev, dev, rec, s2, i + 1, k);
            },
            Err(_) => {},
        }
    }
}

/// Binding a slot at or beyond the device's `max_bind_groups` limit can
/// never replay: whatever else the pass recorded, ending it fails.
pub proof fn lemma_bind_group_index_never_replays(
    rs: ResV,
    cb_dev: usize,
    dev: Device,
    rec: RecordV,
    s: StateV,
    i: int,
    k: int,
)
    requires
        cb_dev < rs.devices.len(),
        0 <= i <= k < rec.commands.len(),
        rec.commands[k] matches Command::SetBindGroup { index, .. } && index >= rs.devices[cb_dev as int].limits.max_bind_groups,
    ensures
        spec_run(rs, cb_dev, dev, rec, s, i) is Err,
    decreases k - i,
{
    let c = rec.commands[k];
    match c {
        Command::SetBindGroup { index, num_dynamic_offsets, bind_group } => {
            assert forall|s2: StateV| (#[trigger] spec_step(rs, cb_dev, dev, rec, s2, c))
                is Err by {
                // Either the group fails the same-device check, or the slot
                // index fails the limit check; both abort the step.
            }
            lemma_run_errs_weak(rs, cb_dev, dev, rec, s, i, k);
        },
        _ => {
            assert(false);
        },
    }
}

/// Binding a slot at or beyond the device's `max_bind_groups` limit can
/// never replay: ending such a pass fails, and when every earlier command
/// succeeds and the group belongs to the encoder's device, the failure is
/// exactly `BindGroupIndexOutOfRange` at that command.
pub proof fn lemma_bind_group_index_out_of_range(
    rs: ResV,
    cb_dev: usize,
    dev: Device,
    rec: RecordV,
    s: StateV,
    i: int,
    k: int,
)
    requires
        cb_dev < rs.devices.len(),
        0 <= i <= k < rec.commands.len(),
        rec.commands[k] matches Command::SetBindGroup { index, bind_group, .. } && index
            >= rs.devices[cb_dev as int].limits.max_bind_groups && bind_group
            < rs.bind_groups.len() && rs.bind_groups[bind_group as int].device == cb_dev,
    ensures
        ({
            let r = spec_run(rs, cb_dev, dev, rec, s, i);
            let max = rs.devices[cb_dev as int].limits.max_bind_groups;
            &&& r is Err
            &&& (r matches Err(p) ==> p.0 <= k && (p.0 == k
                ==> (rec.commands[k] matches Command::SetBindGroup { index, .. } && p.1
                == ComputePassErrorInner::BindGroupIndexOutOfRange { index, max })))
        }),
    decreases k - i,
{
    let max = rs.devices[cb_dev as int].limits.max_bind_groups;
    let c = rec.commands[k];
    match c {
        Command::SetBindGroup { index, num_dynamic_offsets, bind_group } => {
            let e = ComputePassErrorInner::BindGroupIndexOutOfRange { index, max };
            assert forall|s2: StateV| #[trigger] spec_step(rs, cb_dev, dev, rec, s2, c) == Err::<
                StateV,
                ComputePassErrorInner,
            >(e) by {
                assert(rs.bind_groups[bind_group as int].device == cb_dev);
            }
            lemma_run_errs_at(rs, cb_dev, dev, rec, s, i, k, e);
        },
        _ => {
            assert(false);
        },
    }
}

/// 1 for `PushDebugGroup`, else 0.
pub open spec fn push1(c: Command) -> int {
    match c {
        Command::PushDebugGroup { .. } => 1,
        _ => 0,
    }
}

/// 1 for `PopDebugGroup`, else 0.
pub open spec fn pop1(c: Command) -> int {
    match c {
        Command::PopDebugGroup => 1,
        _ => 0,
    }
}

/// [`push1`] as a function value, for summing.
pub open spec fn push1_f() -> spec_fn(Command) -> int {
    |c: Command| push1(c)
}

/// [`pop1`] as a function value, for summing.
pub open spec fn pop1_f() -> spec_fn(Command) -> int {
    |c: Command| pop1(c)
}

/// A successful step changes the debug depth by the command's push count
/// minus its pop count, and a pop only succeeds on positive depth.
proof fn lemma_step_depth(
    rs: ResV,
    cb_dev: usize,
    dev: Device,
    rec: RecordV,
    s: StateV,
    c: Command,
)
    ensures
        spec_step(rs, cb_dev, dev, rec, s, c) matches Ok(s2) ==> s2.debug_scope_depth
            == s.debug_scope_depth + push1(c) - pop1(c) && (c is PopDebugGroup
            ==> s.debug_scope_depth != 0),
{
    match c {
        Command::Dispatch { x, y, z } => {
            crate::replay::lemma_flush_counters(rs, s, None);
        },
        Command::DispatchIndirect { buffer, offset } => {
            let buf = rs.buffers[buffer as int];
            match crate::track::spec_merge(
                s.scope_buffers,
                buffer as int,
                crate::data::BUFFER_USE_INDIRECT,
            ) {
                Err(_) => {},
                Ok(sb) => {
                    let s1 = StateV { scope_buffers: sb, ..s };
                    let s2 = if !buf.initialized {
                        StateV {
                            buffer_inits: s1.buffer_inits.push(
                                crate::data::BufferInitAction {
                                    buffer,
                                    start: offset,
                                    end: (offset + 12) as u64,
                                    kind: crate::data::MemoryInitKind::NeedsInitializedMemory,
                                },
                            ),
                            ..s1
                        }
                    } else {
                        s1
                    };
                    crate::replay::lemma_flush_counters(rs, s2, Some(buffer));
                },
            }
        },
        _ => {},
    }
}

/// The debug-scope law, first half: along any successful replay the depth
/// equals pushes minus pops of the commands seen so far, so the number of
/// pops never exceeds the number of pushes in any prefix - the depth cannot
/// go negative.
pub proof fn lemma_debug_depth_balanced(
    rs: ResV,
    cb_dev: usize,
    dev: Device,
    rec: RecordV,
    s: StateV,
    i: int,
    j: int,
)
    requires
        0 <= i <= j <= rec.commands.len(),
        s.debug_scope_depth == prefix_total(rec.commands, push1_f(), i) - prefix_total(
            rec.commands,
            pop1_f(),
            i,
        ),
        s.debug_scope_depth >= 0,
        spec_run(rs, cb_dev, dev, rec, s, i) is Ok,
    ensures
        prefix_total(rec.commands, pop1_f(), j) <= prefix_total(rec.commands, push1_f(), j),
    decreases j - i,
{
    if i < j {
        let c = rec.commands[i];
        match spec_step(rs, cb_dev, dev, rec, s, c) {
            Ok(s2) => {
                lemma_step_depth(rs, cb_dev, dev, rec, s, c);
                crate::record::lemma_prefix_total_step(rec.commands, push1_f(), i);
                crate::record::lemma_prefix_total_step(rec.commands, pop1_f(), i);
                assert(s2.debug_scope_depth >= 0);
                lemma_debug_depth_balanced(rs, cb_dev, dev, rec, s2, i + 1, j);
            },
            Err(_) => {
                assert(false);
            },
        }
    }
}

/// The debug-scope law, second half: a pop with no group left open - the
/// first command whose pop count exceeds the prior push count - cannot
/// replay; ending fails at or before it, and with `InvalidPopDebugGroup`
/// when it is reached.
pub proof fn lemma_extra_pop(
    rs: ResV,
    cb_dev: usize,
    dev: Device,
    rec: RecordV,
    s: StateV,
    i: int,
    k: int,
)
    requires
        0 <= i <= k < rec.commands.len(),
        rec.commands[k] == Command::PopDebugGroup,
        s.debug_scope_depth == prefix_total(rec.commands, push1_f(), i) - prefix_total(
            rec.commands,
            pop1_f(),
            i,
        ),
        prefix_total(rec.commands, push1_f(), k) == prefix_total(rec.commands, pop1_f(), k),
    ensures
        ({
            let r = spec_run(rs, cb_dev, dev, rec, s, i);
            &&& r is Err
            &&& (r matches Err(p) ==> p.0 <= k && (p.0 == k ==> p.1
                == ComputePassErrorInner::InvalidPopDebugGroup))
        }),
    decreases k - i,
{
    if i == k {
        assert(s.debug_scope_depth == 0);
    } else {
        let c = rec.commands[i];
        match spec_step(rs, cb_dev, dev, rec, s, c) {
            Ok(s2) => {
                lemma_step_depth(rs, cb_dev, dev, rec, s, c);
                crate::record::lemma_prefix_total_step(rec.commands, push1_f(), i);
                crate::record::lemma_prefix_total_step(rec.commands, pop1_f(), i);
                lemma_extra_pop(rs, cb_dev, dev, rec, s2, i + 1, k);
            },
            Err(_) => {},
        }
    }
}

/// The device another than the encoder's that a command references, if any.
pub open spec fn cmd_foreign_device(c: Command, rs: ResV, cb_dev: usize) -> bool {
    match c {
        Command::SetBindGroup { bind_group, .. } => rs.bind_groups[bind_group as int].device
            != cb_dev,
        Command::SetPipeline { pipeline } => rs.compute_pipelines[pipeline as int].device
            != cb_dev,
        Command::DispatchIndirect { buffer, .. } => rs.buffers[buffer as int].device != cb_dev,
        Command::WriteTimestamp { query_set, .. } => rs.query_sets[query_set as int].device
            != cb_dev,
        Command::BeginPipelineStatisticsQuery { query_set, .. } => rs.query_sets[query_set as int].device
            != cb_dev,
        _ => false,
    }
}

/// The same-device law: a command referencing a resource whose owning device
/// differs from the parent encoder's fails with a device-mismatch error,
/// whatever the command kind and whatever the replay state.
pub proof fn lemma_same_device_step(
    rs: ResV,
    cb_dev: usize,
    dev: Device,
    rec: RecordV,
    s: StateV,
    c: Command,
)
    requires
        cmd_foreign_device(c, rs, cb_dev),
    ensures
        ({
            let r = spec_step(rs, cb_dev, dev, rec, s, c);
            &&& r is Err
            &&& (r matches Err(e) ==> e matches ComputePassErrorInner::Device(
                DeviceError::DeviceMismatch { expected, actual },
            ) && expected == cb_dev)
        }),
{
}

/// The same-device law at pass level: a record holding any command that
/// references a resource of another device cannot replay to completion.
pub proof fn lemma_same_device_run(
    rs: ResV,
    cb_dev: usize,
    dev: Device,
    rec: RecordV,
    s: StateV,
    i: int,
    k: int,
)
    requires
        0 <= i <= k < rec.commands.len(),
        cmd_foreign_device(rec.commands[k], rs, cb_dev),
    ensures
        spec_run(rs, cb_dev, dev, rec, s, i) is Err,
    decreases k - i,
{
    if i == k {
        lemma_same_device_step(rs, cb_dev, dev, rec, s, rec.commands[k]);
    } else {
        match spec_step(rs, cb_dev, dev, rec, s, rec.commands[i]) {
            Ok(s2) => {
                lemma_same_device_run(rs, cb_dev, dev, rec, s2, i + 1, k);
            },
            Err(_) => {},
        }
    }
}

/// The hardware trace a finished pass contributes: the pre-body segment
/// followed by the body, or nothing when finalization fails.
pub open spec fn trace_of(e: EndSpec) -> Seq<HalOp> {
    match e {
        EndSpec::Done { state, prebody, tracker_buf, tracker_tex } => prebody + state.body,
        _ => Seq::empty(),
    }
}

/// The redundancy law: recording the same `SetBindGroup` twice in a row
/// yields the same final hardware trace as recording it once. A repeat at a
/// slot the filter covers is dropped outright, so the pass is unchanged; a
/// repeat at a slot beyond the filter is appended, but such a slot is beyond
/// the device's bind-group limit too, so both passes fail to replay and
/// neither contributes a trace.
pub proof fn lemma_redundant_set_bind_group(
    rs: ResV,
    p: PassV,
    index: u32,
    gid: usize,
    offsets: Seq<u32>,
    cb_dev: usize,
    trk_b: Seq<Option<(u32, u32)>>,
    trk_t: Seq<Option<(u32, u32)>>,
    tsw: Option<crate::pass::ComputePassTimestampWrites>,
)
    requires
        wf_res(rs),
        cb_dev < rs.devices.len(),
        p.filter_groups.len() == MAX_BIND_GROUPS as int,
        p.base is Some,
        rec_set_bind_group(rs, p, index, gid, offsets).1 is None,
    ensures
        ({
            let p1 = rec_set_bind_group(rs, p, index, gid, offsets).0;
            let (p2, e2) = rec_set_bind_group(rs, p1, index, gid, offsets);
            &&& e2 is None
            &&& trace_of(
                spec_end_impl(rs, cb_dev, trk_b, trk_t, p2.base.unwrap(), tsw),
            ) == trace_of(spec_end_impl(rs, cb_dev, trk_b, trk_t, p1.base.unwrap(), tsw))
        }),
{
    let p1 = rec_set_bind_group(rs, p, index, gid, offsets).0;
    let (p2, e2) = rec_set_bind_group(rs, p1, index, gid, offsets);
    if (index as int) < p.filter_groups.len() {
        // The filter remembers the binding, so the repeat is dropped and the
        // passes are identical.
        assert(crate::pass::filter_redundant(p1, index, gid, offsets));
        assert(p2 == p1);
    } else {
        // The repeat was appended, but the slot is beyond the device limit:
        // both replays fail, and a failed pass contributes no trace.
        assert(index >= MAX_BIND_GROUPS as u32);
        assert(rs.devices[cb_dev as int].limits.max_bind_groups <= MAX_BIND_GROUPS as u32);
        let rec1 = p1.base.unwrap();
        let rec2 = p2.base.unwrap();
        let k1 = p.base.unwrap().commands.len() as int;
        assert(rec1.commands[k1] matches Command::SetBindGroup { .. });
        assert(rec2.commands[k1] matches Command::SetBindGroup { .. });
        let devv = rs.devices[cb_dev as int];
        if devv.valid {
            if rs.bind_groups[gid as int].device == cb_dev {
                lemma_bind_group_index_out_of_range(
                    rs,
                    cb_dev,
                    devv,
                    rec1,
                    crate::replay::init_state(rs, tsw),
                    0,
                    k1,
                );
                lemma_bind_group_index_out_of_range(
                    rs,
                    cb_dev,
                    devv,
                    rec2,
                    crate::replay::init_state(rs, tsw),
                    0,
                    k1,
                );
            } else {
                lemma_same_device_run(
                    rs,
                    cb_dev,
                    devv,
                    rec1,
                    crate::replay::init_state(rs, tsw),
                    0,
                    k1,
                );
                lemma_same_device_run(
                    rs,
                    cb_dev,
                    devv,
                    rec2,
                    crate::replay::init_state(rs, tsw),
                    0,
                    k1,
                );
            }
        }
    }
}

} // verus!
