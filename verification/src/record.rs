//! The command record: the typed command list of a pass and its three side
//! buffers, with the bookkeeping laws that tie them together.

use vstd::prelude::*;

verus! {

/// One recorded compute command. Resources are held as their index in the
/// owning table of [`crate::global::Global`], resolved at record time.
#[derive(Clone, Copy, PartialEq, Eq, Structural, Debug)]
pub enum Command {
    SetBindGroup { index: u32, num_dynamic_offsets: usize, bind_group: usize },
    SetPipeline { pipeline: usize },
    SetPushConstant { offset: u32, size_bytes: u32, values_offset: u32 },
    Dispatch { x: u32, y: u32, z: u32 },
    DispatchIndirect { buffer: usize, offset: u64 },
    PushDebugGroup { color: u32, len: usize },
    PopDebugGroup,
    InsertDebugMarker { color: u32, len: usize },
    WriteTimestamp { query_set: usize, query_index: u32 },
    BeginPipelineStatisticsQuery { query_set: usize, query_index: u32 },
    EndPipelineStatisticsQuery,
}

/// The record of a pass: its label, the ordered command list, and the three
/// side buffers that commands slice by running offsets during replay.
pub struct BasePass {
    pub label: Option<String>,
    pub commands: Vec<Command>,
    /// Dynamic offsets of all `SetBindGroup` commands, concatenated.
    pub dynamic_offsets: Vec<u32>,
    /// Label bytes of all debug-group and debug-marker commands, concatenated.
    pub string_data: Vec<u8>,
    /// Push-constant words of all `SetPushConstant` commands, concatenated.
    pub push_constant_data: Vec<u32>,
}

/// Mathematical form of a record.
#[verifier::ext_equal]
pub ghost struct RecordV {
    pub label: Option<Seq<char>>,
    pub commands: Seq<Command>,
    pub dynamic_offsets: Seq<u32>,
    pub string_data: Seq<u8>,
    pub push_constant_data: Seq<u32>,
}

impl View for BasePass {
    type V = RecordV;

    open spec fn view(&self) -> RecordV {
        RecordV {
            label: match self.label {
                Some(l) => Some(l@),
                None => None,
            },
            commands: self.commands@,
            dynamic_offsets: self.dynamic_offsets@,
            string_data: self.string_data@,
            push_constant_data: self.push_constant_data@,
        }
    }
}

/// How many dynamic offsets a command consumes.
pub open spec fn dyn_count(c: Command) -> int {
    match c {
        Command::SetBindGroup { num_dynamic_offsets, .. } => num_dynamic_offsets as int,
        _ => 0,
    }
}

/// How many label bytes a command consumes.
pub open spec fn str_count(c: Command) -> int {
    match c {
        Command::PushDebugGroup { len, .. } => len as int,
        Command::InsertDebugMarker { len, .. } => len as int,
        _ => 0,
    }
}

/// How many push-constant words a command consumes.
pub open spec fn push_count(c: Command) -> int {
    match c {
        Command::SetPushConstant { size_bytes, .. } => size_bytes as int / 4,
        _ => 0,
    }
}

/// [`dyn_count`] as a function value, for summing.
pub open spec fn dyn_f() -> spec_fn(Command) -> int {
    |c: Command| dyn_count(c)
}

/// [`str_count`] as a function value, for summing.
pub open spec fn str_f() -> spec_fn(Command) -> int {
    |c: Command| str_count(c)
}

/// [`push_count`] as a function value, for summing.
pub open spec fn push_f() -> spec_fn(Command) -> int {
    |c: Command| push_count(c)
}

/// The sum of `f` over a command sequence.
pub open spec fn total(cmds: Seq<Command>, f: spec_fn(Command) -> int) -> int
    decreases cmds.len(),
{
    if cmds.len() == 0 {
        0
    } else {
        total(cmds.drop_last(), f) + f(cmds.last())
    }
}

/// The sum of `f` over the first `i` commands.
pub open spec fn prefix_total(cmds: Seq<Command>, f: spec_fn(Command) -> int, i: int) -> int {
    total(cmds.take(i), f)
}

pub proof fn lemma_total_push(cmds: Seq<Command>, f: spec_fn(Command) -> int, c: Command)
    ensures
        total(cmds.push(c), f) == total(cmds, f) + f(c),
{
    assert(cmds.push(c).drop_last() =~= cmds);
    assert(cmds.push(c).last() == c);
}

pub proof fn lemma_total_nonneg(cmds: Seq<Command>, f: spec_fn(Command) -> int)
    requires
        forall|c: Command| #[trigger] f(c) >= 0,
    ensures
        total(cmds, f) >= 0,
    decreases cmds.len(),
{
    if cmds.len() > 0 {
        lemma_total_nonneg(cmds.drop_last(), f);
    }
}

/// One more command in the prefix adds that command's contribution.
pub proof fn lemma_prefix_total_step(cmds: Seq<Command>, f: spec_fn(Command) -> int, i: int)
    requires
        0 <= i < cmds.len(),
    ensures
        prefix_total(cmds, f, i + 1) == prefix_total(cmds, f, i) + f(cmds[i]),
{
    assert(cmds.take(i + 1).drop_last() =~= cmds.take(i));
    assert(cmds.take(i + 1).last() == cmds[i]);
}

/// A prefix sum of a nonnegative contribution never exceeds the full sum.
pub proof fn lemma_prefix_total_le(cmds: Seq<Command>, f: spec_fn(Command) -> int, i: int)
    requires
        forall|c: Command| #[trigger] f(c) >= 0,
        0 <= i <= cmds.len(),
    ensures
        prefix_total(cmds, f, i) <= total(cmds, f),
        prefix_total(cmds, f, i) >= 0,
    decreases cmds.len() - i,
{
    lemma_total_nonneg(cmds.take(i), f);
    if i == cmds.len() {
        assert(cmds.take(i) =~= cmds);
    } else {
        lemma_prefix_total_step(cmds, f, i);
        lemma_prefix_total_le(cmds, f, i + 1);
    }
}

/// The side-buffer law, part of every pass's invariant: the concatenation of
/// `num_dynamic_offsets` over all `SetBindGroup` commands covers the
/// dynamic-offset buffer exactly; the label lengths cover the label bytes;
/// the push-constant word counts cover the word buffer; and every
/// `SetPushConstant` command's `values_offset` is the word count of the
/// commands before it, with offset and size 4-byte aligned.
pub open spec fn wf_record(r: RecordV) -> bool {
    &&& total(r.commands, dyn_f()) == r.dynamic_offsets.len()
    &&& total(r.commands, str_f()) == r.string_data.len()
    &&& total(r.commands, push_f()) == r.push_constant_data.len()
    &&& forall|k: int|
        0 <= k < r.commands.len() ==> ((#[trigger] r.commands[k]) matches Command::SetPushConstant {
            offset,
            size_bytes,
            values_offset,
        } ==> offset % 4 == 0 && size_bytes % 4 == 0 && values_offset as int == prefix_total(
            r.commands,
            push_f(),
            k,
        ))
}

/// Appending one command together with exactly its side-buffer consumption
/// preserves the side-buffer law.
pub proof fn lemma_wf_record_append(r: RecordV, c: Command, r2: RecordV)
    requires
        wf_record(r),
        r2.commands == r.commands.push(c),
        r2.dynamic_offsets.len() == r.dynamic_offsets.len() + dyn_count(c),
        r2.string_data.len() == r.string_data.len() + str_count(c),
        r2.push_constant_data.len() == r.push_constant_data.len() + push_count(c),
        c matches Command::SetPushConstant { offset, size_bytes, values_offset } ==> offset % 4
            == 0 && size_bytes % 4 == 0 && values_offset as int == r.push_constant_data.len(),
    ensures
        wf_record(r2),
{
    lemma_total_push(r.commands, dyn_f(), c);
    lemma_total_push(r.commands, str_f(), c);
    lemma_total_push(r.commands, push_f(), c);
    assert forall|k: int|
        0 <= k < r2.commands.len() implies ((#[trigger] r2.commands[k])
        matches Command::SetPushConstant {
        offset,
        size_bytes,
        values_offset,
    } ==> offset % 4 == 0 && size_bytes % 4 == 0 && values_offset as int == prefix_total(
        r2.commands,
        push_f(),
        k,
    )) by {
        if k < r.commands.len() {
            assert(r2.commands[k] == r.commands[k]);
            assert(r2.commands.take(k) =~= r.commands.take(k));
        } else {
            assert(r2.commands[k] == c);
            assert(r2.commands.take(k) =~= r.commands);
        }
    }
}

/// A record as a fresh pass starts with it.
pub open spec fn empty_record(label: Option<Seq<char>>) -> RecordV {
    RecordV {
        label,
        commands: Seq::empty(),
        dynamic_offsets: Seq::empty(),
        string_data: Seq::empty(),
        push_constant_data: Seq::empty(),
    }
}

impl BasePass {
    /// A fresh, empty record.
    pub fn new(label: Option<String>) -> (r: BasePass)
        ensures
            r@ == empty_record(match label {
                Some(l) => Some(l@),
                None => None::<Seq<char>>,
            }),
            wf_record(r@),
    {
        let r = BasePass {
            label,
            commands: Vec::new(),
            dynamic_offsets: Vec::new(),
            string_data: Vec::new(),
            push_constant_data: Vec::new(),
        };
        proof {
            assert(r@ =~= empty_record(r@.label));
        }
        r
    }
}

} // verus!
