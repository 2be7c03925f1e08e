//! Readiness of the two compute programs, and the decision whether a cycle
//! dispatches them.
//!
//! The difference program and the ray-march program are compiled in the
//! background.  Until both are compiled nothing is dispatched; once both are,
//! the node is ready and stays so.  A cycle dispatches only when the node is
//! ready, the frame store holds a frame that no dispatch has seen, and every
//! GPU resource that the programs are bound to is there.
use vstd::prelude::*;

verus! {

/// Edge length in pixels of the square tile that one workgroup covers.
pub const WORKGROUP_SIZE: u32 = 8;

/// Whether the compute programs can be dispatched.
#[derive(Clone, Copy, Debug, PartialEq, Eq, Structural)]
pub enum ProcessingState {
    Loading,
    Ready,
}

/// One of the two compute programs.
#[derive(Clone, Copy, Debug, PartialEq, Eq, Structural)]
pub enum Program {
    Diff,
    Raymarch,
}

/// What the pipeline cache reports of a program.
#[derive(Clone, Copy, Debug, PartialEq, Eq, Structural)]
pub enum ProgramStatus {
    /// Waiting to be compiled.
    Queued,
    /// Being compiled.
    Creating,
    /// Compiled and usable.
    Compiled,
    /// The shader source has not arrived yet.
    ShaderNotLoaded,
    /// Compilation failed for good.
    Failed,
}

/// What a cycle does.
#[derive(Clone, Copy, Debug, PartialEq, Eq, Structural)]
pub enum Dispatch {
    /// No frame was taken since the last dispatch: nothing is done.
    NoNewFrame,
    /// A program is not compiled yet: nothing is done.
    NotReady,
    /// A texture or buffer that the programs are bound to is not on the GPU
    /// yet: nothing is done.
    MissingResource,
    /// Both programs run, the difference program first, each over this many
    /// workgroups along each axis.
    Run { groups_x: u32, groups_y: u32 },
}

/// The node of the render graph that runs the two programs.
#[derive(Clone, Copy, Debug, PartialEq, Eq, Structural)]
pub struct ProcessingNode {
    pub state: ProcessingState,
}

/// Number of tiles needed to cover `extent` pixels: `extent / 8`, rounded up.
pub open spec fn tiles(extent: u32) -> int {
    (extent + WORKGROUP_SIZE - 1) / (WORKGROUP_SIZE as int)
}

/// The state after one look at the pipeline cache.
pub open spec fn next_state(
    state: ProcessingState,
    diff: ProgramStatus,
    raymarch: ProgramStatus,
) -> ProcessingState {
    if state == ProcessingState::Ready || (diff == ProgramStatus::Compiled && raymarch
        == ProgramStatus::Compiled) {
        ProcessingState::Ready
    } else {
        ProcessingState::Loading
    }
}

/// The program whose failure stops startup, if there is one: while loading, a
/// program that failed for good, the difference program first.
pub open spec fn fatal_program(
    state: ProcessingState,
    diff: ProgramStatus,
    raymarch: ProgramStatus,
) -> Option<Program> {
    if state == ProcessingState::Ready {
        None
    } else if diff == ProgramStatus::Failed {
        Some(Program::Diff)
    } else if raymarch == ProgramStatus::Failed {
        Some(Program::Raymarch)
    } else {
        None
    }
}

/// What a cycle does in state `state` with a frame store whose flag is
/// `new_frame` and whose frames have size `size`; `resources_ready` says
/// whether every GPU resource that the programs are bound to is there.
pub open spec fn planned(
    state: ProcessingState,
    new_frame: bool,
    resources_ready: bool,
    size: (u32, u32),
) -> Dispatch {
    if !new_frame {
        Dispatch::NoNewFrame
    } else if state == ProcessingState::Loading {
        Dispatch::NotReady
    } else if !resources_ready {
        Dispatch::MissingResource
    } else {
        Dispatch::Run { groups_x: tiles(size.0) as u32, groups_y: tiles(size.1) as u32 }
    }
}

/// The state after the looks `reports` at the pipeline cache, one after the
/// other; each is the status of the difference program and that of the
/// ray-march program.
pub open spec fn state_after(
    state: ProcessingState,
    reports: Seq<(ProgramStatus, ProgramStatus)>,
) -> ProcessingState
    decreases reports.len(),
{
    if reports.len() == 0 {
        state
    } else {
        next_state(state_after(state, reports.drop_last()), reports.last().0, reports.last().1)
    }
}

/// Number of workgroups along an axis of `extent` pixels, so that the tiles
/// cover every pixel.
pub fn workgroups(extent: u32) -> (groups: u32)
    ensures
        groups == tiles(extent),
        groups * WORKGROUP_SIZE >= extent,
        groups * WORKGROUP_SIZE < extent + WORKGROUP_SIZE,
{
    if extent % WORKGROUP_SIZE == 0 {
        extent / WORKGROUP_SIZE
    } else {
        extent / WORKGROUP_SIZE + 1
    }
}

impl Default for ProcessingNode {
    /// A node whose programs are not compiled yet.
    fn default() -> (node: ProcessingNode)
        ensures
            node.state == ProcessingState::Loading,
    {
        ProcessingNode { state: ProcessingState::Loading }
    }
}

impl ProcessingNode {
    /// Looks at what the pipeline cache reports of the two programs.
    ///
    /// While loading, the node becomes ready when both programs are
    /// compiled, and the program that failed for good is returned as the
    /// error.  A ready node stays ready whatever is reported.
    pub fn update(&mut self, diff: ProgramStatus, raymarch: ProgramStatus) -> (r: Result<
        (),
        Program,
    >)
        ensures
            final(self).state == next_state(old(self).state, diff, raymarch),
            r == match fatal_program(old(self).state, diff, raymarch) {
                Some(program) => Err::<(), Program>(program),
                None => Ok::<(), Program>(()),
            },
    {
        match self.state {
            ProcessingState::Ready => Ok(()),
            ProcessingState::Loading => {
                match diff {
                    ProgramStatus::Failed => Err(Program::Diff),
                    ProgramStatus::Compiled => {
                        match raymarch {
                            ProgramStatus::Compiled => {
                                self.state = ProcessingState::Ready;
                                Ok(())
                            },
                            ProgramStatus::Failed => Err(Program::Raymarch),
                            _ => Ok(()),
                        }
                    },
                    _ => {
                        match raymarch {
                            ProgramStatus::Failed => Err(Program::Raymarch),
                            _ => Ok(()),
                        }
                    },
                }
            },
        }
    }

    /// Decides what this cycle does, for a frame store whose flag is
    /// `new_frame` and whose frames have size `size`.  Work is dispatched only
    /// by a ready node, only for a frame that was taken since the flag was
    /// last cleared, and only when `resources_ready` says that every GPU
    /// resource is there.
    pub fn run(&self, new_frame: bool, size: (u32, u32), resources_ready: bool) -> (r: Dispatch)
        ensures
            r == planned(self.state, new_frame, resources_ready, size),
            r is Run <==> self.state == ProcessingState::Ready && new_frame && resources_ready,
    {
        if !new_frame {
            return Dispatch::NoNewFrame;
        }
        match self.state {
            ProcessingState::Loading => Dispatch::NotReady,
            ProcessingState::Ready => {
                if resources_ready {
                    Dispatch::Run { groups_x: workgroups(size.0), groups_y: workgroups(size.1) }
                } else {
                    Dispatch::MissingResource
                }
            },
        }
    }
}

/// The tiles cover the frame: every pixel along an axis lies in one of the
/// workgroups that are dispatched for that axis, and the last of them holds
/// at least one pixel.
pub proof fn lemma_tiles_cover(extent: u32, pixel: int)
    requires
        0 <= pixel < extent,
    ensures
        0 <= pixel / (WORKGROUP_SIZE as int) < tiles(extent),
        (tiles(extent) - 1) * WORKGROUP_SIZE < extent,
{
}

/// A loading node never dispatches.
pub proof fn lemma_loading_never_dispatches(
    new_frame: bool,
    resources_ready: bool,
    size: (u32, u32),
)
    ensures
        !(planned(ProcessingState::Loading, new_frame, resources_ready, size) is Run),
{
}

/// A loading node becomes ready exactly when both programs are reported
/// compiled, and a ready node stays ready.
pub proof fn lemma_ready_transition(
    state: ProcessingState,
    diff: ProgramStatus,
    raymarch: ProgramStatus,
)
    ensures
        state == ProcessingState::Loading ==> (next_state(state, diff, raymarch)
            == ProcessingState::Ready <==> diff == ProgramStatus::Compiled && raymarch
            == ProgramStatus::Compiled),
        state == ProcessingState::Ready ==> next_state(state, diff, raymarch)
            == ProcessingState::Ready,
{
}

/// After any number of looks at the pipeline cache, a node that started
/// loading is ready exactly when one of the looks found both programs
/// compiled.
pub proof fn lemma_ready_after(reports: Seq<(ProgramStatus, ProgramStatus)>)
    ensures
        state_after(ProcessingState::Loading, reports) == ProcessingState::Ready <==> exists|
            k: int,
        |
            0 <= k < reports.len() && (#[trigger] reports[k]).0 == ProgramStatus::Compiled
                && reports[k].1 == ProgramStatus::Compiled,
    decreases reports.len(),
{
    if reports.len() > 0 {
        let head = reports.drop_last();
        lemma_ready_after(head);
        let last = reports.len() - 1;
        if state_after(ProcessingState::Loading, head) == ProcessingState::Ready {
            let k = choose|k: int|
                0 <= k < head.len() && (#[trigger] head[k]).0 == ProgramStatus::Compiled
                    && head[k].1 == ProgramStatus::Compiled;
            assert(reports[k] == head[k]);
        } else if reports[last].0 == ProgramStatus::Compiled && reports[last].1
            == ProgramStatus::Compiled {
        } else {
            assert forall|k: int|
                0 <= k < reports.len() && (#[trigger] reports[k]).0 == ProgramStatus::Compiled
                    && reports[k].1 == ProgramStatus::Compiled implies false by {
                if k < last {
                    assert(head[k] == reports[k]);
                }
            }
        }
    }
}

} // verus!
