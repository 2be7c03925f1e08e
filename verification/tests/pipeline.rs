use voxel_carving::frames::{camera_to_texture, new_frame_reset, CameraTextures};
use voxel_carving::pipeline::{
    workgroups, Dispatch, ProcessingNode, ProcessingState, Program, ProgramStatus, WORKGROUP_SIZE,
};

const ALL: [ProgramStatus; 5] = [
    ProgramStatus::Queued,
    ProgramStatus::Creating,
    ProgramStatus::Compiled,
    ProgramStatus::ShaderNotLoaded,
    ProgramStatus::Failed,
];

fn images(width: u32, height: u32) -> CameraTextures {
    CameraTextures::new(width, height, vec![0; (width * height * 4) as usize]).unwrap()
}

#[test]
fn node_starts_loading() {
    assert_eq!(ProcessingNode::default().state, ProcessingState::Loading);
}

#[test]
fn node_becomes_ready_exactly_when_both_programs_are_compiled() {
    for diff in ALL {
        for raymarch in ALL {
            let mut node = ProcessingNode::default();
            let _ = node.update(diff, raymarch);
            let both = diff == ProgramStatus::Compiled && raymarch == ProgramStatus::Compiled;
            assert_eq!(node.state == ProcessingState::Ready, both);
        }
    }
}

#[test]
fn ready_node_stays_ready_and_reports_nothing() {
    for diff in ALL {
        for raymarch in ALL {
            let mut node = ProcessingNode { state: ProcessingState::Ready };
            assert_eq!(node.update(diff, raymarch), Ok(()));
            assert_eq!(node.state, ProcessingState::Ready);
        }
    }
}

#[test]
fn failed_program_is_named_while_loading() {
    let mut node = ProcessingNode::default();
    assert_eq!(node.update(ProgramStatus::Failed, ProgramStatus::Queued), Err(Program::Diff));
    assert_eq!(node.update(ProgramStatus::Failed, ProgramStatus::Failed), Err(Program::Diff));
    assert_eq!(node.update(ProgramStatus::Compiled, ProgramStatus::Failed), Err(Program::Raymarch));
    assert_eq!(node.update(ProgramStatus::Queued, ProgramStatus::Failed), Err(Program::Raymarch));
    assert_eq!(node.state, ProcessingState::Loading);
}

#[test]
fn shader_not_loaded_is_not_an_error() {
    let mut node = ProcessingNode::default();
    assert_eq!(node.update(ProgramStatus::ShaderNotLoaded, ProgramStatus::ShaderNotLoaded), Ok(()));
    assert_eq!(node.update(ProgramStatus::Queued, ProgramStatus::Creating), Ok(()));
    assert_eq!(node.update(ProgramStatus::Compiled, ProgramStatus::Creating), Ok(()));
    assert_eq!(node.state, ProcessingState::Loading);
    assert_eq!(node.update(ProgramStatus::Compiled, ProgramStatus::Compiled), Ok(()));
    assert_eq!(node.state, ProcessingState::Ready);
}

#[test]
fn loading_node_never_dispatches() {
    let node = ProcessingNode::default();
    let mut t = images(16, 16);
    assert_eq!(node.run(t.consume_flag(), t.size, true), Dispatch::NotReady);
    new_frame_reset(&mut t);
    assert_eq!(node.run(t.consume_flag(), t.size, true), Dispatch::NoNewFrame);
    camera_to_texture(&mut t, vec![1; 1024]).unwrap();
    assert_eq!(node.run(t.consume_flag(), t.size, true), Dispatch::NotReady);
}

#[test]
fn ready_node_dispatches_once_per_new_frame() {
    let node = ProcessingNode { state: ProcessingState::Ready };
    let mut t = images(640, 480);
    assert_eq!(node.run(t.consume_flag(), t.size, true), Dispatch::Run { groups_x: 80, groups_y: 60 });
    new_frame_reset(&mut t);
    assert_eq!(node.run(t.consume_flag(), t.size, true), Dispatch::NoNewFrame);
    camera_to_texture(&mut t, vec![1; 640 * 480 * 4]).unwrap();
    assert_eq!(node.run(t.consume_flag(), t.size, true), Dispatch::Run { groups_x: 80, groups_y: 60 });
}

#[test]
fn missing_resource_skips_the_cycle() {
    let ready = ProcessingNode { state: ProcessingState::Ready };
    let loading = ProcessingNode::default();
    let mut t = images(16, 16);
    assert_eq!(ready.run(t.consume_flag(), t.size, false), Dispatch::MissingResource);
    assert_eq!(loading.run(t.consume_flag(), t.size, false), Dispatch::NotReady);
    new_frame_reset(&mut t);
    assert_eq!(ready.run(t.consume_flag(), t.size, false), Dispatch::NoNewFrame);
    assert_eq!(loading.run(t.consume_flag(), t.size, false), Dispatch::NoNewFrame);
}

#[test]
fn dispatch_covers_partial_tiles_at_the_edges() {
    let node = ProcessingNode { state: ProcessingState::Ready };
    assert_eq!(node.run(true, (641, 479), true), Dispatch::Run { groups_x: 81, groups_y: 60 });
    assert_eq!(node.run(true, (1, 7), true), Dispatch::Run { groups_x: 1, groups_y: 1 });
    assert_eq!(node.run(true, (0, 9), true), Dispatch::Run { groups_x: 0, groups_y: 2 });
}

#[test]
fn workgroups_is_extent_over_eight_rounded_up() {
    assert_eq!(WORKGROUP_SIZE, 8);
    assert_eq!(workgroups(0), 0);
    assert_eq!(workgroups(1), 1);
    assert_eq!(workgroups(8), 1);
    assert_eq!(workgroups(9), 2);
    assert_eq!(workgroups(640), 80);
    assert_eq!(workgroups(u32::MAX), 536_870_912);
    assert_eq!(workgroups(u32::MAX - 7), 536_870_911);
}

#[test]
fn every_pixel_lies_in_a_dispatched_tile() {
    for extent in 0u32..100 {
        let groups = workgroups(extent);
        for pixel in 0..extent {
            assert!(pixel / WORKGROUP_SIZE < groups);
        }
        if groups > 0 {
            assert!((groups - 1) * WORKGROUP_SIZE < extent);
        }
    }
}
