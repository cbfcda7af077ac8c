use web_max_area_data_collection::bucket_quota::BucketQuota;
use web_max_area_data_collection::controls::{
    command_for, title_refresh_due, Key, SurfaceState, ViewerCommand, WindowInput,
};
use web_max_area_data_collection::gather_data::{
    DataCollection, DataCollectionStage, GatherAction, DATA_GATHER_MS, WARMUP_MS,
};
use web_max_area_data_collection::shuffle::shuffle_triangles;

#[test]
fn a_timing_run_goes_through_its_stages() {
    let mut run = DataCollection::new();
    assert_eq!(run.stage(), DataCollectionStage::Inactive);
    assert_eq!(run.update(None), GatherAction::Nothing);
    assert_eq!(run.stage(), DataCollectionStage::Warmup);
    assert_eq!(run.update(None), GatherAction::StartTimer);
    assert_eq!(run.update(Some(WARMUP_MS - 1)), GatherAction::Nothing);
    assert_eq!(run.stage(), DataCollectionStage::Warmup);
    assert_eq!(run.update(Some(WARMUP_MS)), GatherAction::BeginMeasurement);
    assert_eq!(run.stage(), DataCollectionStage::Active);
    assert_eq!(run.update(None), GatherAction::StartTimer);
    assert_eq!(run.update(Some(10)), GatherAction::CountFrame);
    assert_eq!(run.update(Some(DATA_GATHER_MS + 7)), GatherAction::FinishMeasurement { total_time_ms: DATA_GATHER_MS + 7 });
    assert_eq!(run.stage(), DataCollectionStage::Inactive);
    assert_eq!(run.update(Some(5000)), GatherAction::Nothing);
    assert_eq!(run.stage(), DataCollectionStage::Warmup);
}

#[test]
fn bucket_quota_counts_down_and_drops_full_buckets() {
    let mut q = BucketQuota::new(3, 2);
    assert_eq!(q.len(), 3);
    assert_eq!(q.bucket(2), (2, 2));
    q.record(Some(1));
    assert_eq!(q.bucket(1), (1, 1));
    q.record(None);
    assert_eq!(q.len(), 3);
    q.record(Some(1));
    assert_eq!(q.len(), 2);
    assert_eq!(q.bucket(1), (2, 2));
    q.record(Some(0));
    q.record(Some(0));
    q.record(Some(0));
    q.record(Some(0));
    assert!(q.is_empty());
}

#[test]
fn bucket_quota_with_nothing_wanted_empties_on_first_sample() {
    let mut q = BucketQuota::new(4, 0);
    assert_eq!(q.len(), 4);
    q.record(None);
    assert!(q.is_empty());
}

#[test]
fn shuffling_keeps_every_triangle() {
    let mut rng = rand::rng();
    let indices: Vec<u32> = (0..3000).collect();
    let shuffled = shuffle_triangles(&mut rng, &indices);
    assert_eq!(shuffled.len(), 3000);
    assert_ne!(shuffled, indices);
    let mut a: Vec<[u32; 3]> = shuffled.chunks_exact(3).map(|c| [c[0], c[1], c[2]]).collect();
    a.sort();
    let b: Vec<[u32; 3]> = indices.chunks_exact(3).map(|c| [c[0], c[1], c[2]]).collect();
    assert_eq!(a, b);
    let short = shuffle_triangles(&mut rng, &vec![4, 5, 6, 7]);
    assert_eq!(short, vec![4, 5, 6]);
}

#[test]
fn window_events_map_to_commands() {
    assert_eq!(command_for(WindowInput::CloseRequested), ViewerCommand::Exit);
    assert_eq!(command_for(WindowInput::Key { key: Key::Escape, pressed: true }), ViewerCommand::Exit);
    assert_eq!(command_for(WindowInput::Key { key: Key::Escape, pressed: false }), ViewerCommand::Ignore);
    assert_eq!(command_for(WindowInput::Key { key: Key::ArrowRight, pressed: true }), ViewerCommand::NextTriangulation);
    assert_eq!(command_for(WindowInput::Key { key: Key::ArrowLeft, pressed: true }), ViewerCommand::PrevTriangulation);
    assert_eq!(command_for(WindowInput::Key { key: Key::KeyF, pressed: true }), ViewerCommand::ToggleFullScreen);
    assert_eq!(command_for(WindowInput::Key { key: Key::Other, pressed: true }), ViewerCommand::Ignore);
    assert_eq!(command_for(WindowInput::LeftMousePressed), ViewerCommand::StartDataGathering);
    assert_eq!(command_for(WindowInput::Touch), ViewerCommand::StartDataGathering);
    assert_eq!(command_for(WindowInput::Resized { width: 3, height: 4 }), ViewerCommand::Resize { width: 3, height: 4 });
    assert_eq!(command_for(WindowInput::RedrawRequested), ViewerCommand::Redraw);
    assert_eq!(command_for(WindowInput::Other), ViewerCommand::Ignore);
    assert!(!title_refresh_due(999));
    assert!(title_refresh_due(1000));
}

#[test]
fn surface_is_drawn_only_once_configured() {
    let mut s = SurfaceState::new(800, 600);
    assert!(!s.can_render());
    assert!(!s.resize(0, 600));
    assert!(!s.can_render());
    assert_eq!(s.get_render_size(), (0, 600));
    assert_eq!(s.configured_size(), (800, 600));
    assert!(s.resize(1024, 768));
    assert!(s.can_render());
    assert_eq!(s.configured_size(), (1024, 768));
    s.recreate(1920, 1080);
    assert!(!s.can_render());
    assert_eq!(s.get_render_size(), (1920, 1080));
}
