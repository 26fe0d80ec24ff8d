use tilegen::job::{Step, TileSource, ZoomJob};

fn run(mut job: ZoomJob) -> Vec<Step> {
    let mut steps = Vec::new();
    while let Some(step) = job.next_step() {
        steps.push(step);
        job.report(true);
    }
    steps
}

#[test]
fn gpu_jobs_create_directories_and_render_batches() {
    assert_eq!(
        run(ZoomJob::new(2, TileSource::Gpu(3))),
        vec![
            Step::CreateZoomDir,
            Step::CreateColumnDir(0),
            Step::CreateColumnDir(1),
            Step::RenderBatch(0),
            Step::RenderBatch(1),
            Step::RenderBatch(2),
        ]
    );
}

#[test]
fn cpu_jobs_scale_before_they_cut() {
    assert_eq!(
        run(ZoomJob::new(2, TileSource::Cpu)),
        vec![
            Step::CreateZoomDir,
            Step::Scale,
            Step::CreateColumnDir(0),
            Step::CreateColumnDir(1),
            Step::CutTiles,
        ]
    );
}

#[test]
fn jobs_without_columns_or_batches_end_early() {
    assert_eq!(run(ZoomJob::new(0, TileSource::Gpu(0))), vec![Step::CreateZoomDir]);
    assert_eq!(
        run(ZoomJob::new(0, TileSource::Gpu(1))),
        vec![Step::CreateZoomDir, Step::RenderBatch(0)]
    );
}

#[test]
fn a_failure_ends_the_job() {
    let mut job = ZoomJob::new(4, TileSource::Gpu(1));
    job.report(true);
    assert_eq!(job.next_step(), Some(Step::CreateColumnDir(0)));
    job.report(false);
    assert_eq!(job.next_step(), None);
    job.report(true);
    assert_eq!(job.next_step(), None);
}

#[test]
fn tiles_are_written_last() {
    let steps = run(ZoomJob::new(16, TileSource::Gpu(4)));
    let first = steps.iter().position(|s| matches!(s, Step::RenderBatch(_))).unwrap();
    assert_eq!(first, 17);
    assert!(steps[first..].iter().all(|s| matches!(s, Step::RenderBatch(_))));
    assert_eq!(steps.len(), 21);
}
