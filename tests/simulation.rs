use cello::canvas::{Canvas, CanvasStatus, Tick, TimerCommand};
use cello::error::SimError;
use cello::motion::{Cell, CellTick, Heading, Point, FRAME_DELTA_NS, INIT_SIZE, STD_INTERVAL_NS, UNIT};
use cello::pipeline::{CanvasState, RenderPipeline};

/// Runs one frame: fans the tick out, lets every cell whose delivery is
/// accepted consume it, sweeps, and forwards the snapshots.
fn run_frame(
    canvas: &mut Canvas,
    cells: &mut Vec<Cell>,
    refuse: &[u128],
    pipeline: &mut RenderPipeline,
    time_ns: u64,
) -> (usize, Vec<Option<SimError>>) {
    let deliveries = canvas.fan_out(Tick { time_ns });
    let mut delivered = Vec::new();
    let mut produced = 0;
    let mut reports = Vec::new();
    let mut infos = Vec::new();
    for d in deliveries.iter() {
        let ok = !refuse.contains(&d.cell);
        delivered.push(ok);
        if ok {
            let cell = cells.iter_mut().find(|c| c.id() == d.cell).unwrap();
            let report = cell.tick(&d.message);
            produced += 1;
            infos.push(report.info);
        }
    }
    canvas.sweep(&delivered);
    for info in infos {
        reports.push(canvas.ingest_snapshot(info, pipeline));
    }
    (produced, reports)
}

fn canvas_1000() -> Canvas {
    Canvas::new(1000 * UNIT, 1000 * UNIT)
}

#[test]
fn single_cell_drift() {
    let mut canvas = canvas_1000();
    let mut pipeline = RenderPipeline::new(1024);
    let cell = canvas.spawn("A".to_string(), Some(Heading::quarter_turn(0))).unwrap();
    let id = cell.id();
    assert_eq!(cell.position(), Point { x: 500 * UNIT, y: 500 * UNIT });
    assert_eq!(cell.size(), INIT_SIZE);
    let mut cells = vec![cell];
    assert_eq!(canvas.activate(), Ok(TimerCommand::Start { period_ns: STD_INTERVAL_NS }));
    for k in 0..3u64 {
        let (produced, _) = run_frame(&mut canvas, &mut cells, &[], &mut pipeline, k * STD_INTERVAL_NS);
        assert_eq!(produced, 1);
    }
    let snaps = pipeline.drain();
    assert_eq!(snaps.len(), 3);
    assert!(snaps.iter().all(|s| s.id == id));
    // 3 * (1/30) * (10000/707) canvas units, about 1.4144
    assert_eq!(cells[0].position(), Point { x: 500 * UNIT + 3 * 471_475, y: 500 * UNIT });
    let moved = (cells[0].position().x - 500 * UNIT) as f64 / UNIT as f64;
    assert!((moved - 1.4144).abs() < 0.001);
}

#[test]
fn fan_out_and_retention() {
    let mut canvas = canvas_1000();
    let mut pipeline = RenderPipeline::new(1024);
    let a = canvas.spawn_with_id(1, "a".to_string(), Some(Heading::quarter_turn(0))).unwrap();
    let b = canvas.spawn_with_id(2, "b".to_string(), Some(Heading::quarter_turn(1))).unwrap();
    let mut cells = vec![a, b];
    let (produced, _) = run_frame(&mut canvas, &mut cells, &[2], &mut pipeline, 0);
    assert_eq!(produced, 1);
    assert_eq!(canvas.cells(), &vec![1u128]);
    assert_eq!(pipeline.len(), 1);
}

#[test]
fn sink_closed_mid_run() {
    let mut canvas = canvas_1000();
    let mut pipeline = RenderPipeline::new(1024);
    let cell = canvas.spawn("A".to_string(), Some(Heading::quarter_turn(0))).unwrap();
    let id = cell.id();
    let mut cells = vec![cell];
    pipeline.close();
    let mut produced = 0;
    let mut reported = Vec::new();
    for k in 0..10u64 {
        let (p, r) = run_frame(&mut canvas, &mut cells, &[], &mut pipeline, k * STD_INTERVAL_NS);
        produced += p;
        reported.extend(r);
    }
    assert!(canvas.is_live(id));
    assert_eq!(produced, 10);
    assert_eq!(pipeline.drain().len(), 0);
    assert_eq!(reported[0], Some(SimError::SinkClosed));
    assert!(reported[1..].iter().all(|r| r.is_none()));
    assert_eq!(cells[0].position().x, 500 * UNIT + 10 * 471_475);
}

#[test]
fn double_activate() {
    let mut canvas = canvas_1000();
    assert_eq!(canvas.activate(), Ok(TimerCommand::Start { period_ns: 33_333_333 }));
    assert_eq!(canvas.activate(), Ok(TimerCommand::Keep));
    assert_eq!(canvas.status(), CanvasStatus::Active);
}

#[test]
fn projection_latest_wins() {
    let mut state = CanvasState::new(1000 * UNIT, 1000 * UNIT);
    let mut cell = Cell::new(7, "c".to_string(), Point { x: 0, y: 0 }, None, INIT_SIZE);
    for k in 1..=3i64 {
        cell = Cell::new(7, "c".to_string(), Point { x: k, y: k }, None, INIT_SIZE);
        state.cell(&cell.info());
    }
    assert_eq!(state.cells.len(), 1);
    assert_eq!(state.cells[0].position, Point { x: 3, y: 3 });
    assert_eq!(state.cells[0].id, cell.id());
}

#[test]
fn nan_heading_stays_put() {
    let mut canvas = canvas_1000();
    let mut pipeline = RenderPipeline::new(1024);
    let cell = canvas.spawn("A".to_string(), None).unwrap();
    let id = cell.id();
    let mut cells = vec![cell];
    let deliveries = canvas.fan_out(Tick { time_ns: 0 });
    let report = cells[0].tick(&deliveries[0].message);
    assert_eq!(report.warning, Some(SimError::NumericDomain));
    assert_eq!(report.info.position, Point { x: 500 * UNIT, y: 500 * UNIT });
    canvas.sweep(&vec![true]);
    assert!(canvas.is_live(id));
    assert_eq!(canvas.ingest_snapshot(report.info, &mut pipeline), None);
}

#[test]
fn drift_after_n_ticks() {
    let h = Heading { micro_rads: 785_398, unit_x: 707_107, unit_y: 707_107 };
    let start = Point { x: 100, y: -200 };
    let mut cell = Cell::new(3, "d".to_string(), start, Some(h), 1000);
    let tick = CellTick { time_ns: 0, delta_ns: 1_000_000_000 };
    // 707107 * 10000 * 1e9 / (1000 * 1e9) = 7_071_070 steps per tick
    for _ in 0..5 {
        cell.tick(&tick);
    }
    assert_eq!(cell.position(), Point { x: 100 + 5 * 7_071_070, y: -200 + 5 * 7_071_070 });
    assert_eq!(cell.id(), 3);
    assert_eq!(cell.size(), 1000);
    assert_eq!(cell.heading(), Some(h));
    assert_eq!(cell.name(), "d");
}

#[test]
fn negative_heading_truncates_toward_zero() {
    let h = Heading { micro_rads: 3_141_593, unit_x: -1_000_000, unit_y: 1 };
    let mut cell = Cell::new(4, "n".to_string(), Point { x: 0, y: 0 }, Some(h), INIT_SIZE);
    let r = cell.tick(&CellTick { time_ns: 0, delta_ns: FRAME_DELTA_NS });
    assert_eq!(r.info.position, Point { x: -471_475, y: 0 });
    assert_eq!(r.warning, None);
}

#[test]
fn zero_delta_keeps_position() {
    let mut cell = Cell::new(5, "z".to_string(), Point { x: 42, y: 43 }, Some(Heading::quarter_turn(0)), INIT_SIZE);
    let r = cell.tick(&CellTick { time_ns: 10, delta_ns: 0 });
    assert_eq!(r.info.position, Point { x: 42, y: 43 });
    assert_eq!(r.warning, None);
}

#[test]
fn empty_canvas_tick() {
    let mut canvas = canvas_1000();
    let deliveries = canvas.fan_out(Tick { time_ns: 5 });
    assert!(deliveries.is_empty());
    canvas.sweep(&vec![]);
    assert!(canvas.cells().is_empty());
}

#[test]
fn axis_headings_move_along_one_axis() {
    let tick = CellTick { time_ns: 0, delta_ns: FRAME_DELTA_NS };
    let expect = [(471_475, 0), (0, 471_475), (-471_475, 0), (0, -471_475)];
    for k in 0..4u8 {
        let mut cell = Cell::new(9, "q".to_string(), Point { x: 0, y: 0 }, Some(Heading::quarter_turn(k)), INIT_SIZE);
        let r = cell.tick(&tick);
        assert_eq!(r.info.position, Point { x: expect[k as usize].0, y: expect[k as usize].1 });
    }
}

#[test]
fn spawned_ids_are_fresh() {
    let mut canvas = canvas_1000();
    let a = canvas.spawn("a".to_string(), None).unwrap();
    let b = canvas.spawn("b".to_string(), None).unwrap();
    assert_ne!(a.id(), b.id());
    assert_eq!((a.id() >> 76) & 0xf, 4);
    assert_eq!((b.id() >> 76) & 0xf, 4);
    assert_eq!(canvas.cells(), &vec![a.id(), b.id()]);
    assert_eq!(canvas.spawn_with_id(a.id(), "c".to_string(), None).err(), Some(SimError::Allocation));
    assert_eq!(canvas.cells().len(), 2);
}

#[test]
fn shutdown_refuses_spawn_and_activate() {
    let mut canvas = canvas_1000();
    let mut pipeline = RenderPipeline::new(4);
    canvas.spawn_with_id(1, "a".to_string(), None).unwrap();
    canvas.shutdown(&mut pipeline);
    assert!(canvas.cells().is_empty());
    assert!(!pipeline.is_open());
    assert_eq!(canvas.spawn("b".to_string(), None).err(), Some(SimError::InvalidState));
    assert_eq!(canvas.activate(), Err(SimError::InvalidState));
    assert_eq!(canvas.status(), CanvasStatus::Shutdown);
}

#[test]
fn full_pipeline_drops_snapshot() {
    let mut canvas = canvas_1000();
    let mut pipeline = RenderPipeline::new(1);
    let cell = Cell::new(1, "a".to_string(), Point { x: 0, y: 0 }, None, INIT_SIZE);
    assert_eq!(canvas.ingest_snapshot(cell.info(), &mut pipeline), None);
    assert_eq!(canvas.ingest_snapshot(cell.info(), &mut pipeline), Some(SimError::SinkFull));
    assert_eq!(pipeline.len(), 1);
    assert_eq!(pipeline.send(cell.info()), Err(SimError::SinkFull));
}

#[test]
fn overflow_is_numeric_domain() {
    let mut cell = Cell::new(1, "o".to_string(), Point { x: i64::MAX - 10, y: 0 }, Some(Heading::quarter_turn(0)), INIT_SIZE);
    let r = cell.tick(&CellTick { time_ns: 0, delta_ns: FRAME_DELTA_NS });
    assert_eq!(r.warning, Some(SimError::NumericDomain));
    assert_eq!(cell.position(), Point { x: i64::MAX - 10, y: 0 });
}

#[test]
fn replayed_snapshot_leaves_projection() {
    let mut state = CanvasState::new(10, 10);
    let a = Cell::new(1, "a".to_string(), Point { x: 1, y: 2 }, None, INIT_SIZE).info();
    let b = Cell::new(2, "b".to_string(), Point { x: 3, y: 4 }, None, INIT_SIZE).info();
    state.ingest_all(&vec![a, b]);
    state.cell(&b);
    let once = state.cells.clone();
    state.cell(&b);
    assert_eq!(state.cells, once);
    assert_eq!(state.cells, vec![a, b]);
}

#[test]
fn one_snapshot_per_consumed_tick() {
    let mut cell = Cell::new(11, "s".to_string(), Point { x: 0, y: 0 }, Some(Heading::quarter_turn(1)), INIT_SIZE);
    let r = cell.tick(&CellTick { time_ns: 0, delta_ns: FRAME_DELTA_NS });
    assert_eq!(r.info.id, 11);
    assert_eq!(r.info.position, cell.position());
    assert_eq!(r.info, cell.info());
}

#[test]
fn pipeline_is_fifo() {
    let mut p = RenderPipeline::new(8);
    let a = Cell::new(1, "a".to_string(), Point { x: 1, y: 1 }, None, INIT_SIZE).info();
    let b = Cell::new(2, "b".to_string(), Point { x: 2, y: 2 }, None, INIT_SIZE).info();
    assert_eq!(p.send(a), Ok(()));
    assert_eq!(p.send(b), Ok(()));
    assert_eq!(p.drain(), vec![a, b]);
    assert_eq!(p.len(), 0);
    p.close();
    assert_eq!(p.send(a), Err(SimError::SinkClosed));
}

#[test]
fn heading_must_be_unit_length() {
    let diagonal = Heading::new(785_398, 707_107, 707_107).unwrap();
    assert_eq!(diagonal, Heading { micro_rads: 785_398, unit_x: 707_107, unit_y: 707_107 });
    assert_eq!(Heading::new(0, 5_000_000, 0), Err(SimError::NumericDomain));
    assert_eq!(Heading::new(0, 500_000, 500_000), Err(SimError::NumericDomain));
    assert_eq!(Heading::new(0, 1_000_000, 0), Ok(Heading::quarter_turn(0)));
}

#[test]
fn first_spawn_succeeds_and_grows_roster_by_one() {
    let mut canvas = canvas_1000();
    let before = canvas.cells().clone();
    let cell = canvas.spawn("first".to_string(), Some(Heading::quarter_turn(2))).unwrap();
    let mut expected = before.clone();
    expected.push(cell.id());
    assert_eq!(canvas.cells(), &expected);
    assert!(!before.contains(&cell.id()));
    assert_eq!((cell.id() >> 62) & 0x3, 2);
}
