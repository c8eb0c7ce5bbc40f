use vstd::prelude::*;

use crate::error::SimError;
use crate::motion::{heading_ok, Cell, CellInfo, CellTick, CellView, Heading, Point, FRAME_DELTA_NS, INIT_SIZE, STD_INTERVAL_NS};
use crate::pipeline::{send_spec, PipelineView, RenderPipeline};

verus! {

/// Lifecycle of a canvas: `Inactive` until activated, then `Active`, and
/// `Shutdown` for good once torn down.
#[derive(Clone, Copy, Debug, PartialEq, Eq, Structural)]
pub enum CanvasStatus {
    Inactive,
    Active,
    Shutdown,
}

/// What the driver of the canvas timer must do after an activation.
#[derive(Clone, Copy, Debug, PartialEq, Eq, Structural)]
pub enum TimerCommand {
    /// Start a periodic timer that enqueues a `Tick` every `period_ns`.
    Start { period_ns: u64 },
    /// A timer already runs: start none.
    Keep,
}

/// Request to create a cell.
pub struct SpawnNew {
    pub name: String,
}

/// Reply to `SpawnNew`: the identity of the new cell.
#[derive(Clone, Copy, Debug, PartialEq, Eq, Structural)]
pub struct SpawnSuccess {
    pub id: u128,
}

/// Request to start the canvas timer.
#[derive(Clone, Copy, Debug, PartialEq, Eq, Structural)]
pub struct ActivateCanvas;

/// The canvas-wide frame event.
#[derive(Clone, Copy, Debug, PartialEq, Eq, Structural)]
pub struct Tick {
    /// Time of the frame, in nanoseconds since the canvas started.
    pub time_ns: u64,
}

/// A snapshot travelling from a cell to its canvas.
#[derive(Clone, Copy, Debug, PartialEq, Eq, Structural)]
pub struct CellInfoMsg {
    pub cell_info: CellInfo,
}

/// One message of a frame's fan-out: the tick for one cell.
#[derive(Clone, Copy, Debug, PartialEq, Eq, Structural)]
pub struct Delivery {
    pub cell: u128,
    pub message: CellTick,
}

/// The mathematical state of a canvas.
pub struct CanvasView {
    pub width: i64,
    pub height: i64,
    pub status: CanvasStatus,
    /// The live cells, in order of insertion.
    pub cells: Seq<u128>,
    /// Every identity this canvas has handed out, in order.
    pub issued: Seq<u128>,
    /// Whether a closed render pipeline has been reported already.
    pub sink_reported: bool,
}

/// A version-4 identifier: its version field holds 4 and its variant field
/// the RFC 4122 bits `10`.
pub open spec fn is_random_id(id: u128) -> bool {
    &&& (id >> 76u128) & 0xfu128 == 4
    &&& (id >> 62u128) & 0x3u128 == 2
}

/// Relies on uuid::Uuid::new_v4 and Uuid::as_u128: a random identifier whose
/// version field is set to 4 and variant field to RFC 4122, read as its
/// 128-bit big-endian value.
#[verifier::external_body]
fn new_cell_id() -> (r: u128)
    ensures
        is_random_id(r),
{
    uuid::Uuid::new_v4().as_u128()
}

/// Where new cells start: the centre of the canvas.
pub open spec fn center(c: CanvasView) -> Point {
    Point { x: (c.width / 2) as i64, y: (c.height / 2) as i64 }
}

/// Spawning with identity `id`: refused on a shut-down canvas, and for an
/// identity already handed out; otherwise the cell joins the roster last.
pub open spec fn spawn_spec(c: CanvasView, id: u128) -> (CanvasView, Result<u128, SimError>) {
    if c.status == CanvasStatus::Shutdown {
        (c, Err(SimError::InvalidState))
    } else if c.issued.contains(id) {
        (c, Err(SimError::Allocation))
    } else {
        (CanvasView { cells: c.cells.push(id), issued: c.issued.push(id), ..c }, Ok(id))
    }
}

/// The state of a freshly spawned cell.
pub open spec fn spawned_cell(c: CanvasView, id: u128, name: Seq<char>, heading: Option<Heading>) -> CellView {
    CellView { id, name, position: center(c), heading, size: INIT_SIZE }
}

/// Activation: the first one starts the timer, a repeated one is a no-op,
/// and one after shutdown is refused.
pub open spec fn activate_spec(c: CanvasView) -> (CanvasView, Result<TimerCommand, SimError>) {
    match c.status {
        CanvasStatus::Inactive => (
            CanvasView { status: CanvasStatus::Active, ..c },
            Ok(TimerCommand::Start { period_ns: STD_INTERVAL_NS }),
        ),
        CanvasStatus::Active => (c, Ok(TimerCommand::Keep)),
        CanvasStatus::Shutdown => (c, Err(SimError::InvalidState)),
    }
}

/// How many timers an activation result starts.
pub open spec fn timers_started(r: Result<TimerCommand, SimError>) -> int {
    match r {
        Ok(TimerCommand::Start { .. }) => 1,
        _ => 0,
    }
}

/// The messages of one frame: one tick for each live cell, in roster order.
pub open spec fn fan_out_spec(c: CanvasView, tick: Tick) -> Seq<Delivery> {
    c.cells.map_values(|id: u128| Delivery { cell: id, message: CellTick { time_ns: tick.time_ns, delta_ns: FRAME_DELTA_NS } })
}

/// The cells whose flag is set, in their order.
pub open spec fn kept(cells: Seq<u128>, flags: Seq<bool>) -> Seq<u128>
    decreases cells.len(),
{
    if cells.len() == 0 {
        Seq::empty()
    } else {
        let k = kept(cells.drop_last(), flags.drop_last());
        if flags.last() {
            k.push(cells.last())
        } else {
            k
        }
    }
}

/// The retention sweep: only the cells whose delivery succeeded stay.
pub open spec fn sweep_spec(c: CanvasView, delivered: Seq<bool>) -> CanvasView {
    CanvasView { cells: kept(c.cells, delivered), ..c }
}

/// Handling what the pipeline answered to a forwarded snapshot: a closed
/// pipeline is reported the first time only, a full one each time.
pub open spec fn ingest_spec(c: CanvasView, sent: Result<(), SimError>) -> (CanvasView, Option<SimError>) {
    match sent {
        Ok(()) => (c, None),
        Err(SimError::SinkClosed) => (
            CanvasView { sink_reported: true, ..c },
            if c.sink_reported { None } else { Some(SimError::SinkClosed) },
        ),
        Err(e) => (c, Some(e)),
    }
}

/// Teardown: the canvas is shut down and drops every cell.
pub open spec fn shutdown_spec(c: CanvasView) -> CanvasView {
    CanvasView { status: CanvasStatus::Shutdown, cells: Seq::empty(), ..c }
}

/// The simulation aggregate: the coordinate space and the roster of its
/// live cells.
pub struct Canvas {
    width: i64,
    height: i64,
    status: CanvasStatus,
    cells: Vec<u128>,
    issued: Vec<u128>,
    sink_reported: bool,
}

impl View for Canvas {
    type V = CanvasView;

    closed spec fn view(&self) -> CanvasView {
        CanvasView {
            width: self.width,
            height: self.height,
            status: self.status,
            cells: self.cells@,
            issued: self.issued@,
            sink_reported: self.sink_reported,
        }
    }
}

/// Positive dimensions, no cell twice in the roster, no identity handed out
/// twice, and every live cell's identity among those handed out.
pub open spec fn canvas_wf(c: CanvasView) -> bool {
    &&& c.width > 0
    &&& c.height > 0
    &&& c.cells.no_duplicates()
    &&& c.issued.no_duplicates()
    &&& forall|x: u128| c.cells.contains(x) ==> c.issued.contains(x)
}

fn contains_id(v: &Vec<u128>, id: u128) -> (r: bool)
    ensures
        r == v@.contains(id),
{
    let mut i: usize = 0;
    while i < v.len()
        invariant
            i <= v@.len(),
            forall|j: int| 0 <= j < i ==> v@[j] != id,
        decreases v@.len() - i,
    {
        if v[i] == id {
            return true;
        }
        i += 1;
    }
    false
}

impl Canvas {
    pub open spec fn wf(&self) -> bool {
        canvas_wf(self@)
    }

    /// An inactive canvas of the given size, in position steps, with no cells.
    pub fn new(width: i64, height: i64) -> (r: Canvas)
        requires
            width > 0,
            height > 0,
        ensures
            r.wf(),
            r@ == (CanvasView {
                width,
                height,
                status: CanvasStatus::Inactive,
                cells: Seq::empty(),
                issued: Seq::empty(),
                sink_reported: false,
            }),
    {
        Canvas {
            width,
            height,
            status: CanvasStatus::Inactive,
            cells: Vec::new(),
            issued: Vec::new(),
            sink_reported: false,
        }
    }

    pub fn width(&self) -> (r: i64)
        ensures
            r == self@.width,
    {
        self.width
    }

    pub fn height(&self) -> (r: i64)
        ensures
            r == self@.height,
    {
        self.height
    }

    pub fn status(&self) -> (r: CanvasStatus)
        ensures
            r == self@.status,
    {
        self.status
    }

    /// The live cells, in order of insertion.
    pub fn cells(&self) -> (r: &Vec<u128>)
        ensures
            r@ == self@.cells,
    {
        &self.cells
    }

    /// Whether `id` is a live cell of this canvas.
    pub fn is_live(&self, id: u128) -> (r: bool)
        ensures
            r == self@.cells.contains(id),
    {
        contains_id(&self.cells, id)
    }

    /// Creates a cell with identity `id`; see `spawn_spec`. The new cell
    /// stands at the centre with the initial size and the given heading.
    pub fn spawn_with_id(&mut self, id: u128, name: String, heading: Option<Heading>) -> (r: Result<Cell, SimError>)
        requires
            old(self).wf(),
            heading_ok(heading),
        ensures
            final(self).wf(),
            (final(self)@, match r {
                Ok(cell) => Ok(cell@.id),
                Err(e) => Err(e),
            }) == spawn_spec(old(self)@, id),
            match r {
                Ok(cell) => cell.wf() && cell@ == spawned_cell(old(self)@, id, name@, heading),
                Err(_) => true,
            },
    {
        if self.status == CanvasStatus::Shutdown {
            return Err(SimError::InvalidState);
        }
        if contains_id(&self.issued, id) {
            return Err(SimError::Allocation);
        }
        let position = Point { x: self.width / 2, y: self.height / 2 };
        self.cells.push(id);
        self.issued.push(id);
        proof {
            let c = old(self)@;
            assert forall|x: u128| self@.cells.contains(x) implies self@.issued.contains(x) by {
                if x != id {
                    let k = choose|k: int| 0 <= k < self@.cells.len() && self@.cells[k] == x;
                    assert(c.cells[k] == x);
                    assert(c.cells.contains(x));
                    assert(c.issued.contains(x));
                    let j = choose|j: int| 0 <= j < c.issued.len() && c.issued[j] == x;
                    assert(self@.issued[j] == x);
                } else {
                    assert(self@.issued[c.issued.len() as int] == x);
                }
            }
            assert(!c.cells.contains(id));
        }
        Ok(Cell::new(id, name, position, heading, INIT_SIZE))
    }

    /// Creates a cell with a fresh random identity; see `spawn_with_id`.
    /// Refused on a shut-down canvas; otherwise it fails only where the
    /// drawn identity was handed out before, so it succeeds on a live canvas
    /// that has handed none out.
    pub fn spawn(&mut self, name: String, heading: Option<Heading>) -> (r: Result<Cell, SimError>)
        requires
            old(self).wf(),
            heading_ok(heading),
        ensures
            final(self).wf(),
            exists|id: u128|
                is_random_id(id) && #[trigger] spawn_spec(old(self)@, id) == (final(self)@, match r {
                    Ok(cell) => Ok(cell@.id),
                    Err(e) => Err(e),
                }),
            old(self)@.status != CanvasStatus::Shutdown && old(self)@.issued.len() == 0 ==> r is Ok,
            r is Ok ==> final(self)@.cells == old(self)@.cells.push(r->Ok_0@.id)
                && !old(self)@.cells.contains(r->Ok_0@.id),
            match r {
                Ok(cell) => {
                    &&& is_random_id(cell@.id)
                    &&& spawn_spec(old(self)@, cell@.id) == (final(self)@, Ok::<u128, SimError>(cell@.id))
                    &&& cell.wf()
                    &&& cell@ == spawned_cell(old(self)@, cell@.id, name@, heading)
                },
                Err(e) => {
                    &&& final(self)@ == old(self)@
                    &&& (e == SimError::InvalidState) == (old(self)@.status == CanvasStatus::Shutdown)
                    &&& (e == SimError::InvalidState || e == SimError::Allocation)
                },
            },
    {
        let id = new_cell_id();
        let r = self.spawn_with_id(id, name, heading);
        proof {
            if old(self)@.issued.len() == 0 {
                assert(!old(self)@.issued.contains(id));
            }
            if r is Ok {
                assert(!old(self)@.issued.contains(id));
                assert(!old(self)@.cells.contains(id));
            }
        }
        r
    }

    /// Handles an activation request; see `activate_spec`.
    pub fn activate(&mut self) -> (r: Result<TimerCommand, SimError>)
        requires
            old(self).wf(),
        ensures
            final(self).wf(),
            (final(self)@, r) == activate_spec(old(self)@),
    {
        match self.status {
            CanvasStatus::Inactive => {
                self.status = CanvasStatus::Active;
                Ok(TimerCommand::Start { period_ns: STD_INTERVAL_NS })
            },
            CanvasStatus::Active => Ok(TimerCommand::Keep),
            CanvasStatus::Shutdown => Err(SimError::InvalidState),
        }
    }

    /// The messages of one frame: one `CellTick` of the nominal frame length
    /// for each live cell, in roster order.
    pub fn fan_out(&self, tick: Tick) -> (r: Vec<Delivery>)
        ensures
            r@ == fan_out_spec(self@, tick),
    {
        let mut out: Vec<Delivery> = Vec::new();
        let mut i: usize = 0;
        while i < self.cells.len()
            invariant
                i <= self@.cells.len(),
                out@ == fan_out_spec(self@, tick).subrange(0, i as int),
            decreases self@.cells.len() - i,
        {
            out.push(Delivery { cell: self.cells[i], message: CellTick { time_ns: tick.time_ns, delta_ns: FRAME_DELTA_NS } });
            i += 1;
            proof {
                assert(out@ =~= fan_out_spec(self@, tick).subrange(0, i as int));
            }
        }
        proof {
            assert(out@ =~= fan_out_spec(self@, tick));
        }
        out
    }

    /// The retention sweep after a fan-out: `delivered[i]` says whether the
    /// tick reached the `i`-th live cell and its address is still connected.
    pub fn sweep(&mut self, delivered: &Vec<bool>)
        requires
            old(self).wf(),
            delivered@.len() == old(self)@.cells.len(),
        ensures
            final(self).wf(),
            final(self)@ == sweep_spec(old(self)@, delivered@),
    {
        let ghost before = self.cells@;
        let mut out: Vec<u128> = Vec::new();
        let mut i: usize = 0;
        while i < self.cells.len()
            invariant
                self.cells@ == before,
                delivered@.len() == before.len(),
                i <= before.len(),
                out@ == kept(before.subrange(0, i as int), delivered@.subrange(0, i as int)),
            decreases before.len() - i,
        {
            proof {
                assert(before.subrange(0, i + 1).drop_last() =~= before.subrange(0, i as int));
                assert(delivered@.subrange(0, i + 1).drop_last() =~= delivered@.subrange(0, i as int));
            }
            if delivered[i] {
                out.push(self.cells[i]);
            }
            i += 1;
        }
        proof {
            assert(before.subrange(0, before.len() as int) =~= before);
            assert(delivered@.subrange(0, before.len() as int) =~= delivered@);
            lemma_kept(before, delivered@);
        }
        self.cells = out;
    }

    /// Forwards a snapshot to the render pipeline and says what to report:
    /// a closed pipeline the first time, a full one each time.
    pub fn ingest_snapshot(&mut self, info: CellInfo, pipeline: &mut RenderPipeline) -> (r: Option<SimError>)
        requires
            old(self).wf(),
            old(pipeline).wf(),
        ensures
            final(self).wf(),
            final(pipeline).wf(),
            final(pipeline)@ == send_spec(old(pipeline)@, info).0,
            (final(self)@, r) == ingest_spec(old(self)@, send_spec(old(pipeline)@, info).1),
    {
        let sent = pipeline.send(info);
        match sent {
            Ok(()) => None,
            Err(SimError::SinkClosed) => {
                let first = !self.sink_reported;
                self.sink_reported = true;
                if first {
                    Some(SimError::SinkClosed)
                } else {
                    None
                }
            },
            Err(e) => Some(e),
        }
    }

    /// Tears the canvas down: it drops every cell and closes the pipeline.
    pub fn shutdown(&mut self, pipeline: &mut RenderPipeline)
        requires
            old(self).wf(),
            old(pipeline).wf(),
        ensures
            final(self).wf(),
            final(self)@ == shutdown_spec(old(self)@),
            final(pipeline).wf(),
            final(pipeline)@ == (PipelineView { open: false, ..old(pipeline)@ }),
    {
        self.status = CanvasStatus::Shutdown;
        self.cells = Vec::new();
        pipeline.close();
        proof {
            assert(self@.cells =~= Seq::<u128>::empty());
        }
    }
}

/// What the sweep keeps: only cells of the roster, every cell whose flag is
/// set, never a cell twice, and never more than there were.
pub proof fn lemma_kept(cells: Seq<u128>, flags: Seq<bool>)
    requires
        flags.len() == cells.len(),
    ensures
        forall|x: u128| #[trigger] kept(cells, flags).contains(x) ==> cells.contains(x),
        forall|i: int| 0 <= i < cells.len() && flags[i] ==> kept(cells, flags).contains(#[trigger] cells[i]),
        cells.no_duplicates() ==> kept(cells, flags).no_duplicates(),
        kept(cells, flags).len() <= cells.len(),
    decreases cells.len(),
{
    if cells.len() > 0 {
        let rest = cells.drop_last();
        let rflags = flags.drop_last();
        lemma_kept(rest, rflags);
        let k = kept(rest, rflags);
        let kc = kept(cells, flags);
        assert(kc == if flags.last() { k.push(cells.last()) } else { k });
        assert forall|x: u128| kc.contains(x) implies cells.contains(x) by {
            let j = choose|j: int| 0 <= j < kc.len() && kc[j] == x;
            if j < k.len() {
                assert(k[j] == x);
                assert(k.contains(x));
                let i = choose|i: int| 0 <= i < rest.len() && rest[i] == x;
                assert(cells[i] == x);
            } else {
                assert(cells[cells.len() - 1] == x);
            }
        }
        assert forall|i: int| 0 <= i < cells.len() && flags[i] implies kept(cells, flags).contains(cells[i]) by {
            if i < cells.len() - 1 {
                assert(rest[i] == cells[i]);
                assert(rflags[i] == flags[i]);
                let j = choose|j: int| 0 <= j < k.len() && k[j] == cells[i];
                if flags.last() {
                    assert(kept(cells, flags)[j] == cells[i]);
                }
            } else {
                assert(kept(cells, flags)[k.len() as int] == cells[i]);
            }
        }
        if cells.no_duplicates() {
            assert(rest.no_duplicates()) by {
                assert forall|a: int, b: int| 0 <= a < b < rest.len() implies rest[a] != rest[b] by {
                    assert(rest[a] == cells[a] && rest[b] == cells[b]);
                }
            }
            if flags.last() {
                assert(!k.contains(cells.last())) by {
                    if k.contains(cells.last()) {
                        let j = choose|j: int| 0 <= j < rest.len() && rest[j] == cells.last();
                        assert(cells[j] == cells[cells.len() - 1]);
                    }
                }
                let kk = k.push(cells.last());
                assert forall|a: int, b: int| 0 <= a < b < kk.len() implies kk[a] != kk[b] by {
                    if b == kk.len() - 1 {
                        assert(k.contains(kk[a]));
                    }
                }
            }
        }
    }
}

/// One tick per live cell: every message of a frame's fan-out goes to a live
/// cell, each live cell gets exactly one, and no two go to the same cell.
pub proof fn lemma_fan_out_once(c: CanvasView, tick: Tick)
    requires
        canvas_wf(c),
    ensures
        fan_out_spec(c, tick).len() == c.cells.len(),
        forall|i: int| 0 <= i < c.cells.len() ==> #[trigger] fan_out_spec(c, tick)[i].cell == c.cells[i],
        forall|i: int, j: int|
            0 <= i < j < c.cells.len() ==> fan_out_spec(c, tick)[i].cell != fan_out_spec(c, tick)[j].cell,
{
}

/// The roster grows only by spawning, and shrinks only by the sweep (a cell
/// whose delivery succeeded stays) or by shutdown. Activation and forwarding
/// a snapshot leave it as it was.
pub proof fn lemma_roster_changes(c: CanvasView, id: u128, delivered: Seq<bool>, sent: Result<(), SimError>)
    requires
        canvas_wf(c),
        delivered.len() == c.cells.len(),
    ensures
        spawn_spec(c, id).1 is Ok ==> spawn_spec(c, id).0.cells == c.cells.push(id) && !c.cells.contains(id),
        spawn_spec(c, id).1 is Err ==> spawn_spec(c, id).0 == c,
        forall|x: u128| #[trigger] sweep_spec(c, delivered).cells.contains(x) ==> c.cells.contains(x),
        forall|i: int|
            0 <= i < c.cells.len() && delivered[i] ==> sweep_spec(c, delivered).cells.contains(#[trigger] c.cells[i]),
        shutdown_spec(c).cells.len() == 0,
        activate_spec(c).0.cells == c.cells,
        ingest_spec(c, sent).0.cells == c.cells,
{
    lemma_kept(c.cells, delivered);
}

/// A closed render pipeline leaves the roster as it was.
pub proof fn lemma_sink_closed_keeps_roster(c: CanvasView)
    ensures
        ingest_spec(c, Err(SimError::SinkClosed)).0.cells == c.cells,
{
}

/// A second activation changes nothing and starts no second timer.
pub proof fn lemma_activate_idempotent(c: CanvasView)
    ensures
        activate_spec(activate_spec(c).0).0 == activate_spec(c).0,
        timers_started(activate_spec(c).1) + timers_started(activate_spec(activate_spec(c).0).1)
            == timers_started(activate_spec(c).1),
{
}

/// Spawned identities are fresh: one spawn after another never returns an
/// identity handed out before, the first spawn's included.
pub proof fn lemma_spawned_ids_fresh(c: CanvasView, id1: u128, id2: u128)
    requires
        spawn_spec(c, id1).1 is Ok,
        spawn_spec(spawn_spec(c, id1).0, id2).1 is Ok,
    ensures
        spawn_spec(spawn_spec(c, id1).0, id2).1 == Ok::<u128, SimError>(id2),
        id2 != id1,
        !c.issued.contains(id2),
        !c.issued.contains(id1),
{
    let c1 = spawn_spec(c, id1).0;
    assert(c1.issued[c.issued.len() as int] == id1);
    if c.issued.contains(id2) {
        let j = choose|j: int| 0 <= j < c.issued.len() && c.issued[j] == id2;
        assert(c1.issued[j] == id2);
    }
}

/// Handed-out identities are never forgotten: every operation keeps them.
pub proof fn lemma_issued_kept(c: CanvasView, id: u128, delivered: Seq<bool>, sent: Result<(), SimError>)
    ensures
        spawn_spec(c, id).0.issued.subrange(0, c.issued.len() as int) == c.issued,
        activate_spec(c).0.issued == c.issued,
        sweep_spec(c, delivered).issued == c.issued,
        ingest_spec(c, sent).0.issued == c.issued,
        shutdown_spec(c).issued == c.issued,
{
    assert(c.issued.push(id).subrange(0, c.issued.len() as int) =~= c.issued);
}

/// A canvas without cells: the frame sends nothing and the sweep changes
/// nothing.
pub proof fn lemma_empty_tick(c: CanvasView, tick: Tick)
    requires
        c.cells.len() == 0,
    ensures
        fan_out_spec(c, tick).len() == 0,
        sweep_spec(c, Seq::empty()) == c,
{
    assert(kept(c.cells, Seq::empty()) =~= c.cells);
}

/// The identities of the cells that a frame reaches, given which deliveries
/// of its fan-out were consumed.
pub open spec fn frame_reached(c: CanvasView, tick: Tick, consumed: Seq<bool>) -> Seq<u128> {
    kept(fan_out_spec(c, tick).map_values(|d: Delivery| d.cell), consumed)
}

/// At most one snapshot per cell between two fan-outs: a cell yields one
/// snapshot per consumed tick (see `Cell::tick`), and whichever deliveries of
/// a frame are consumed, no cell is reached twice, and every cell reached is
/// live.
pub proof fn lemma_one_snapshot_per_frame(c: CanvasView, tick: Tick, consumed: Seq<bool>)
    requires
        canvas_wf(c),
        consumed.len() == c.cells.len(),
    ensures
        frame_reached(c, tick, consumed).no_duplicates(),
        forall|u: u128| #[trigger] frame_reached(c, tick, consumed).contains(u) ==> c.cells.contains(u),
{
    let ids = fan_out_spec(c, tick).map_values(|d: Delivery| d.cell);
    assert(ids =~= c.cells);
    lemma_kept(ids, consumed);
}

} // verus!
