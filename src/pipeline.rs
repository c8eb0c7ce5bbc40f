use vstd::prelude::*;

use crate::error::SimError;
use crate::motion::CellInfo;

verus! {

broadcast use vstd::seq_lib::group_filter_ensures;

/// The state of a render pipeline: the snapshots waiting for the renderer, in
/// the order they were sent, the most it may hold, and whether the renderer's
/// end is still there.
pub struct PipelineView {
    pub queue: Seq<CellInfo>,
    pub capacity: nat,
    pub open: bool,
}

/// What sending `info` does to a pipeline, and what it answers: a closed
/// pipeline and a full one drop the snapshot, an open one with room queues
/// it last.
pub open spec fn send_spec(p: PipelineView, info: CellInfo) -> (PipelineView, Result<(), SimError>) {
    if !p.open {
        (p, Err(SimError::SinkClosed))
    } else if p.queue.len() >= p.capacity {
        (p, Err(SimError::SinkFull))
    } else {
        (PipelineView { queue: p.queue.push(info), ..p }, Ok(()))
    }
}

/// A one-way bounded conduit of snapshots from the simulation to the renderer.
/// It never blocks: a send that finds it closed or full is dropped.
pub struct RenderPipeline {
    queue: Vec<CellInfo>,
    capacity: usize,
    open: bool,
}

impl View for RenderPipeline {
    type V = PipelineView;

    closed spec fn view(&self) -> PipelineView {
        PipelineView { queue: self.queue@, capacity: self.capacity as nat, open: self.open }
    }
}

impl RenderPipeline {
    pub open spec fn wf(&self) -> bool {
        self@.queue.len() <= self@.capacity
    }

    /// An open, empty pipeline that holds at most `capacity` snapshots.
    pub fn new(capacity: usize) -> (r: RenderPipeline)
        ensures
            r.wf(),
            r@ == (PipelineView { queue: Seq::empty(), capacity: capacity as nat, open: true }),
    {
        RenderPipeline { queue: Vec::new(), capacity, open: true }
    }

    /// Offers one snapshot; see `send_spec`.
    pub fn send(&mut self, info: CellInfo) -> (r: Result<(), SimError>)
        requires
            old(self).wf(),
        ensures
            final(self).wf(),
            (final(self)@, r) == send_spec(old(self)@, info),
    {
        if !self.open {
            Err(SimError::SinkClosed)
        } else if self.queue.len() >= self.capacity {
            Err(SimError::SinkFull)
        } else {
            self.queue.push(info);
            Ok(())
        }
    }

    /// Hands every waiting snapshot to the renderer, oldest first.
    pub fn drain(&mut self) -> (r: Vec<CellInfo>)
        requires
            old(self).wf(),
        ensures
            final(self).wf(),
            r@ == old(self)@.queue,
            final(self)@ == (PipelineView { queue: Seq::empty(), ..old(self)@ }),
    {
        let mut out: Vec<CellInfo> = Vec::new();
        std::mem::swap(&mut out, &mut self.queue);
        out
    }

    /// The renderer's end is gone: later sends are dropped.
    pub fn close(&mut self)
        requires
            old(self).wf(),
        ensures
            final(self).wf(),
            final(self)@ == (PipelineView { open: false, ..old(self)@ }),
    {
        self.open = false;
    }

    pub fn is_open(&self) -> (r: bool)
        ensures
            r == self@.open,
    {
        self.open
    }

    pub fn len(&self) -> (r: usize)
        ensures
            r == self@.queue.len(),
    {
        self.queue.len()
    }
}

/// The projection after one snapshot: every earlier entry of the same cell
/// removed, the snapshot last.
pub open spec fn fold_snapshot(cells: Seq<CellInfo>, info: CellInfo) -> Seq<CellInfo> {
    cells.filter(other_than(info.id)).push(info)
}

/// Holds of the snapshots of every cell but `id`.
pub open spec fn other_than(id: u128) -> spec_fn(CellInfo) -> bool {
    |c: CellInfo| c.id != id
}

/// The projection after a run of snapshots, folded in order.
pub open spec fn fold_all(cells: Seq<CellInfo>, snaps: Seq<CellInfo>) -> Seq<CellInfo>
    decreases snaps.len(),
{
    if snaps.len() == 0 {
        cells
    } else {
        fold_snapshot(fold_all(cells, snaps.drop_last()), snaps.last())
    }
}

/// No identity appears twice.
pub open spec fn ids_unique(cells: Seq<CellInfo>) -> bool {
    forall|i: int, j: int| 0 <= i < j < cells.len() ==> cells[i].id != cells[j].id
}

/// The renderer's view of the canvas: the latest snapshot of each cell that
/// has reported, keyed by identity.
pub struct CanvasState {
    pub width: i64,
    pub height: i64,
    pub cells: Vec<CellInfo>,
}

impl CanvasState {
    /// An empty projection of a canvas of the given size.
    pub fn new(width: i64, height: i64) -> (r: CanvasState)
        ensures
            r.width == width,
            r.height == height,
            r.cells@ == Seq::<CellInfo>::empty(),
    {
        CanvasState { width, height, cells: Vec::new() }
    }

    /// Folds one snapshot in: it replaces the entry of the same identity, or
    /// is added where there is none.
    pub fn cell(&mut self, cell: &CellInfo)
        ensures
            final(self).cells@ == fold_snapshot(old(self).cells@, *cell),
            final(self).width == old(self).width,
            final(self).height == old(self).height,
            ids_unique(old(self).cells@) ==> ids_unique(final(self).cells@),
    {
        let ghost pred = other_than(cell.id);
        let ghost before = self.cells@;
        let mut kept: Vec<CellInfo> = Vec::new();
        let mut i: usize = 0;
        while i < self.cells.len()
            invariant
                self.cells@ == before,
                pred == other_than(cell.id),
                i <= before.len(),
                kept@ == before.subrange(0, i as int).filter(pred),
            decreases before.len() - i,
        {
            let c = self.cells[i];
            proof {
                reveal(Seq::filter);
                assert(before.subrange(0, i + 1).drop_last() =~= before.subrange(0, i as int));
                assert(before.subrange(0, i + 1).last() == c);
                assert(before.subrange(0, i + 1).filter(pred) == if pred(c) {
                    before.subrange(0, i as int).filter(pred).push(c)
                } else {
                    before.subrange(0, i as int).filter(pred)
                });
            }
            if c.id != cell.id {
                kept.push(c);
            }
            i += 1;
        }
        proof {
            assert(before.subrange(0, before.len() as int) =~= before);
        }
        kept.push(*cell);
        self.cells = kept;
        proof {
            if ids_unique(before) {
                lemma_fold_keeps_unique(before, *cell);
            }
        }
    }

    /// Folds a run of snapshots in, in order.
    pub fn ingest_all(&mut self, snaps: &Vec<CellInfo>)
        ensures
            final(self).cells@ == fold_all(old(self).cells@, snaps@),
            final(self).width == old(self).width,
            final(self).height == old(self).height,
            ids_unique(old(self).cells@) ==> ids_unique(final(self).cells@),
    {
        let mut i: usize = 0;
        while i < snaps.len()
            invariant
                i <= snaps@.len(),
                self.cells@ == fold_all(old(self).cells@, snaps@.subrange(0, i as int)),
                self.width == old(self).width,
                self.height == old(self).height,
                ids_unique(old(self).cells@) ==> ids_unique(self.cells@),
            decreases snaps@.len() - i,
        {
            proof {
                assert(snaps@.subrange(0, i + 1).drop_last() =~= snaps@.subrange(0, i as int));
            }
            self.cell(&snaps[i]);
            i += 1;
        }
        proof {
            assert(snaps@.subrange(0, snaps@.len() as int) =~= snaps@);
        }
    }
}

/// Folding keeps identities unique.
pub proof fn lemma_fold_keeps_unique(cells: Seq<CellInfo>, info: CellInfo)
    requires
        ids_unique(cells),
    ensures
        ids_unique(fold_snapshot(cells, info)),
{
    let pred = other_than(info.id);
    let f = cells.filter(pred);
    assert forall|i: int, j: int| 0 <= i < j < f.len() implies f[i].id != f[j].id by {
        lemma_filter_unique(cells, pred);
    }
    let r = fold_snapshot(cells, info);
    assert forall|i: int, j: int| 0 <= i < j < r.len() implies r[i].id != r[j].id by {
        if j == r.len() - 1 {
            assert(pred(f[i]));
        }
    }
}

/// Filtering keeps identities unique.
pub proof fn lemma_filter_unique(cells: Seq<CellInfo>, pred: spec_fn(CellInfo) -> bool)
    requires
        ids_unique(cells),
    ensures
        ids_unique(cells.filter(pred)),
    decreases cells.len(),
{
    reveal(Seq::filter);
    if cells.len() > 0 {
        let rest = cells.drop_last();
        lemma_filter_unique(rest, pred);
        let f = rest.filter(pred);
        assert forall|i: int| 0 <= i < f.len() implies f[i].id != cells.last().id by {
            assert(f.contains(f[i]));
            rest.lemma_filter_contains_rev(pred, f[i]);
        }
    }
}

/// Replaying a snapshot leaves the projection as one fold of it left it.
pub proof fn lemma_fold_idempotent(cells: Seq<CellInfo>, info: CellInfo)
    ensures
        fold_snapshot(fold_snapshot(cells, info), info) == fold_snapshot(cells, info),
{
    let pred = other_than(info.id);
    let f = cells.filter(pred);
    assert(f.push(info).drop_last() =~= f);
    reveal(Seq::filter);
    assert(!pred(info));
    assert(f.push(info).last() == info);
    assert forall|i: int| 0 <= i < f.len() implies pred(#[trigger] f[i]) by {
        assert(f.contains(f[i]));
    }
    lemma_filter_all(f, pred);
    assert(f.push(info).filter(pred) == f.filter(pred));
}

/// A sequence whose elements all pass the predicate is its own filter.
proof fn lemma_filter_all(s: Seq<CellInfo>, pred: spec_fn(CellInfo) -> bool)
    requires
        forall|i: int| 0 <= i < s.len() ==> pred(#[trigger] s[i]),
    ensures
        s.filter(pred) == s,
    decreases s.len(),
{
    reveal(Seq::filter);
    if s.len() > 0 {
        let rest = s.drop_last();
        assert forall|i: int| 0 <= i < rest.len() implies pred(#[trigger] rest[i]) by {
            assert(rest[i] == s[i]);
        }
        assert(pred(s[s.len() - 1]));
        lemma_filter_all(rest, pred);
        assert(s.drop_last().push(s.last()) =~= s);
    } else {
        assert(s.filter(pred) =~= s);
    }
}

} // verus!
