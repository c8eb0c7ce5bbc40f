use vstd::prelude::*;

verus! {

/// The kinds of failure that the simulation reports.
#[derive(Clone, Copy, Debug, PartialEq, Eq, Structural)]
pub enum SimError {
    /// A cell's mailbox refused a tick; the cell leaves the roster.
    DeliveryDropped,
    /// The consumer end of the render pipeline is gone.
    SinkClosed,
    /// The render pipeline holds as many snapshots as it may.
    SinkFull,
    /// The operation does not fit the canvas's lifecycle state.
    InvalidState,
    /// No fresh cell identity could be obtained.
    Allocation,
    /// A heading that is not a finite number, or a position that leaves the
    /// representable range.
    NumericDomain,
}

} // verus!
