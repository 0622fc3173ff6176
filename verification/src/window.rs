//! The round and epoch that the pool tracks at a given moment of the chain.
//!
//! The ledger opens the next round before the epoch rolls over. From that
//! layer on the pool follows the next round and epoch as well, or it would
//! miss the short time in which the new registrations can be asked for.

use vstd::prelude::*;
use crate::decimal::{decimal_text, format_decimal};
use crate::rpc::{EpochInfo, LayerInfo, RpcError};
use vstd::string::StringExecFns;

verus! {

/// The number of layers in one epoch.
pub const LAYERS_PER_EPOCH: i64 = 4032;

/// How many layers into an epoch the next round opens.
pub const ROUND_OPEN_OFFSET: i64 = 2880;

/// What is tracked: always the running round and epoch, and the next ones once
/// the boundary has been crossed.
#[derive(Debug, PartialEq)]
pub struct WindowView {
    pub current_round: String,
    pub current_epoch_for_activation: i64,
    pub next_round: Option<String>,
    pub next_epoch: Option<i64>,
}

/// A window as contracts speak of it.
pub struct Window {
    pub current_round: Seq<char>,
    pub current_epoch_for_activation: i64,
    pub next_round: Option<Seq<char>>,
    pub next_epoch: Option<i64>,
}

impl View for WindowView {
    type V = Window;

    open spec fn view(&self) -> Window {
        Window {
            current_round: self.current_round@,
            current_epoch_for_activation: self.current_epoch_for_activation,
            next_round: match self.next_round {
                Some(round) => Some(round@),
                None => None,
            },
            next_epoch: self.next_epoch,
        }
    }
}

/// A round is named by its number written in decimal.
pub open spec fn round_label(round: int) -> Seq<char> {
    decimal_text(round)
}

/// Whether, at `layer` of `epoch`, the next round is open.
pub open spec fn boundary_crossed(epoch: int, layer: int) -> bool {
    layer >= epoch * LAYERS_PER_EPOCH + ROUND_OPEN_OFFSET
}

/// The window at `layer` of `epoch`. The running round and the epoch whose
/// activations count are both the one before `epoch`.
pub open spec fn window_at(epoch: i64, layer: i64) -> Window {
    Window {
        current_round: round_label(epoch - 1),
        current_epoch_for_activation: (epoch - 1) as i64,
        next_round: if boundary_crossed(epoch as int, layer as int) {
            Some(round_label(epoch as int))
        } else {
            None
        },
        next_epoch: if boundary_crossed(epoch as int, layer as int) {
            Some(epoch)
        } else {
            None
        },
    }
}

impl WindowView {
    /// Whether the next round and epoch are tracked.
    pub fn crossed(&self) -> (yes: bool)
        ensures
            yes == (self.next_round is Some),
    {
        self.next_round.is_some()
    }
}

/// Computes the window from the epoch and layer that the node reported.
pub fn compute_window(epoch: i64, layer: i64) -> (window: WindowView)
    requires
        epoch > i64::MIN,
    ensures
        window@ == window_at(epoch, layer),
        window.next_round is Some <==> boundary_crossed(epoch as int, layer as int),
{
    let per_epoch: i128 = LAYERS_PER_EPOCH as i128;
    let offset: i128 = ROUND_OPEN_OFFSET as i128;
    assert(-0x8000_0000_0000_0000 * 4032 <= epoch * per_epoch <= 0x7fff_ffff_ffff_ffff * 4032)
        by (nonlinear_arith)
        requires
            per_epoch == 4032,
            -0x8000_0000_0000_0000 <= epoch <= 0x7fff_ffff_ffff_ffff,
    ;
    let opens: i128 = (epoch as i128) * per_epoch + offset;
    let crossed: bool = (layer as i128) >= opens;
    let current_round: String = format_decimal(epoch - 1);
    if crossed {
        WindowView {
            current_round,
            current_epoch_for_activation: epoch - 1,
            next_round: Some(format_decimal(epoch)),
            next_epoch: Some(epoch),
        }
    } else {
        WindowView {
            current_round,
            current_epoch_for_activation: epoch - 1,
            next_round: None,
            next_epoch: None,
        }
    }
}

/// Whether a clock reading can be used: both questions were answered, and the
/// epoch has a predecessor.
pub open spec fn clock_usable(
    epoch: Result<EpochInfo, RpcError>,
    layer: Result<LayerInfo, RpcError>,
) -> bool {
    &&& epoch matches Ok(e)
    &&& layer is Ok
    &&& e.epochnum.number > i64::MIN
}

/// Turns the two answers of the node into a window. A failed question fails
/// the reading with that failure, the epoch's first; an epoch without a
/// predecessor fails it as unreadable.
pub fn read_window(epoch: Result<EpochInfo, RpcError>, layer: Result<LayerInfo, RpcError>) -> (reading:
    Result<WindowView, RpcError>)
    ensures
        reading is Ok <==> clock_usable(epoch, layer),
        epoch is Ok && layer is Ok && !clock_usable(epoch, layer) ==> reading->Err_0@
            == "epoch out of range"@,
        reading matches Ok(window) ==> window@ == window_at(
            epoch->Ok_0.epochnum.number,
            layer->Ok_0.layernum.number,
        ),
        epoch matches Err(e) ==> reading == Err::<WindowView, RpcError>(e),
        epoch is Ok ==> (layer matches Err(e) ==> reading == Err::<WindowView, RpcError>(e)),
{
    match epoch {
        Err(e) => Err(e),
        Ok(epoch_info) => match layer {
            Err(e) => Err(e),
            Ok(layer_info) => {
                if epoch_info.epochnum.number > i64::MIN {
                    Ok(compute_window(epoch_info.epochnum.number, layer_info.layernum.number))
                } else {
                    Err(RpcError { message: String::from_str("epoch out of range") })
                }
            },
        },
    }
}

} // verus!
