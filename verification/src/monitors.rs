//! What the configuration window is told about the connected monitors.

use vstd::prelude::*;
use crate::text::{decimal, usize_to_decimal};

verus! {

/// Where a monitor sits and how large it is, in physical pixels.
#[derive(Clone, Copy, Debug, PartialEq, Eq, Structural)]
pub struct MonitorGeometry {
    pub x: i32,
    pub y: i32,
    pub width: u32,
    pub height: u32,
}

/// The top-left corner of a monitor, in physical pixels.
#[derive(Clone, Copy, Debug, PartialEq, Eq, Structural)]
pub struct MonitorPosition {
    pub x: i32,
    pub y: i32,
}

/// The width and height of a monitor, in physical pixels.
#[derive(Clone, Copy, Debug, PartialEq, Eq, Structural)]
pub struct MonitorSize {
    pub width: u32,
    pub height: u32,
}

/// A monitor as the configuration window lists it: its 1-based number as
/// the id, its position and its size.
#[derive(Clone, Debug)]
pub struct MonitorInfo {
    pub id: String,
    pub position: MonitorPosition,
    pub size: MonitorSize,
}

/// The listing of `monitors`, in order, numbered from 1.
pub fn current_monitors(monitors: &[MonitorGeometry]) -> (out: Vec<MonitorInfo>)
    ensures
        out@.len() == monitors@.len(),
        forall|i: int|
            0 <= i < monitors@.len() ==> {
                &&& (#[trigger] out@[i]).id@ == decimal((i + 1) as nat)
                &&& out@[i].position == MonitorPosition { x: monitors@[i].x, y: monitors@[i].y }
                &&& out@[i].size == MonitorSize {
                    width: monitors@[i].width,
                    height: monitors@[i].height,
                }
            },
{
    let mut out: Vec<MonitorInfo> = Vec::new();
    for i in 0..monitors.len()
        invariant
            out@.len() == i,
            forall|j: int|
                0 <= j < i ==> {
                    &&& (#[trigger] out@[j]).id@ == decimal((j + 1) as nat)
                    &&& out@[j].position == MonitorPosition { x: monitors@[j].x, y: monitors@[j].y }
                    &&& out@[j].size == MonitorSize {
                        width: monitors@[j].width,
                        height: monitors@[j].height,
                    }
                },
    {
        let m = monitors[i];
        out.push(
            MonitorInfo {
                id: usize_to_decimal(i + 1),
                position: MonitorPosition { x: m.x, y: m.y },
                size: MonitorSize { width: m.width, height: m.height },
            },
        );
    }
    out
}

} // verus!
