//! Markers of the drags in the YouTube preview: the volume slider and the seek bar.
use vstd::prelude::*;

verus! {

/// The payload of a drag on the preview's volume slider.
#[derive(Clone, Copy, Debug, PartialEq, Eq, Structural)]
pub struct PreviewVolumeDrag;

/// The payload of a drag on the preview's seek bar.
#[derive(Clone, Copy, Debug, PartialEq, Eq, Structural)]
pub struct PreviewSeekDrag;

} // verus!
