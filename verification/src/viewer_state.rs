//! Which node types the viewport can edit in place (a viewer state), and
//! under what name.

use vstd::prelude::*;
use crate::text::{ascii_lowercase, lower_eq};

verus! {

/// An editable source a viewer state drives.
#[derive(Clone, Copy, Debug, PartialEq, Eq, Structural)]
pub enum ViewerSource {
    /// A curve's stored control points.
    CurvePoints,
    /// A soft transform's centre and derived translation handle.
    SoftTransform,
}

/// The viewer state's source for a lower-case node type.
pub open spec fn source_of_type(t: Seq<char>) -> Option<ViewerSource> {
    if t == "curve"@ {
        Some(ViewerSource::CurvePoints)
    } else if t == "soft_transform"@ {
        Some(ViewerSource::SoftTransform)
    } else {
        None
    }
}

/// The source a node type enters a viewer state with, if it has one (ASCII
/// case ignored, like every other node lookup).
pub fn source_for(node_type: &str) -> (s: Option<ViewerSource>)
    ensures
        s == source_of_type(ascii_lowercase(node_type@)),
{
    if lower_eq(node_type, "curve") {
        Some(ViewerSource::CurvePoints)
    } else if lower_eq(node_type, "soft_transform") {
        Some(ViewerSource::SoftTransform)
    } else {
        None
    }
}

/// The name a source shows.
pub open spec fn source_name(s: ViewerSource) -> Seq<char> {
    match s {
        ViewerSource::CurvePoints => "Curve Points"@,
        ViewerSource::SoftTransform => "Soft Transform"@,
    }
}

impl ViewerSource {
    /// The name the source shows.
    pub fn name(&self) -> (n: &'static str)
        ensures
            n@ == source_name(*self),
    {
        match self {
            ViewerSource::CurvePoints => "Curve Points",
            ViewerSource::SoftTransform => "Soft Transform",
        }
    }
}

} // verus!
