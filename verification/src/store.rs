//! The saved form of a curve.

use vstd::prelude::*;

use crate::app::CurveModel;

verus! {

/// A curve as it is written to the session file. Saving writes a curve's
/// premultiplied RGBA array as it is; bringing a curve back reads the array
/// as straight RGBA and premultiplies it.
#[derive(Debug, Clone)]
pub struct StoredCurve {
    pub name: String,
    pub expr: String,
    pub color: [u8; 4],
    pub visible: bool,
}

impl View for StoredCurve {
    type V = CurveModel;

    open spec fn view(&self) -> CurveModel {
        CurveModel { name: self.name@, expr: self.expr@, color: self.color@, visible: self.visible }
    }
}

} // verus!
