//! The widget that draws nothing.

use vstd::prelude::*;
use crate::widget::Widget;

verus! {

/// Takes no room and draws nothing.
pub struct Empty {}

impl Empty {
    pub fn new() -> Empty {
        Empty {  }
    }
}

impl Default for Empty {
    fn default() -> Empty {
        Empty::new()
    }
}

impl<C> Widget<C> for Empty {

}

} // verus!
