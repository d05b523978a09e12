use vstd::prelude::*;

use crate::text::decimal;
use crate::text::spec_decimal;
use vstd::string::StringExecFns;

verus! {

/// Pixel dimensions of a region: a pair of non-negative extents.
#[derive(Eq, PartialEq, Structural, Debug, Copy, Clone)]
pub struct Size {
    pub width: u32,
    pub height: u32,
}

impl Size {
    pub fn new(width: u32, height: u32) -> (r: Self)
        ensures
            r == (Size { width, height }),
    {
        Self { width, height }
    }

    /// The size rendered for people.
    pub open spec fn spec_message(self) -> Seq<char> {
        "Size: width = "@ + spec_decimal(self.width as int) + ", height = "@ + spec_decimal(
            self.height as int,
        )
    }

    pub fn message(&self) -> (r: String)
        ensures
            r@ == self.spec_message(),
    {
        let mut s = "Size: width = ".to_owned();
        s.append(decimal(self.width as i64).as_str());
        s.append(", height = ");
        s.append(decimal(self.height as i64).as_str());
        s
    }
}

impl Default for Size {
    fn default() -> (r: Self)
        ensures
            r == (Size { width: 0, height: 0 }),
    {
        Self { width: 0, height: 0 }
    }
}

} // verus!
