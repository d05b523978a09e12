use vstd::prelude::*;

use crate::pos::Pos;
use crate::size::Size;
use crate::text::decimal;
use crate::text::spec_decimal;
use vstd::math::max;
use vstd::math::min;
use vstd::string::StringExecFns;

verus! {

/// The axis on which a rectangle's corners were found out of order.
#[derive(Eq, PartialEq, Structural, Debug, Copy, Clone)]
pub enum Dimension {
    X,
    Y,
}

impl Dimension {
    /// The axis rendered for people.
    pub open spec fn spec_symbol(self) -> Seq<char> {
        match self {
            Dimension::X => seq!['X'],
            Dimension::Y => seq!['Y'],
        }
    }

    pub fn symbol(&self) -> (r: &'static str)
        ensures
            r@ == self.spec_symbol(),
    {
        match self {
            Dimension::X => {
                proof {
                    reveal_strlit("X");
                    assert("X"@ =~= seq!['X']);
                }
                "X"
            },
            Dimension::Y => {
                proof {
                    reveal_strlit("Y");
                    assert("Y"@ =~= seq!['Y']);
                }
                "Y"
            },
        }
    }
}

/// The two coordinates that violated the ordering requirement: `lower` was
/// expected not to exceed `higher`.
#[derive(Eq, PartialEq, Structural, Debug, Copy, Clone)]
pub struct InvalidActual {
    pub lower: i32,
    pub higher: i32,
}

/// Why a rectangle could not be constructed.
#[derive(Eq, PartialEq, Structural, Debug, Copy, Clone)]
pub enum Error {
    /// The corners are out of order on the named axis.
    InvalidDimensionValue(Dimension, InvalidActual),
    /// The size does not fit in the signed coordinate domain.
    TryFromIntError(Size),
}

impl Error {
    /// The error rendered for people.
    pub open spec fn spec_message(self) -> Seq<char> {
        match self {
            Error::InvalidDimensionValue(dim, actual) => "Invalid dimension "@
                + dim.spec_symbol() + ": lower: "@ + spec_decimal(actual.lower as int)
                + " is expected not higher than upper: "@ + spec_decimal(actual.higher as int),
            Error::TryFromIntError(size) => "Can not cast u32 value to i32: "@
                + size.spec_message(),
        }
    }

    pub fn message(&self) -> (r: String)
        ensures
            r@ == self.spec_message(),
    {
        match self {
            Error::InvalidDimensionValue(dim, actual) => {
                let mut s = "Invalid dimension ".to_owned();
                s.append(dim.symbol());
                s.append(": lower: ");
                s.append(decimal(actual.lower as i64).as_str());
                s.append(" is expected not higher than upper: ");
                s.append(decimal(actual.higher as i64).as_str());
                s
            },
            Error::TryFromIntError(size) => {
                let mut s = "Can not cast u32 value to i32: ".to_owned();
                s.append(size.message().as_str());
                s
            },
        }
    }
}

/// An axis-aligned rectangle given by its top-left and bottom-right corners.
/// The right and bottom bounds are exclusive; a rectangle whose left equals
/// its right (or top its bottom) is valid and encloses no pixel.
#[derive(Eq, PartialEq, Structural, Debug, Copy, Clone)]
pub struct Rect {
    top_left: Pos,
    bottom_right: Pos,
}

impl Rect {
    pub closed spec fn spec_top_left(self) -> Pos {
        self.top_left
    }

    pub closed spec fn spec_bottom_right(self) -> Pos {
        self.bottom_right
    }

    pub open spec fn spec_left(self) -> int {
        self.spec_top_left().x as int
    }

    pub open spec fn spec_right(self) -> int {
        self.spec_bottom_right().x as int
    }

    pub open spec fn spec_top(self) -> int {
        self.spec_top_left().y as int
    }

    pub open spec fn spec_bottom(self) -> int {
        self.spec_bottom_right().y as int
    }

    pub open spec fn spec_width(self) -> int {
        self.spec_right() - self.spec_left()
    }

    pub open spec fn spec_height(self) -> int {
        self.spec_bottom() - self.spec_top()
    }

    pub open spec fn spec_is_zero_size(self) -> bool {
        self.spec_left() >= self.spec_right() || self.spec_top() >= self.spec_bottom()
    }

    /// Left and top bounds are inclusive, right and bottom exclusive.
    pub open spec fn spec_contains(self, x: int, y: int) -> bool {
        self.spec_left() <= x < self.spec_right() && self.spec_top() <= y < self.spec_bottom()
    }

    /// Every rectangle ever constructed has its corners in order on both
    /// axes; construction enforces it.
    #[verifier::type_invariant]
    pub open spec fn spec_valid(self) -> bool {
        self.spec_left() <= self.spec_right() && self.spec_top() <= self.spec_bottom()
    }

    /// Builds the rectangle, or reports the first axis on which the corners
    /// are out of order (x before y).
    pub fn try_new(top_left: Pos, bottom_right: Pos) -> (r: Result<Self, Error>)
        ensures
            top_left.x > bottom_right.x ==> r == Err::<Rect, Error>(
                Error::InvalidDimensionValue(
                    Dimension::X,
                    InvalidActual { lower: top_left.x, higher: bottom_right.x },
                ),
            ),
            top_left.x <= bottom_right.x && top_left.y > bottom_right.y ==> r == Err::<Rect, Error>(
                Error::InvalidDimensionValue(
                    Dimension::Y,
                    InvalidActual { lower: top_left.y, higher: bottom_right.y },
                ),
            ),
            top_left.x <= bottom_right.x && top_left.y <= bottom_right.y ==> (r matches Ok(rect)
                && rect.spec_top_left() == top_left
                && rect.spec_bottom_right() == bottom_right),
    {
        if top_left.x > bottom_right.x {
            Err(
                Error::InvalidDimensionValue(
                    Dimension::X,
                    InvalidActual { lower: top_left.x, higher: bottom_right.x },
                ),
            )
        } else if top_left.y > bottom_right.y {
            Err(
                Error::InvalidDimensionValue(
                    Dimension::Y,
                    InvalidActual { lower: top_left.y, higher: bottom_right.y },
                ),
            )
        } else {
            Ok(Self { top_left, bottom_right })
        }
    }

    /// Builds the rectangle whose top-left corner is `top_left` and whose
    /// extent is `size`, or reports that the size cannot be represented in
    /// the signed coordinate domain.
    pub fn try_new_size(top_left: Pos, size: Size) -> (r: Result<Self, Error>)
        ensures
            Self::size_fits(top_left, size) ==> (r matches Ok(rect)
                && rect.spec_top_left() == top_left
                && rect.spec_right() == top_left.x + size.width
                && rect.spec_bottom() == top_left.y + size.height),
            !Self::size_fits(top_left, size) ==> r == Err::<Rect, Error>(
                Error::TryFromIntError(size),
            ),
    {
        if size.width > i32::MAX as u32 || size.height > i32::MAX as u32 {
            return Err(Error::TryFromIntError(size));
        }
        let right: i64 = top_left.x as i64 + size.width as i64;
        let bottom: i64 = top_left.y as i64 + size.height as i64;
        if right > i32::MAX as i64 || bottom > i32::MAX as i64 {
            return Err(Error::TryFromIntError(size));
        }
        Ok(Self { top_left, bottom_right: Pos { x: right as i32, y: bottom as i32 } })
    }

    /// Whether `size` offsets `top_left` to a bottom-right corner that the
    /// signed coordinate domain can hold.
    pub open spec fn size_fits(top_left: Pos, size: Size) -> bool {
        size.width <= i32::MAX && size.height <= i32::MAX && top_left.x + size.width
            <= i32::MAX && top_left.y + size.height <= i32::MAX
    }

    pub fn top_left(&self) -> (r: Pos)
        ensures
            r == self.spec_top_left(),
    {
        self.top_left
    }

    pub fn bottom_right(&self) -> (r: Pos)
        ensures
            r == self.spec_bottom_right(),
    {
        self.bottom_right
    }

    pub fn top_right(&self) -> (r: Pos)
        ensures
            r.x == self.spec_right(),
            r.y == self.spec_top(),
    {
        Pos::new(self.right(), self.top())
    }

    pub fn bottom_left(&self) -> (r: Pos)
        ensures
            r.x == self.spec_left(),
            r.y == self.spec_bottom(),
    {
        Pos::new(self.left(), self.bottom())
    }

    pub fn left(&self) -> (r: i32)
        ensures
            r == self.spec_left(),
    {
        self.top_left.x
    }

    pub fn right(&self) -> (r: i32)
        ensures
            r == self.spec_right(),
    {
        self.bottom_right.x
    }

    pub fn top(&self) -> (r: i32)
        ensures
            r == self.spec_top(),
    {
        self.top_left.y
    }

    pub fn bottom(&self) -> (r: i32)
        ensures
            r == self.spec_bottom(),
    {
        self.bottom_right.y
    }

    /// The horizontal extent. The result type forces the extent to fit in
    /// `i32`, hence the bound.
    pub fn width(&self) -> (r: i32)
        requires
            self.spec_width() <= i32::MAX,
        ensures
            r == self.spec_width(),
    {
        proof {
            use_type_invariant(self);
        }
        self.bottom_right.x - self.top_left.x
    }

    /// The vertical extent, under the same bound as `width`.
    pub fn height(&self) -> (r: i32)
        requires
            self.spec_height() <= i32::MAX,
        ensures
            r == self.spec_height(),
    {
        proof {
            use_type_invariant(self);
        }
        self.bottom_right.y - self.top_left.y
    }

    /// The extents as a `Size`; every rectangle's extents fit in `u32`.
    pub fn size(&self) -> (r: Size)
        ensures
            r.width == self.spec_width(),
            r.height == self.spec_height(),
    {
        proof {
            use_type_invariant(self);
        }
        let w: i64 = self.bottom_right.x as i64 - self.top_left.x as i64;
        let h: i64 = self.bottom_right.y as i64 - self.top_left.y as i64;
        Size::new(w as u32, h as u32)
    }

    pub fn is_zero_size(&self) -> (r: bool)
        ensures
            r == self.spec_is_zero_size(),
    {
        self.top_left.x >= self.bottom_right.x || self.top_left.y >= self.bottom_right.y
    }

    pub fn contains(&self, pos: Pos) -> (r: bool)
        ensures
            r == self.spec_contains(pos.x as int, pos.y as int),
    {
        self.top_left.x <= pos.x && pos.x < self.bottom_right.x && self.top_left.y <= pos.y
            && pos.y < self.bottom_right.y
    }

    /// The overlap of two rectangles: componentwise maximum of the top-left
    /// corners and minimum of the bottom-right corners. `None` means the
    /// rectangles are truly disjoint; rectangles that touch only at an edge
    /// or corner overlap in a valid zero-size rectangle.
    pub closed spec fn spec_intersection(a: Rect, b: Rect) -> Option<Rect> {
        let tl = Pos {
            x: max(a.spec_left(), b.spec_left()) as i32,
            y: max(a.spec_top(), b.spec_top()) as i32,
        };
        let br = Pos {
            x: min(a.spec_right(), b.spec_right()) as i32,
            y: min(a.spec_bottom(), b.spec_bottom()) as i32,
        };
        if tl.x <= br.x && tl.y <= br.y {
            Some(Rect { top_left: tl, bottom_right: br })
        } else {
            None
        }
    }

    pub fn intersection(&self, other: &Rect) -> (r: Option<Rect>)
        ensures
            r == Self::spec_intersection(*self, *other),
            (r is Some) <==> (max(self.spec_left(), other.spec_left()) <= min(
                self.spec_right(),
                other.spec_right(),
            ) && max(self.spec_top(), other.spec_top()) <= min(
                self.spec_bottom(),
                other.spec_bottom(),
            )),
            r matches Some(c) ==> c.spec_left() == max(self.spec_left(), other.spec_left())
                && c.spec_right() == min(self.spec_right(), other.spec_right())
                && c.spec_top() == max(self.spec_top(), other.spec_top())
                && c.spec_bottom() == min(self.spec_bottom(), other.spec_bottom()),
            r matches Some(c) ==> forall|x: int, y: int|
                #[trigger] c.spec_contains(x, y) == (self.spec_contains(x, y)
                    && other.spec_contains(x, y)),
            r is None ==> forall|x: int, y: int|
                !(#[trigger] self.spec_contains(x, y) && other.spec_contains(x, y)),
    {
        let lx = if self.top_left.x >= other.top_left.x {
            self.top_left.x
        } else {
            other.top_left.x
        };
        let ty = if self.top_left.y >= other.top_left.y {
            self.top_left.y
        } else {
            other.top_left.y
        };
        let rx = if self.bottom_right.x <= other.bottom_right.x {
            self.bottom_right.x
        } else {
            other.bottom_right.x
        };
        let by = if self.bottom_right.y <= other.bottom_right.y {
            self.bottom_right.y
        } else {
            other.bottom_right.y
        };
        if lx <= rx && ty <= by {
            Some(Rect { top_left: Pos { x: lx, y: ty }, bottom_right: Pos { x: rx, y: by } })
        } else {
            None
        }
    }

    /// Intersection does not depend on the order of its arguments.
    pub proof fn lemma_intersection_commutative(a: Rect, b: Rect)
        ensures
            Self::spec_intersection(a, b) == Self::spec_intersection(b, a),
    {
    }

    /// Intersecting a rectangle with itself gives the rectangle back.
    pub proof fn lemma_intersection_self(a: Rect)
        requires
            a.spec_valid(),
        ensures
            Self::spec_intersection(a, a) == Some(a),
    {
    }

    /// Rectangles separated by a positive gap on some axis have no
    /// intersection at all.
    pub proof fn lemma_intersection_disjoint(a: Rect, b: Rect)
        requires
            a.spec_right() < b.spec_left() || b.spec_right() < a.spec_left() || a.spec_bottom()
                < b.spec_top() || b.spec_bottom() < a.spec_top(),
        ensures
            Self::spec_intersection(a, b) is None,
    {
    }

    /// A rectangle used as a clip never admits its own bottom-right corner
    /// (the right and bottom bounds are exclusive), and admits its top-left
    /// corner exactly when it is not zero-size (the left and top bounds are
    /// inclusive).
    pub proof fn lemma_clip_corner_bounds(r: Rect)
        requires
            r.spec_valid(),
        ensures
            !r.spec_contains(r.spec_bottom_right().x as int, r.spec_bottom_right().y as int),
            r.spec_contains(r.spec_top_left().x as int, r.spec_top_left().y as int)
                <==> !r.spec_is_zero_size(),
    {
    }

    /// Rectangles that touch exactly at an edge or a corner intersect in a
    /// valid zero-size rectangle, distinct from no intersection.
    pub proof fn lemma_intersection_touching(a: Rect, b: Rect)
        requires
            max(a.spec_left(), b.spec_left()) <= min(a.spec_right(), b.spec_right()),
            max(a.spec_top(), b.spec_top()) <= min(a.spec_bottom(), b.spec_bottom()),
            max(a.spec_left(), b.spec_left()) == min(a.spec_right(), b.spec_right()) || max(
                a.spec_top(),
                b.spec_top(),
            ) == min(a.spec_bottom(), b.spec_bottom()),
        ensures
            Self::spec_intersection(a, b) matches Some(c) && c.spec_is_zero_size(),
    {
    }
}

impl Default for Rect {
    /// The degenerate rectangle at the origin, enclosing no pixel.
    fn default() -> (r: Self)
        ensures
            r.spec_top_left() == (Pos { x: 0, y: 0 }),
            r.spec_bottom_right() == (Pos { x: 0, y: 0 }),
    {
        Self { top_left: Pos { x: 0, y: 0 }, bottom_right: Pos { x: 0, y: 0 } }
    }
}

} // verus!
