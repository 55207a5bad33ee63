//! Coordinates and sizes as the layout and view logic sees them.
//!
//! The toolkit measures in single-precision numbers. Nothing here computes with them: they are
//! stored, compared and handed on, so a number is kept as its bit pattern.

use vstd::prelude::*;

verus! {

/// A single-precision IEEE 754 number, held as its bit pattern.
#[derive(Clone, Copy, Debug)]
pub struct Real32 {
    pub bits: u32,
}

impl Real32 {
    /// The bit pattern with the sign taken off.
    pub open spec fn spec_magnitude(self) -> int {
        self.bits as int % 0x8000_0000
    }

    /// The exponent is all ones and the fraction is not zero.
    pub open spec fn spec_is_nan(self) -> bool {
        self.spec_magnitude() > 0x7f80_0000
    }

    /// Equality of the numbers, not of the patterns: the two zeros are equal, and a NaN is equal
    /// to nothing.
    pub open spec fn same(self, other: Real32) -> bool {
        &&& !self.spec_is_nan()
        &&& !other.spec_is_nan()
        &&& self.bits == other.bits || (self.spec_magnitude() == 0 && other.spec_magnitude() == 0)
    }

    pub fn is_nan(self) -> (r: bool)
        ensures
            r == self.spec_is_nan(),
    {
        self.bits % 0x8000_0000 > 0x7f80_0000
    }
}

impl PartialEq for Real32 {
    fn eq(&self, other: &Real32) -> (r: bool) {
        !self.is_nan() && !other.is_nan() && (self.bits == other.bits || (self.bits % 0x8000_0000
            == 0 && other.bits % 0x8000_0000 == 0))
    }
}

impl vstd::std_specs::cmp::PartialEqSpecImpl for Real32 {
    open spec fn obeys_eq_spec() -> bool {
        true
    }

    open spec fn eq_spec(&self, other: &Real32) -> bool {
        self.same(*other)
    }
}

/// A length in logical pixels.
#[derive(Clone, Copy, Debug)]
pub struct Pixels(pub Real32);

impl PartialEq for Pixels {
    fn eq(&self, other: &Pixels) -> (r: bool) {
        self.0 == other.0
    }
}

impl vstd::std_specs::cmp::PartialEqSpecImpl for Pixels {
    open spec fn obeys_eq_spec() -> bool {
        true
    }

    open spec fn eq_spec(&self, other: &Pixels) -> bool {
        self.0.same(other.0)
    }
}

/// A position.
#[derive(Clone, Copy, Debug)]
pub struct Point<T> {
    pub x: T,
    pub y: T,
}

/// A two-dimensional extent.
#[derive(Clone, Copy, Debug)]
pub struct Size<T> {
    pub width: T,
    pub height: T,
}

/// A value for each side of a box.
#[derive(Clone, Copy, Debug)]
pub struct Edges<T> {
    pub top: T,
    pub right: T,
    pub bottom: T,
    pub left: T,
}

/// A rectangle: its near corner and its extent.
#[derive(Clone, Copy, Debug)]
pub struct Bounds<T> {
    pub origin: Point<T>,
    pub size: Size<T>,
}

impl Point<Pixels> {
    /// Both coordinates are equal numbers.
    pub open spec fn same(self, other: Point<Pixels>) -> bool {
        self.x.0.same(other.x.0) && self.y.0.same(other.y.0)
    }

    pub fn is_same(&self, other: &Point<Pixels>) -> (r: bool)
        ensures
            r == self.same(*other),
    {
        self.x == other.x && self.y == other.y
    }
}

impl Bounds<Pixels> {
    /// All four numbers of the two rectangles are equal.
    pub open spec fn same(self, other: Bounds<Pixels>) -> bool {
        &&& self.origin.same(other.origin)
        &&& self.size.width.0.same(other.size.width.0)
        &&& self.size.height.0.same(other.size.height.0)
    }

    /// No coordinate is a NaN, so the rectangle is equal to itself.
    pub open spec fn spec_is_proper(self) -> bool {
        self.same(self)
    }

    pub fn is_same(&self, other: &Bounds<Pixels>) -> (r: bool)
        ensures
            r == self.same(*other),
    {
        self.origin.is_same(&other.origin) && self.size.width == other.size.width
            && self.size.height == other.size.height
    }
}

/// The space available for an element to be laid out in.
#[derive(Clone, Copy, Debug)]
pub enum AvailableSpace {
    /// The space is this number of pixels.
    Definite(Pixels),
    /// The space is indefinite, and the node is laid out under a min-content constraint.
    MinContent,
    /// The space is indefinite, and the node is laid out under a max-content constraint.
    MaxContent,
}

impl Default for AvailableSpace {
    fn default() -> (r: AvailableSpace)
        ensures
            r == AvailableSpace::MinContent,
    {
        AvailableSpace::MinContent
    }
}

impl PartialEq for AvailableSpace {
    fn eq(&self, other: &AvailableSpace) -> (r: bool) {
        match (*self, *other) {
            (AvailableSpace::Definite(a), AvailableSpace::Definite(b)) => a == b,
            (AvailableSpace::MinContent, AvailableSpace::MinContent) => true,
            (AvailableSpace::MaxContent, AvailableSpace::MaxContent) => true,
            _ => false,
        }
    }
}

impl vstd::std_specs::cmp::PartialEqSpecImpl for AvailableSpace {
    open spec fn obeys_eq_spec() -> bool {
        true
    }

    open spec fn eq_spec(&self, other: &AvailableSpace) -> bool {
        match (*self, *other) {
            (AvailableSpace::Definite(a), AvailableSpace::Definite(b)) => a.0.same(b.0),
            (AvailableSpace::MinContent, AvailableSpace::MinContent) => true,
            (AvailableSpace::MaxContent, AvailableSpace::MaxContent) => true,
            _ => false,
        }
    }
}

impl From<Pixels> for AvailableSpace {
    fn from(pixels: Pixels) -> (r: AvailableSpace) {
        AvailableSpace::Definite(pixels)
    }
}

impl vstd::std_specs::convert::FromSpecImpl<Pixels> for AvailableSpace {
    open spec fn obeys_from_spec() -> bool {
        true
    }

    open spec fn from_spec(pixels: Pixels) -> AvailableSpace {
        AvailableSpace::Definite(pixels)
    }
}

impl From<Size<Pixels>> for Size<AvailableSpace> {
    fn from(size: Size<Pixels>) -> (r: Size<AvailableSpace>) {
        Size {
            width: AvailableSpace::Definite(size.width),
            height: AvailableSpace::Definite(size.height),
        }
    }
}

impl vstd::std_specs::convert::FromSpecImpl<Size<Pixels>> for Size<AvailableSpace> {
    open spec fn obeys_from_spec() -> bool {
        true
    }

    open spec fn from_spec(size: Size<Pixels>) -> Size<AvailableSpace> {
        Size {
            width: AvailableSpace::Definite(size.width),
            height: AvailableSpace::Definite(size.height),
        }
    }
}

impl AvailableSpace {
    /// A size with both dimensions under a min-content constraint.
    pub fn min_size() -> (r: Size<AvailableSpace>)
        ensures
            r.width == AvailableSpace::MinContent,
            r.height == AvailableSpace::MinContent,
    {
        Size { width: AvailableSpace::MinContent, height: AvailableSpace::MinContent }
    }

    /// What becomes of a constraint when its pixels are converted to another unit: a definite
    /// space holds the converted number, the others are unchanged.
    pub open spec fn converted<F: Fn(Pixels) -> Pixels>(
        self,
        convert: F,
        result: AvailableSpace,
    ) -> bool {
        match self {
            AvailableSpace::Definite(pixels) => {
                &&& result is Definite
                &&& call_ensures(convert, (pixels,), result->Definite_0)
            },
            AvailableSpace::MinContent => result == AvailableSpace::MinContent,
            AvailableSpace::MaxContent => result == AvailableSpace::MaxContent,
        }
    }

    /// Converts the pixels of a definite space, and leaves an indefinite one as it is.
    pub fn convert<F: Fn(Pixels) -> Pixels>(self, convert: &F) -> (r: AvailableSpace)
        requires
            forall|pixels: Pixels| call_requires(*convert, (pixels,)),
        ensures
            self.converted(*convert, r),
    {
        match self {
            AvailableSpace::Definite(pixels) => AvailableSpace::Definite(convert(pixels)),
            AvailableSpace::MinContent => AvailableSpace::MinContent,
            AvailableSpace::MaxContent => AvailableSpace::MaxContent,
        }
    }
}

impl Size<AvailableSpace> {
    /// Both dimensions are converted.
    pub open spec fn converted<F: Fn(Pixels) -> Pixels>(
        self,
        convert: F,
        result: Size<AvailableSpace>,
    ) -> bool {
        &&& self.width.converted(convert, result.width)
        &&& self.height.converted(convert, result.height)
    }

    /// Converts the pixels of both dimensions.
    pub fn convert<F: Fn(Pixels) -> Pixels>(self, convert: &F) -> (r: Size<AvailableSpace>)
        requires
            forall|pixels: Pixels| call_requires(*convert, (pixels,)),
        ensures
            self.converted(*convert, r),
            self.width.converted(*convert, r.width),
            self.height.converted(*convert, r.height),
    {
        Size { width: self.width.convert(convert), height: self.height.convert(convert) }
    }
}

// ---- numbers on a line -------------------------------------------------------------------------

/// The place of a single-precision number on the line of numbers: the patterns with a clear sign bit
/// count up from zero in the order of the numbers, the others count down from it.
pub open spec fn place_of(number: Real32) -> int {
    if number.bits < 0x8000_0000 {
        number.bits as int
    } else {
        0x8000_0000 - number.bits
    }
}

/// Infinity and everything between it and its negative is a number; the patterns beyond are not.
pub open spec fn is_number(number: Real32) -> bool {
    -0x7f80_0000 <= place_of(number) <= 0x7f80_0000
}

/// Two patterns stand for the same number.
pub open spec fn same_number(a: Real32, b: Real32) -> bool {
    is_number(a) && is_number(b) && place_of(a) == place_of(b)
}

/// Values compare as the numbers that they stand for: the two zeros are equal, and what is no number
/// is equal to nothing. Lengths and spaces compare by their numbers.
pub proof fn law_values_compare_as_numbers(
    a: Real32,
    b: Real32,
    space: AvailableSpace,
    other: AvailableSpace,
)
    ensures
        a.same(b) <==> same_number(a, b),
        a.spec_is_nan() <==> !is_number(a),
        vstd::std_specs::cmp::PartialEqSpec::eq_spec(&a, &b) <==> same_number(a, b),
        vstd::std_specs::cmp::PartialEqSpec::eq_spec(&Pixels(a), &Pixels(b)) <==> same_number(a, b),
        vstd::std_specs::cmp::PartialEqSpec::eq_spec(&space, &other) <==> {
            ||| space is Definite && other is Definite && same_number(
                space->Definite_0.0,
                other->Definite_0.0,
            )
            ||| space is MinContent && other is MinContent
            ||| space is MaxContent && other is MaxContent
        },
{
}

/// Both dimensions of a size stay what they are when the size becomes the space that is available.
pub proof fn law_a_size_is_a_definite_space(size: Size<Pixels>)
    ensures
        ({
            let space = <Size<AvailableSpace> as vstd::std_specs::convert::FromSpec<
                Size<Pixels>,
            >>::from_spec(size);
            &&& space.width == AvailableSpace::Definite(size.width)
            &&& space.height == AvailableSpace::Definite(size.height)
        }),
{
}

/// A definite space is converted and stays definite; an indefinite one stays what it is.
pub proof fn law_only_definite_space_is_converted<F: Fn(Pixels) -> Pixels>(
    space: AvailableSpace,
    convert: F,
    converted: spec_fn(Pixels) -> Pixels,
    result: AvailableSpace,
)
    requires
        forall|a: Pixels, b: Pixels| #[trigger]
            call_ensures(convert, (a,), b) ==> b == converted(a),
        space.converted(convert, result),
    ensures
        space is Definite ==> result == AvailableSpace::Definite(converted(space->Definite_0)),
        space is MinContent <==> result is MinContent,
        space is MaxContent <==> result is MaxContent,
{
}

/// Each dimension of a space is converted by itself, the width from the width and the height from the
/// height.
pub proof fn law_dimensions_are_converted_apart<F: Fn(Pixels) -> Pixels>(
    space: Size<AvailableSpace>,
    convert: F,
    converted: spec_fn(Pixels) -> Pixels,
    result: Size<AvailableSpace>,
)
    requires
        forall|a: Pixels, b: Pixels| #[trigger]
            call_ensures(convert, (a,), b) ==> b == converted(a),
        space.converted(convert, result),
    ensures
        space.width is Definite ==> result.width == AvailableSpace::Definite(
            converted(space.width->Definite_0),
        ),
        space.height is Definite ==> result.height == AvailableSpace::Definite(
            converted(space.height->Definite_0),
        ),
        !(space.width is Definite) ==> result.width == space.width,
        !(space.height is Definite) ==> result.height == space.height,
{
}

} // verus!
