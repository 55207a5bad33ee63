//! Element styles, and the layout solver's form of them.
//!
//! Authored lengths are snapped to whole device pixels on the way to the solver. The snapping is
//! arithmetic on single-precision numbers and is done by the caller: one function for borders,
//! which must not vanish, and one for every other length.

use crate::geometry::{same_number, Edges, Pixels, Point, Real32, Size};
use vstd::prelude::*;

verus! {

#[derive(Clone, Copy, Debug, PartialEq, Eq, Structural)]
pub enum Display {
    Block,
    Flex,
    Grid,
    /// Takes no part in layout.
    Absent,
}

#[derive(Clone, Copy, Debug, PartialEq, Eq, Structural)]
pub enum Position {
    Relative,
    Absolute,
}

#[derive(Clone, Copy, Debug, PartialEq, Eq, Structural)]
pub enum Overflow {
    Visible,
    Clip,
    Hidden,
    Scroll,
}

#[derive(Clone, Copy, Debug, PartialEq, Eq, Structural)]
pub enum FlexDirection {
    Row,
    Column,
    RowReverse,
    ColumnReverse,
}

#[derive(Clone, Copy, Debug, PartialEq, Eq, Structural)]
pub enum FlexWrap {
    NoWrap,
    Wrap,
    WrapReverse,
}

#[derive(Clone, Copy, Debug, PartialEq, Eq, Structural)]
pub enum AlignItems {
    Start,
    End,
    FlexStart,
    FlexEnd,
    Center,
    Baseline,
    Stretch,
}

#[derive(Clone, Copy, Debug, PartialEq, Eq, Structural)]
pub enum AlignContent {
    Start,
    End,
    FlexStart,
    FlexEnd,
    Center,
    Stretch,
    SpaceBetween,
    SpaceEvenly,
    SpaceAround,
}

/// A length in pixels or in multiples of the root font size.
#[derive(Clone, Copy, Debug)]
pub enum AbsoluteLength {
    Pixels(Pixels),
    Rems(Real32),
}

/// A length that does not depend on content: absolute, or a fraction of the parent.
#[derive(Clone, Copy, Debug)]
pub enum DefiniteLength {
    Absolute(AbsoluteLength),
    Fraction(Real32),
}

/// A length, or the solver's choice.
#[derive(Clone, Copy, Debug)]
pub enum Length {
    Definite(DefiniteLength),
    Auto,
}

/// The smallest size of the tracks of a grid.
#[derive(Clone, Copy, Debug, PartialEq, Eq, Structural)]
pub enum GridTemplateMinSize {
    Zero,
    MinContent,
    MaxContent,
}

/// A number of equal grid tracks.
#[derive(Clone, Copy, Debug, PartialEq, Eq, Structural)]
pub struct GridTemplate {
    pub repeat: u16,
    pub min_size: GridTemplateMinSize,
}

#[derive(Clone, Copy, Debug, PartialEq, Eq, Structural)]
pub enum GridPlacement {
    Line(i16),
    Span(u16),
    Auto,
}

/// Where an item starts and ends along one axis of a grid.
#[derive(Clone, Copy, Debug, PartialEq, Eq, Structural)]
pub struct GridLine {
    pub start: GridPlacement,
    pub end: GridPlacement,
}

#[derive(Clone, Copy, Debug, PartialEq, Eq, Structural)]
pub struct GridLocation {
    pub row: GridLine,
    pub column: GridLine,
}

/// The layout-relevant part of an element's style.
#[derive(Clone, Copy, Debug)]
pub struct Style {
    pub display: Display,
    pub overflow: Point<Overflow>,
    pub scrollbar_width: AbsoluteLength,
    pub position: Position,
    pub inset: Edges<Length>,
    pub size: Size<Length>,
    pub min_size: Size<Length>,
    pub max_size: Size<Length>,
    pub aspect_ratio: Option<Real32>,
    pub margin: Edges<Length>,
    pub padding: Edges<DefiniteLength>,
    pub border_widths: Edges<AbsoluteLength>,
    pub align_items: Option<AlignItems>,
    pub align_self: Option<AlignItems>,
    pub align_content: Option<AlignContent>,
    pub justify_content: Option<AlignContent>,
    pub gap: Size<DefiniteLength>,
    pub flex_direction: FlexDirection,
    pub flex_wrap: FlexWrap,
    pub flex_basis: Length,
    pub flex_grow: Real32,
    pub flex_shrink: Real32,
    pub grid_rows: Option<GridTemplate>,
    pub grid_cols: Option<GridTemplate>,
    pub grid_location: Option<GridLocation>,
}

/// A length in the solver's form: what kind it is, and the bit pattern of its number. Two are
/// equal when both agree.
#[derive(Clone, Copy, Debug, PartialEq, Eq, Structural)]
pub enum TaffyLength {
    /// Device pixels.
    Length(u32),
    /// A fraction of the containing block.
    Percent(u32),
    Auto,
    /// A share of the free space of a grid.
    Fr(u32),
    MinContent,
    MaxContent,
}

/// The bit pattern of the number one.
pub const ONE_BITS: u32 = 0x3f80_0000;

/// `repeat(count, minmax(min, max))`.
#[derive(Clone, Copy, Debug, PartialEq, Eq, Structural)]
pub struct TaffyTracks {
    pub repeat: u16,
    pub min: TaffyLength,
    pub max: TaffyLength,
}

/// A style in the solver's form: every length is in device pixels.
#[derive(Clone, Copy, Debug)]
pub struct TaffyStyle {
    pub display: Display,
    pub overflow: Point<Overflow>,
    pub scrollbar_width: Real32,
    pub position: Position,
    pub inset: Edges<TaffyLength>,
    pub size: Size<TaffyLength>,
    pub min_size: Size<TaffyLength>,
    pub max_size: Size<TaffyLength>,
    pub aspect_ratio: Option<Real32>,
    pub margin: Edges<TaffyLength>,
    pub padding: Edges<TaffyLength>,
    pub border: Edges<TaffyLength>,
    pub align_items: Option<AlignItems>,
    pub align_self: Option<AlignItems>,
    pub align_content: Option<AlignContent>,
    pub justify_content: Option<AlignContent>,
    pub gap: Size<TaffyLength>,
    pub flex_direction: FlexDirection,
    pub flex_wrap: FlexWrap,
    pub flex_basis: TaffyLength,
    pub flex_grow: Real32,
    pub flex_shrink: Real32,
    /// The row tracks; none where the element is no grid.
    pub grid_template_rows: Option<TaffyTracks>,
    pub grid_template_columns: Option<TaffyTracks>,
    pub grid_row: GridLine,
    pub grid_column: GridLine,
}

// ---- what the conversion of each part means ---------------------------------------------------

/// `out` is the device-pixel length that `snap` gives for `length`.
pub open spec fn absolute_to_taffy<F: Fn(AbsoluteLength) -> Real32>(
    length: AbsoluteLength,
    snap: F,
    out: TaffyLength,
) -> bool {
    exists|snapped: Real32|
        #![trigger call_ensures(snap, (length,), snapped)]
        call_ensures(snap, (length,), snapped) && out == TaffyLength::Length(snapped.bits)
}

/// An absolute length is snapped, a fraction stays the fraction that it is.
pub open spec fn definite_to_taffy<F: Fn(AbsoluteLength) -> Real32>(
    length: DefiniteLength,
    snap: F,
    out: TaffyLength,
) -> bool {
    match length {
        DefiniteLength::Absolute(absolute) => absolute_to_taffy(absolute, snap, out),
        DefiniteLength::Fraction(fraction) => out == TaffyLength::Percent(fraction.bits),
    }
}

/// `auto` stays `auto`, anything else is a definite length.
pub open spec fn length_to_taffy<F: Fn(AbsoluteLength) -> Real32>(
    length: Length,
    snap: F,
    out: TaffyLength,
) -> bool {
    match length {
        Length::Definite(definite) => definite_to_taffy(definite, snap, out),
        Length::Auto => out == TaffyLength::Auto,
    }
}

pub open spec fn size_to_taffy<F: Fn(AbsoluteLength) -> Real32>(
    size: Size<Length>,
    snap: F,
    out: Size<TaffyLength>,
) -> bool {
    &&& length_to_taffy(size.width, snap, out.width)
    &&& length_to_taffy(size.height, snap, out.height)
}

pub open spec fn edges_to_taffy<F: Fn(AbsoluteLength) -> Real32>(
    edges: Edges<Length>,
    snap: F,
    out: Edges<TaffyLength>,
) -> bool {
    &&& length_to_taffy(edges.top, snap, out.top)
    &&& length_to_taffy(edges.right, snap, out.right)
    &&& length_to_taffy(edges.bottom, snap, out.bottom)
    &&& length_to_taffy(edges.left, snap, out.left)
}

pub open spec fn padding_to_taffy<F: Fn(AbsoluteLength) -> Real32>(
    edges: Edges<DefiniteLength>,
    snap: F,
    out: Edges<TaffyLength>,
) -> bool {
    &&& definite_to_taffy(edges.top, snap, out.top)
    &&& definite_to_taffy(edges.right, snap, out.right)
    &&& definite_to_taffy(edges.bottom, snap, out.bottom)
    &&& definite_to_taffy(edges.left, snap, out.left)
}

pub open spec fn borders_to_taffy<G: Fn(AbsoluteLength) -> Real32>(
    widths: Edges<AbsoluteLength>,
    snap_stroke: G,
    out: Edges<TaffyLength>,
) -> bool {
    &&& absolute_to_taffy(widths.top, snap_stroke, out.top)
    &&& absolute_to_taffy(widths.right, snap_stroke, out.right)
    &&& absolute_to_taffy(widths.bottom, snap_stroke, out.bottom)
    &&& absolute_to_taffy(widths.left, snap_stroke, out.left)
}

/// The tracks of a template: they share the free space equally, or size to their content, above
/// a minimum of zero or of their content.
pub open spec fn tracks_of(template: Option<GridTemplate>) -> Option<TaffyTracks> {
    match template {
        None => None,
        Some(template) => Some(
            TaffyTracks {
                repeat: template.repeat,
                min: if template.min_size is MinContent {
                    TaffyLength::MinContent
                } else {
                    TaffyLength::Length(0)
                },
                max: if template.min_size is MaxContent {
                    TaffyLength::MaxContent
                } else {
                    TaffyLength::Fr(ONE_BITS)
                },
            },
        ),
    }
}

/// An item that is not placed is placed by the solver.
pub open spec fn unplaced() -> GridLine {
    GridLine { start: GridPlacement::Auto, end: GridPlacement::Auto }
}

// ---- the conversions --------------------------------------------------------------------------

impl AbsoluteLength {
    /// The length, snapped, as a solver length.
    pub fn to_taffy<F: Fn(AbsoluteLength) -> Real32>(self, snap: &F) -> (r: TaffyLength)
        requires
            forall|length: AbsoluteLength| call_requires(*snap, (length,)),
        ensures
            absolute_to_taffy(self, *snap, r),
    {
        let snapped = snap(self);
        TaffyLength::Length(snapped.bits)
    }
}

impl DefiniteLength {
    pub fn to_taffy<F: Fn(AbsoluteLength) -> Real32>(self, snap: &F) -> (r: TaffyLength)
        requires
            forall|length: AbsoluteLength| call_requires(*snap, (length,)),
        ensures
            definite_to_taffy(self, *snap, r),
    {
        match self {
            DefiniteLength::Absolute(length) => length.to_taffy(snap),
            DefiniteLength::Fraction(fraction) => TaffyLength::Percent(fraction.bits),
        }
    }
}

impl Length {
    pub fn to_taffy<F: Fn(AbsoluteLength) -> Real32>(self, snap: &F) -> (r: TaffyLength)
        requires
            forall|length: AbsoluteLength| call_requires(*snap, (length,)),
        ensures
            length_to_taffy(self, *snap, r),
    {
        match self {
            Length::Definite(length) => length.to_taffy(snap),
            Length::Auto => TaffyLength::Auto,
        }
    }
}

impl Size<Length> {
    pub fn to_taffy<F: Fn(AbsoluteLength) -> Real32>(self, snap: &F) -> (r: Size<TaffyLength>)
        requires
            forall|length: AbsoluteLength| call_requires(*snap, (length,)),
        ensures
            size_to_taffy(self, *snap, r),
    {
        Size { width: self.width.to_taffy(snap), height: self.height.to_taffy(snap) }
    }
}

impl Edges<Length> {
    pub fn to_taffy<F: Fn(AbsoluteLength) -> Real32>(self, snap: &F) -> (r: Edges<TaffyLength>)
        requires
            forall|length: AbsoluteLength| call_requires(*snap, (length,)),
        ensures
            edges_to_taffy(self, *snap, r),
    {
        Edges {
            top: self.top.to_taffy(snap),
            right: self.right.to_taffy(snap),
            bottom: self.bottom.to_taffy(snap),
            left: self.left.to_taffy(snap),
        }
    }
}

impl Edges<DefiniteLength> {
    pub fn to_taffy<F: Fn(AbsoluteLength) -> Real32>(self, snap: &F) -> (r: Edges<TaffyLength>)
        requires
            forall|length: AbsoluteLength| call_requires(*snap, (length,)),
        ensures
            padding_to_taffy(self, *snap, r),
    {
        Edges {
            top: self.top.to_taffy(snap),
            right: self.right.to_taffy(snap),
            bottom: self.bottom.to_taffy(snap),
            left: self.left.to_taffy(snap),
        }
    }
}

/// Border widths go through the stroke snapping, so that a border that was asked for is drawn.
pub fn border_widths_to_taffy<G: Fn(AbsoluteLength) -> Real32>(
    widths: &Edges<AbsoluteLength>,
    snap_stroke: &G,
) -> (r: Edges<TaffyLength>)
    requires
        forall|length: AbsoluteLength| call_requires(*snap_stroke, (length,)),
    ensures
        borders_to_taffy(*widths, *snap_stroke, r),
{
    Edges {
        top: widths.top.to_taffy(snap_stroke),
        right: widths.right.to_taffy(snap_stroke),
        bottom: widths.bottom.to_taffy(snap_stroke),
        left: widths.left.to_taffy(snap_stroke),
    }
}

/// The solver's tracks for a grid template.
pub fn to_grid_repeat(template: Option<GridTemplate>) -> (r: Option<TaffyTracks>)
    ensures
        r == tracks_of(template),
{
    match template {
        None => None,
        Some(template) => Some(
            match template.min_size {
                GridTemplateMinSize::Zero => TaffyTracks {
                    repeat: template.repeat,
                    min: TaffyLength::Length(0),
                    max: TaffyLength::Fr(ONE_BITS),
                },
                GridTemplateMinSize::MinContent => TaffyTracks {
                    repeat: template.repeat,
                    min: TaffyLength::MinContent,
                    max: TaffyLength::Fr(ONE_BITS),
                },
                GridTemplateMinSize::MaxContent => TaffyTracks {
                    repeat: template.repeat,
                    min: TaffyLength::Length(0),
                    max: TaffyLength::MaxContent,
                },
            },
        ),
    }
}

impl Style {
    /// Every field of `out` is the conversion of the field of `self` that it stands for.
    pub open spec fn converts_to<F: Fn(AbsoluteLength) -> Real32, G: Fn(AbsoluteLength) -> Real32>(
        self,
        snap: F,
        snap_stroke: G,
        out: TaffyStyle,
    ) -> bool {
        &&& out.display == self.display
        &&& out.overflow == self.overflow
        &&& call_ensures(snap, (self.scrollbar_width,), out.scrollbar_width)
        &&& out.position == self.position
        &&& edges_to_taffy(self.inset, snap, out.inset)
        &&& size_to_taffy(self.size, snap, out.size)
        &&& size_to_taffy(self.min_size, snap, out.min_size)
        &&& size_to_taffy(self.max_size, snap, out.max_size)
        &&& out.aspect_ratio == self.aspect_ratio
        &&& edges_to_taffy(self.margin, snap, out.margin)
        &&& padding_to_taffy(self.padding, snap, out.padding)
        &&& borders_to_taffy(self.border_widths, snap_stroke, out.border)
        &&& out.align_items == self.align_items
        &&& out.align_self == self.align_self
        &&& out.align_content == self.align_content
        &&& out.justify_content == self.justify_content
        &&& definite_to_taffy(self.gap.width, snap, out.gap.width)
        &&& definite_to_taffy(self.gap.height, snap, out.gap.height)
        &&& out.flex_direction == self.flex_direction
        &&& out.flex_wrap == self.flex_wrap
        &&& length_to_taffy(self.flex_basis, snap, out.flex_basis)
        &&& out.flex_grow == self.flex_grow
        &&& out.flex_shrink == self.flex_shrink
        &&& out.grid_template_rows == tracks_of(self.grid_rows)
        &&& out.grid_template_columns == tracks_of(self.grid_cols)
        &&& out.grid_row == (match self.grid_location {
            Some(location) => location.row,
            None => unplaced(),
        })
        &&& out.grid_column == (match self.grid_location {
            Some(location) => location.column,
            None => unplaced(),
        })
    }

    /// The style in the solver's form. `snap` turns an authored length into whole device pixels,
    /// `snap_stroke` does so for border widths.
    pub fn to_taffy<F: Fn(AbsoluteLength) -> Real32, G: Fn(AbsoluteLength) -> Real32>(
        &self,
        snap: &F,
        snap_stroke: &G,
    ) -> (r: TaffyStyle)
        requires
            forall|length: AbsoluteLength| call_requires(*snap, (length,)),
            forall|length: AbsoluteLength| call_requires(*snap_stroke, (length,)),
        ensures
            self.converts_to(*snap, *snap_stroke, r),
    {
        let automatic = GridLine { start: GridPlacement::Auto, end: GridPlacement::Auto };
        TaffyStyle {
            display: self.display,
            overflow: self.overflow,
            scrollbar_width: snap(self.scrollbar_width),
            position: self.position,
            inset: self.inset.to_taffy(snap),
            size: self.size.to_taffy(snap),
            min_size: self.min_size.to_taffy(snap),
            max_size: self.max_size.to_taffy(snap),
            aspect_ratio: self.aspect_ratio,
            margin: self.margin.to_taffy(snap),
            padding: self.padding.to_taffy(snap),
            border: border_widths_to_taffy(&self.border_widths, snap_stroke),
            align_items: self.align_items,
            align_self: self.align_self,
            align_content: self.align_content,
            justify_content: self.justify_content,
            gap: Size {
                width: self.gap.width.to_taffy(snap),
                height: self.gap.height.to_taffy(snap),
            },
            flex_direction: self.flex_direction,
            flex_wrap: self.flex_wrap,
            flex_basis: self.flex_basis.to_taffy(snap),
            flex_grow: self.flex_grow,
            flex_shrink: self.flex_shrink,
            grid_template_rows: to_grid_repeat(self.grid_rows),
            grid_template_columns: to_grid_repeat(self.grid_cols),
            grid_row: match self.grid_location {
                Some(location) => location.row,
                None => automatic,
            },
            grid_column: match self.grid_location {
                Some(location) => location.column,
                None => automatic,
            },
        }
    }
}

// ---- equality ---------------------------------------------------------------------------------

fn edges_eq(a: &Edges<TaffyLength>, b: &Edges<TaffyLength>) -> (r: bool)
    ensures
        r == (*a == *b),
{
    a.top == b.top && a.right == b.right && a.bottom == b.bottom && a.left == b.left
}

fn size_eq(a: &Size<TaffyLength>, b: &Size<TaffyLength>) -> (r: bool)
    ensures
        r == (*a == *b),
{
    a.width == b.width && a.height == b.height
}

impl TaffyStyle {
    /// The two styles are equal: plain numbers as numbers, lengths as kind and bit pattern,
    /// everything else as what it is.
    pub open spec fn same(self, other: TaffyStyle) -> bool {
        &&& self.display == other.display
        &&& self.overflow == other.overflow
        &&& self.scrollbar_width.same(other.scrollbar_width)
        &&& self.position == other.position
        &&& self.inset == other.inset
        &&& self.size == other.size
        &&& self.min_size == other.min_size
        &&& self.max_size == other.max_size
        &&& match (self.aspect_ratio, other.aspect_ratio) {
            (Some(a), Some(b)) => a.same(b),
            (None, None) => true,
            _ => false,
        }
        &&& self.margin == other.margin
        &&& self.padding == other.padding
        &&& self.border == other.border
        &&& self.align_items == other.align_items
        &&& self.align_self == other.align_self
        &&& self.align_content == other.align_content
        &&& self.justify_content == other.justify_content
        &&& self.gap == other.gap
        &&& self.flex_direction == other.flex_direction
        &&& self.flex_wrap == other.flex_wrap
        &&& self.flex_basis == other.flex_basis
        &&& self.flex_grow.same(other.flex_grow)
        &&& self.flex_shrink.same(other.flex_shrink)
        &&& self.grid_template_rows == other.grid_template_rows
        &&& self.grid_template_columns == other.grid_template_columns
        &&& self.grid_row == other.grid_row
        &&& self.grid_column == other.grid_column
    }

    pub fn is_same(&self, other: &TaffyStyle) -> (r: bool)
        ensures
            r == self.same(*other),
    {
        let ratio = match (self.aspect_ratio, other.aspect_ratio) {
            (Some(a), Some(b)) => a == b,
            (None, None) => true,
            _ => false,
        };
        self.display == other.display && self.overflow.x == other.overflow.x && self.overflow.y
            == other.overflow.y && self.scrollbar_width == other.scrollbar_width && self.position
            == other.position && edges_eq(&self.inset, &other.inset) && size_eq(
            &self.size,
            &other.size,
        ) && size_eq(&self.min_size, &other.min_size) && size_eq(&self.max_size, &other.max_size)
            && ratio && edges_eq(&self.margin, &other.margin) && edges_eq(
            &self.padding,
            &other.padding,
        ) && edges_eq(&self.border, &other.border) && align_items_eq(
            self.align_items,
            other.align_items,
        ) && align_items_eq(self.align_self, other.align_self) && align_content_eq(
            self.align_content,
            other.align_content,
        ) && align_content_eq(self.justify_content, other.justify_content) && size_eq(
            &self.gap,
            &other.gap,
        ) && self.flex_direction == other.flex_direction && self.flex_wrap == other.flex_wrap
            && self.flex_basis == other.flex_basis && self.flex_grow == other.flex_grow
            && self.flex_shrink == other.flex_shrink && tracks_eq(
            self.grid_template_rows,
            other.grid_template_rows,
        ) && tracks_eq(self.grid_template_columns, other.grid_template_columns) && self.grid_row
            == other.grid_row && self.grid_column == other.grid_column
    }
}

fn align_items_eq(a: Option<AlignItems>, b: Option<AlignItems>) -> (r: bool)
    ensures
        r == (a == b),
{
    match (a, b) {
        (Some(a), Some(b)) => a == b,
        (None, None) => true,
        _ => false,
    }
}

fn align_content_eq(a: Option<AlignContent>, b: Option<AlignContent>) -> (r: bool)
    ensures
        r == (a == b),
{
    match (a, b) {
        (Some(a), Some(b)) => a == b,
        (None, None) => true,
        _ => false,
    }
}

fn tracks_eq(a: Option<TaffyTracks>, b: Option<TaffyTracks>) -> (r: bool)
    ensures
        r == (a == b),
{
    match (a, b) {
        (Some(a), Some(b)) => a == b,
        (None, None) => true,
        _ => false,
    }
}

// ---- laws --------------------------------------------------------------------------------------

/// The four sides of two boxes are the same, side by side.
pub open spec fn same_sides(a: Edges<TaffyLength>, b: Edges<TaffyLength>) -> bool {
    &&& a.top == b.top
    &&& a.right == b.right
    &&& a.bottom == b.bottom
    &&& a.left == b.left
}

/// Both dimensions of two sizes are the same.
pub open spec fn same_dimensions(a: Size<TaffyLength>, b: Size<TaffyLength>) -> bool {
    a.width == b.width && a.height == b.height
}

/// Neither grid has tracks, or both have as many, of the same least and largest size.
pub open spec fn same_tracks(a: Option<TaffyTracks>, b: Option<TaffyTracks>) -> bool {
    match (a, b) {
        (Some(a), Some(b)) => a.repeat == b.repeat && a.min == b.min && a.max == b.max,
        _ => a is None && b is None,
    }
}

/// Every field of two styles is the same, plain numbers as numbers.
pub open spec fn same_fields(a: TaffyStyle, b: TaffyStyle) -> bool {
    &&& a.display == b.display
    &&& a.overflow.x == b.overflow.x
    &&& a.overflow.y == b.overflow.y
    &&& same_number(a.scrollbar_width, b.scrollbar_width)
    &&& a.position == b.position
    &&& same_sides(a.inset, b.inset)
    &&& same_dimensions(a.size, b.size)
    &&& same_dimensions(a.min_size, b.min_size)
    &&& same_dimensions(a.max_size, b.max_size)
    &&& a.aspect_ratio is Some == b.aspect_ratio is Some
    &&& a.aspect_ratio is Some ==> same_number(a.aspect_ratio->0, b.aspect_ratio->0)
    &&& same_sides(a.margin, b.margin)
    &&& same_sides(a.padding, b.padding)
    &&& same_sides(a.border, b.border)
    &&& a.align_items == b.align_items
    &&& a.align_self == b.align_self
    &&& a.align_content == b.align_content
    &&& a.justify_content == b.justify_content
    &&& same_dimensions(a.gap, b.gap)
    &&& a.flex_direction == b.flex_direction
    &&& a.flex_wrap == b.flex_wrap
    &&& a.flex_basis == b.flex_basis
    &&& same_number(a.flex_grow, b.flex_grow)
    &&& same_number(a.flex_shrink, b.flex_shrink)
    &&& same_tracks(a.grid_template_rows, b.grid_template_rows)
    &&& same_tracks(a.grid_template_columns, b.grid_template_columns)
    &&& a.grid_row.start == b.grid_row.start
    &&& a.grid_row.end == b.grid_row.end
    &&& a.grid_column.start == b.grid_column.start
    &&& a.grid_column.end == b.grid_column.end
}

/// Two styles are equal if and only if every field of theirs is.
pub proof fn law_equal_styles_have_equal_fields(a: TaffyStyle, b: TaffyStyle)
    ensures
        a.same(b) <==> same_fields(a, b),
{
    if same_fields(a, b) {
        assert(a.overflow == b.overflow);
        assert(a.inset == b.inset && a.margin == b.margin);
        assert(a.padding == b.padding && a.border == b.border);
        assert(a.size == b.size && a.min_size == b.min_size);
        assert(a.max_size == b.max_size && a.gap == b.gap);
        assert(a.grid_template_rows == b.grid_template_rows);
        assert(a.grid_template_columns == b.grid_template_columns);
        assert(a.grid_row == b.grid_row && a.grid_column == b.grid_column);
    }
}

/// What a length becomes where snapping gives the numbers of `snapped`: `auto` is `auto`, a fraction is
/// that fraction, and anything else is so many device pixels.
pub open spec fn solved(length: Length, snapped: spec_fn(AbsoluteLength) -> Real32) -> TaffyLength {
    if length is Auto {
        TaffyLength::Auto
    } else if length->Definite_0 is Fraction {
        TaffyLength::Percent(length->Definite_0->Fraction_0.bits)
    } else {
        TaffyLength::Length(snapped(length->Definite_0->Absolute_0).bits)
    }
}

/// Each length of the solver's style is that of the same name and side of the element's. Borders, and
/// nothing else, are snapped as strokes. What is no length is handed on.
pub proof fn law_every_length_is_converted_in_its_place<
    F: Fn(AbsoluteLength) -> Real32,
    G: Fn(AbsoluteLength) -> Real32,
>(
    style: Style,
    snap: F,
    snap_stroke: G,
    snapped: spec_fn(AbsoluteLength) -> Real32,
    stroked: spec_fn(AbsoluteLength) -> Real32,
    out: TaffyStyle,
)
    requires
        forall|length: AbsoluteLength, number: Real32| #[trigger]
            call_ensures(snap, (length,), number) ==> number == snapped(length),
        forall|length: AbsoluteLength, number: Real32| #[trigger]
            call_ensures(snap_stroke, (length,), number) ==> number == stroked(length),
        style.converts_to(snap, snap_stroke, out),
    ensures
        out.scrollbar_width == snapped(style.scrollbar_width),
        out.inset.top == solved(style.inset.top, snapped),
        out.inset.right == solved(style.inset.right, snapped),
        out.inset.bottom == solved(style.inset.bottom, snapped),
        out.inset.left == solved(style.inset.left, snapped),
        out.size.width == solved(style.size.width, snapped),
        out.size.height == solved(style.size.height, snapped),
        out.min_size.width == solved(style.min_size.width, snapped),
        out.min_size.height == solved(style.min_size.height, snapped),
        out.max_size.width == solved(style.max_size.width, snapped),
        out.max_size.height == solved(style.max_size.height, snapped),
        out.margin.top == solved(style.margin.top, snapped),
        out.margin.right == solved(style.margin.right, snapped),
        out.margin.bottom == solved(style.margin.bottom, snapped),
        out.margin.left == solved(style.margin.left, snapped),
        out.padding.top == solved(Length::Definite(style.padding.top), snapped),
        out.padding.right == solved(Length::Definite(style.padding.right), snapped),
        out.padding.bottom == solved(Length::Definite(style.padding.bottom), snapped),
        out.padding.left == solved(Length::Definite(style.padding.left), snapped),
        out.border.top == TaffyLength::Length(stroked(style.border_widths.top).bits),
        out.border.right == TaffyLength::Length(stroked(style.border_widths.right).bits),
        out.border.bottom == TaffyLength::Length(stroked(style.border_widths.bottom).bits),
        out.border.left == TaffyLength::Length(stroked(style.border_widths.left).bits),
        out.gap.width == solved(Length::Definite(style.gap.width), snapped),
        out.gap.height == solved(Length::Definite(style.gap.height), snapped),
        out.flex_basis == solved(style.flex_basis, snapped),
        out.display == style.display,
        out.overflow.x == style.overflow.x,
        out.overflow.y == style.overflow.y,
        out.position == style.position,
        out.aspect_ratio == style.aspect_ratio,
        out.align_items == style.align_items,
        out.align_self == style.align_self,
        out.align_content == style.align_content,
        out.justify_content == style.justify_content,
        out.flex_direction == style.flex_direction,
        out.flex_wrap == style.flex_wrap,
        out.flex_grow == style.flex_grow,
        out.flex_shrink == style.flex_shrink,
{
}

/// A grid has the tracks of its template, rows as rows and columns as columns, and none where it has no
/// template. As many as are asked for share the free space in equal parts, or are as large as their
/// content asks for; the least they are is nothing, or what their content needs. An item lies in the
/// row and the column that it is placed in, and where the solver puts it if it is not placed.
pub proof fn law_grids_have_the_tracks_of_their_templates<
    F: Fn(AbsoluteLength) -> Real32,
    G: Fn(AbsoluteLength) -> Real32,
>(style: Style, snap: F, snap_stroke: G, out: TaffyStyle)
    requires
        style.converts_to(snap, snap_stroke, out),
    ensures
        out.grid_template_rows is Some == style.grid_rows is Some,
        out.grid_template_columns is Some == style.grid_cols is Some,
        style.grid_rows matches Some(rows) ==> has_tracks_of(out.grid_template_rows->0, rows),
        style.grid_cols matches Some(columns) ==> has_tracks_of(
            out.grid_template_columns->0,
            columns,
        ),
        style.grid_location matches Some(location) ==> {
            &&& out.grid_row.start == location.row.start
            &&& out.grid_row.end == location.row.end
            &&& out.grid_column.start == location.column.start
            &&& out.grid_column.end == location.column.end
        },
        style.grid_location is None ==> {
            &&& out.grid_row.start is Auto
            &&& out.grid_row.end is Auto
            &&& out.grid_column.start is Auto
            &&& out.grid_column.end is Auto
        },
{
}

/// Tracks are those that a template asks for. A share of one is the number with the pattern
/// `3f800000`, and no pixels are the one with the pattern zero.
pub open spec fn has_tracks_of(tracks: TaffyTracks, template: GridTemplate) -> bool {
    &&& tracks.repeat == template.repeat
    &&& template.min_size is Zero ==> tracks.min == TaffyLength::Length(0) && tracks.max
        == TaffyLength::Fr(0x3f80_0000)
    &&& template.min_size is MinContent ==> tracks.min is MinContent && tracks.max
        == TaffyLength::Fr(0x3f80_0000)
    &&& template.min_size is MaxContent ==> tracks.min == TaffyLength::Length(0) && tracks.max
        is MaxContent
}

} // verus!
