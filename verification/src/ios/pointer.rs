//! The shape of the pointer of an attached trackpad or mouse.
//!
//! The system draws the pointer. An application can ask for two shapes over plain content: the text
//! beam and the system's own pointer.

use vstd::prelude::*;

verus! {

/// The shape that an element asks the pointer to have.
#[derive(Clone, Copy, Debug, PartialEq, Eq, Structural)]
pub enum CursorStyle {
    Arrow,
    IBeam,
    Crosshair,
    ClosedHand,
    OpenHand,
    PointingHand,
    ResizeLeft,
    ResizeRight,
    ResizeLeftRight,
    ResizeUp,
    ResizeDown,
    ResizeUpDown,
    ResizeUpLeftDownRight,
    ResizeUpRightDownLeft,
    ResizeColumn,
    ResizeRow,
    IBeamCursorForVerticalLayout,
    OperationNotAllowed,
    DragLink,
    DragCopy,
    ContextualMenu,
    Hidden,
}

/// The shape that the system is asked for.
#[derive(Clone, Copy, Debug, PartialEq, Eq, Structural)]
pub enum PointerShape {
    VerticalBeam,
    HorizontalBeam,
    System,
}

/// The length of a beam in points.
pub const BEAM_LENGTH: u32 = 20;

/// The pointer of the first window.
#[derive(Clone, Copy, Debug, PartialEq, Eq, Structural)]
pub struct Pointer {
    pub style: CursorStyle,
}

pub open spec fn shape_of(style: CursorStyle) -> PointerShape {
    match style {
        CursorStyle::IBeam => PointerShape::VerticalBeam,
        CursorStyle::IBeamCursorForVerticalLayout => PointerShape::HorizontalBeam,
        _ => PointerShape::System,
    }
}

impl Pointer {
    /// The shape for a region of the window.
    pub fn style_for_region(&self) -> (r: PointerShape)
        ensures
            r == shape_of(self.style),
    {
        match self.style {
            CursorStyle::IBeam => PointerShape::VerticalBeam,
            CursorStyle::IBeamCursorForVerticalLayout => PointerShape::HorizontalBeam,
            _ => PointerShape::System,
        }
    }
}

/// The pointer once a window has asked for one, and whether that was the first.
pub open spec fn installed(before: Option<Pointer>) -> (Option<Pointer>, bool) {
    match before {
        Some(pointer) => (Some(pointer), false),
        None => (Some(Pointer { style: CursorStyle::Arrow }), true),
    }
}

/// The pointer once a style was set, and whether it looks otherwise then.
pub open spec fn restyled(before: Option<Pointer>, style: CursorStyle) -> (Option<Pointer>, bool) {
    match before {
        Some(pointer) => (Some(Pointer { style }), pointer.style != style),
        None => (None, false),
    }
}

/// Says whether the interaction is to be attached to a window's view: it is to the first one's, and
/// later windows are ignored.
pub fn install(pointer: &mut Option<Pointer>) -> (r: bool)
    ensures
        (*final(pointer), r) == installed(*old(pointer)),
        r == (*old(pointer) is None),
        *final(pointer) == match *old(pointer) {
            Some(pointer) => Some(pointer),
            None => Some(Pointer { style: CursorStyle::Arrow }),
        },
{
    if pointer.is_some() {
        return false;
    }
    *pointer = Some(Pointer { style: CursorStyle::Arrow });
    true
}

/// Sets the style, and says whether the system is to be asked for the shape anew: it is where an
/// interaction is attached and the style is another.
pub fn set_cursor_style(pointer: &mut Option<Pointer>, style: CursorStyle) -> (r: bool)
    ensures
        (*final(pointer), r) == restyled(*old(pointer), style),
        match *old(pointer) {
            Some(before) => r == (before.style != style) && *final(pointer) == Some(
                Pointer { style },
            ),
            None => !r && *final(pointer) is None,
        },
{
    match *pointer {
        Some(before) => {
            *pointer = Some(Pointer { style });
            before.style != style
        },
        None => false,
    }
}

/// The pointer is a beam over text and nowhere else: an upright one where lines run across, a level one
/// where they run downwards. Everything else has the system's own pointer.
pub proof fn law_only_text_has_a_beam(style: CursorStyle)
    ensures
        shape_of(style) is VerticalBeam <==> style is IBeam,
        shape_of(style) is HorizontalBeam <==> style is IBeamCursorForVerticalLayout,
        shape_of(style) is System <==> !(style is IBeam) && !(style
            is IBeamCursorForVerticalLayout),
{
}

/// The first window has a pointer attached, an arrow; later ones leave it as it is. A style that is set is
/// the one that the pointer has then; the system is asked anew only where it is another, so setting one
/// twice asks once; and without a pointer nothing happens.
pub proof fn law_the_system_is_asked_for_changes_only(
    pointer: Option<Pointer>,
    style: CursorStyle,
)
    ensures
        installed(None).0 == Some(Pointer { style: CursorStyle::Arrow }),
        installed(None).1,
        pointer is Some ==> installed(pointer) == (pointer, false),
        restyled(None, style) == (None::<Pointer>, false),
        pointer matches Some(before) ==> {
            &&& restyled(pointer, style).0 is Some
            &&& restyled(pointer, style).0->0.style == style
            &&& restyled(pointer, style).1 <==> before.style != style
            &&& !restyled(restyled(pointer, style).0, style).1
        },
{
}

} // verus!
