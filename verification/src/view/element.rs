//! Handles of views, and the element that puts a view into the tree of elements.

use crate::geometry::{Bounds, Pixels};
use crate::view::cache::{
    began_component, began_painting, began_rendering, cache_outcome, can_paint, drew_before,
    paint_component, paint_view, prepaint_component, prepaint_view, request_layout_component, request_layout_view,
    reused_paint, reused_prepaint, LayoutStep, PaintStep, Painting, PrepaintStep, Rendering,
};
use crate::view::stats::{counted, ViewCacheStats};
use crate::view::window::{position, App, ElementId, EntityId, GlobalElementId, TypeId, Window};
use std::marker::PhantomData;
use vstd::prelude::*;
use vstd::view::View as _;

verus! {

// ---- handles -----------------------------------------------------------------------------------

/// A handle of an entity whose type is known at run time only.
#[derive(Clone, Copy, Debug)]
pub struct AnyEntity {
    pub entity_id: EntityId,
    pub entity_type: TypeId,
}

impl PartialEq for AnyEntity {
    fn eq(&self, other: &AnyEntity) -> (r: bool) {
        self.entity_id == other.entity_id
    }
}

impl vstd::std_specs::cmp::PartialEqSpecImpl for AnyEntity {
    open spec fn obeys_eq_spec() -> bool {
        true
    }

    open spec fn eq_spec(&self, other: &AnyEntity) -> bool {
        self.entity_id == other.entity_id
    }
}

/// A handle of an entity of type `T`.
#[derive(Debug)]
pub struct Entity<T> {
    pub entity: AnyEntity,
    pub marker: PhantomData<T>,
}

/// A handle of an entity that does not keep it alive.
#[derive(Debug)]
pub struct WeakEntity<T> {
    pub entity: AnyWeakEntity,
    pub marker: PhantomData<T>,
}

#[derive(Clone, Copy, Debug)]
pub struct AnyWeakEntity {
    pub entity_id: EntityId,
    pub entity_type: TypeId,
}

impl PartialEq for AnyWeakEntity {
    fn eq(&self, other: &AnyWeakEntity) -> (r: bool) {
        self.entity_id == other.entity_id
    }
}

impl vstd::std_specs::cmp::PartialEqSpecImpl for AnyWeakEntity {
    open spec fn obeys_eq_spec() -> bool {
        true
    }

    open spec fn eq_spec(&self, other: &AnyWeakEntity) -> bool {
        self.entity_id == other.entity_id
    }
}

impl AnyEntity {
    pub fn downgrade(&self) -> (r: AnyWeakEntity)
        ensures
            r.entity_id == self.entity_id,
            r.entity_type == self.entity_type,
    {
        AnyWeakEntity { entity_id: self.entity_id, entity_type: self.entity_type }
    }

    /// The handle as one of type `T`, whose type id is given, or the handle itself where the
    /// entity is of another type.
    pub fn downcast<T>(self, target: TypeId) -> (r: Result<Entity<T>, AnyEntity>)
        ensures
            r == if self.entity_type == target {
                Ok(Entity::<T> { entity: self, marker: PhantomData::<T> })
            } else {
                Err(self)
            },
    {
        if self.entity_type == target {
            Ok(Entity { entity: self, marker: PhantomData })
        } else {
            Err(self)
        }
    }
}

/// The function that renders views of a type.
#[derive(Clone, Copy, Debug, PartialEq, Eq, Structural)]
pub struct RenderFn(pub TypeId);

/// A view handle whose type is known at run time only, and which can be downcast to an `Entity`.
#[derive(Clone, Copy, Debug)]
pub struct AnyView {
    pub entity: AnyEntity,
    pub render: RenderFn,
}

impl<V> From<Entity<V>> for AnyView {
    fn from(value: Entity<V>) -> (r: AnyView) {
        AnyView { entity: value.entity, render: RenderFn(value.entity.entity_type) }
    }
}

impl<V> vstd::std_specs::convert::FromSpecImpl<Entity<V>> for AnyView {
    open spec fn obeys_from_spec() -> bool {
        true
    }

    open spec fn from_spec(value: Entity<V>) -> AnyView {
        AnyView { entity: value.entity, render: RenderFn(value.entity.entity_type) }
    }
}

impl PartialEq for AnyView {
    fn eq(&self, other: &AnyView) -> (r: bool) {
        self.entity == other.entity
    }
}

impl vstd::std_specs::cmp::PartialEqSpecImpl for AnyView {
    open spec fn obeys_eq_spec() -> bool {
        true
    }

    open spec fn eq_spec(&self, other: &AnyView) -> bool {
        self.entity.entity_id == other.entity.entity_id
    }
}

/// A handle of a view that does not keep it alive.
#[derive(Clone, Copy, Debug)]
pub struct AnyWeakView {
    pub entity: AnyWeakEntity,
    pub render: RenderFn,
}

impl<V> From<WeakEntity<V>> for AnyWeakView {
    fn from(view: WeakEntity<V>) -> (r: AnyWeakView) {
        AnyWeakView { entity: view.entity, render: RenderFn(view.entity.entity_type) }
    }
}

impl<V> vstd::std_specs::convert::FromSpecImpl<WeakEntity<V>> for AnyWeakView {
    open spec fn obeys_from_spec() -> bool {
        true
    }

    open spec fn from_spec(view: WeakEntity<V>) -> AnyWeakView {
        AnyWeakView { entity: view.entity, render: RenderFn(view.entity.entity_type) }
    }
}

impl PartialEq for AnyWeakView {
    fn eq(&self, other: &AnyWeakView) -> (r: bool) {
        self.entity == other.entity
    }
}

impl vstd::std_specs::cmp::PartialEqSpecImpl for AnyWeakView {
    open spec fn obeys_eq_spec() -> bool {
        true
    }

    open spec fn eq_spec(&self, other: &AnyWeakView) -> bool {
        self.entity.entity_id == other.entity.entity_id
    }
}

impl AnyView {
    /// Embeds this view as a cached element that is laid out at `style`.
    ///
    /// What was rendered is reused from the previous frame unless the view's entity was notified
    /// since, or something that the view depends on has changed, or the window is refreshed.
    pub fn cached(self, style: StyleRefinement) -> (r: ViewElement<AnyView>)
        ensures
            r.view == Some(self),
            r.entity_id == Some(self.entity.entity_id),
            r.cached_style == Some(style),
    {
        ViewElement::new(self).cached(style)
    }

    pub open spec fn spec_downgrade(self) -> AnyWeakView {
        AnyWeakView {
            entity: AnyWeakEntity {
                entity_id: self.entity.entity_id,
                entity_type: self.entity.entity_type,
            },
            render: self.render,
        }
    }

    /// The handle as a weak one.
    pub fn downgrade(&self) -> (r: AnyWeakView)
        ensures
            r == self.spec_downgrade(),
    {
        AnyWeakView { entity: self.entity.downgrade(), render: self.render }
    }

    /// The handle as one of type `T`, whose type id is given. Where the view is of another type,
    /// the handle itself is the error.
    pub fn downcast<T>(self, target: TypeId) -> (r: Result<Entity<T>, AnyView>)
        ensures
            r == if self.entity.entity_type == target {
                Ok(Entity::<T> { entity: self.entity, marker: PhantomData::<T> })
            } else {
                Err(self)
            },
    {
        match self.entity.downcast(target) {
            Ok(entity) => Ok(entity),
            Err(entity) => Err(AnyView { entity, render: self.render }),
        }
    }

    /// The type of the underlying view.
    pub fn entity_type(&self) -> (r: TypeId)
        ensures
            r == self.entity.entity_type,
    {
        self.entity.entity_type
    }

    /// The id of this view.
    pub fn entity_id(&self) -> (r: EntityId)
        ensures
            r == self.entity.entity_id,
    {
        self.entity.entity_id
    }
}

impl AnyWeakView {
    pub open spec fn spec_upgrade(self, entity: Option<AnyEntity>) -> Option<AnyView> {
        match entity {
            Some(entity) => Some(AnyView { entity, render: self.render }),
            None => None,
        }
    }

    /// The strong handle, given what became of upgrading the entity's handle: nothing, if the
    /// entity is no longer alive.
    pub fn upgrade(&self, entity: Option<AnyEntity>) -> (r: Option<AnyView>)
        ensures
            r == self.spec_upgrade(entity),
    {
        match entity {
            Some(entity) => Some(AnyView { entity, render: self.render }),
            None => None,
        }
    }
}

/// A view handle that was downgraded and upgraded again, while its entity lived, is what it was.
pub proof fn law_upgrade_undoes_downgrade(view: AnyView)
    ensures
        view.spec_downgrade().spec_upgrade(Some(view.entity)) == Some(view),
{
}

// ---- views -------------------------------------------------------------------------------------

/// Something that can be rendered, and may have an identity.
///
/// The identity of a view is the entity that it is about. A notification of the entity draws the
/// view anew; and the id is the view's id among elements, so two views of one entity must not be
/// at the same place in the tree.
pub trait View: Sized {
    spec fn identity(&self) -> Option<EntityId>;

    /// This view's identity, if it has one.
    fn entity_id(&self) -> (r: Option<EntityId>)
        ensures
            r == self.identity(),
    ;
}

/// A component that is rendered once and has no state.
pub trait RenderOnce: Sized {

}

/// A stateless component is a view without an identity.
impl<T: RenderOnce> View for T {
    open spec fn identity(&self) -> Option<EntityId> {
        None
    }

    fn entity_id(&self) -> (r: Option<EntityId>) {
        None
    }
}

/// An entity is a view about itself.
impl<T> View for Entity<T> {
    open spec fn identity(&self) -> Option<EntityId> {
        Some(self.entity.entity_id)
    }

    fn entity_id(&self) -> (r: Option<EntityId>) {
        Some(self.entity.entity_id)
    }
}

impl View for AnyView {
    open spec fn identity(&self) -> Option<EntityId> {
        Some(self.entity.entity_id)
    }

    fn entity_id(&self) -> (r: Option<EntityId>) {
        Some(self.entity.entity_id)
    }
}

impl<T> Entity<T> {
    /// Embeds this entity as a cached element that is laid out at `style`. The element is not
    /// measured from its contents.
    pub fn cached(self, style: StyleRefinement) -> (r: ViewElement<Entity<T>>)
        ensures
            r.view == Some(self),
            r.entity_id == Some(self.entity.entity_id),
            r.cached_style == Some(style),
    {
        ViewElement::new(self).cached(style)
    }
}

/// An element that draws nothing.
#[derive(Clone, Copy, Debug, PartialEq, Eq, Structural)]
pub struct Empty;

/// A view that renders nothing.
#[derive(Clone, Copy, Debug, PartialEq, Eq, Structural)]
pub struct EmptyView;

impl EmptyView {
    pub fn render(&mut self, _window: &mut Window, _cx: &mut App) -> (r: Empty)
        ensures
            *final(self) == *old(self),
            *final(_window) == *old(_window),
            *final(_cx) == *old(_cx),
            r == Empty,
    {
        Empty
    }
}

// ---- the element -------------------------------------------------------------------------------

/// Names a refinement of the default style.
#[derive(Clone, Copy, Debug, PartialEq, Eq, Structural)]
pub struct StyleRefinement(pub u64);

/// The element of a view: it takes the view through layout, prepaint and paint.
#[derive(Debug)]
pub struct ViewElement<V: View> {
    /// The view, until it is rendered.
    pub view: Option<V>,
    pub entity_id: Option<EntityId>,
    pub cached_style: Option<StyleRefinement>,
}

/// What is to be laid out for an element.
#[derive(Debug)]
pub enum ElementLayout<V> {
    /// A box of this style, without contents.
    Style(StyleRefinement),
    /// What the view renders.
    View(V),
    /// What the component renders, in an id space of its own.
    Component(V),
}

/// What is to be prepainted for an element.
#[derive(Debug)]
pub enum ElementPrepaint<V> {
    /// What the view rendered for its layout.
    View,
    /// Nothing; what was prepainted in the shown frame was repeated.
    Reused,
    /// What the view renders now.
    Render(V, Rendering),
    /// What the component rendered.
    Component,
}

/// What is to be painted for an element.
#[derive(Debug)]
pub enum ElementPaint {
    /// What the view rendered.
    View,
    /// Nothing; what was painted in the shown frame was repeated.
    Reused,
    /// What the cached view rendered.
    Cached(Painting),
    /// What the component rendered.
    Component,
}

impl<V: View> ViewElement<V> {
    /// Wraps a view as an element.
    pub fn new(view: V) -> (r: ViewElement<V>)
        ensures
            r.view == Some(view),
            r.entity_id == view.identity(),
            r.cached_style is None,
    {
        let entity_id = view.entity_id();
        ViewElement { entity_id, cached_style: None, view: Some(view) }
    }

    /// Enables caching of what the view renders, laid out at `style`.
    ///
    /// Only views of entities may be cached: nothing would ever draw another one anew.
    pub(crate) fn cached(self, style: StyleRefinement) -> (r: ViewElement<V>)
        ensures
            r.view == self.view,
            r.entity_id == self.entity_id,
            r.cached_style == Some(style),
    {
        ViewElement { cached_style: Some(style), ..self }
    }

    pub fn id(&self) -> (r: Option<ElementId>)
        ensures
            r == match self.entity_id {
                Some(entity) => Some(ElementId::View(entity)),
                None => None,
            },
    {
        match self.entity_id {
            Some(entity) => Some(ElementId::View(entity)),
            None => None,
        }
    }

    /// The element is laid out by its cached style.
    pub open spec fn spec_uses_cache(self, window: Window) -> bool {
        self.entity_id is Some && self.cached_style is Some && !window.inspector_picking
    }

    /// Begins the layout of the element. `Window::leave_view` ends it, or `Window::leave_id` where
    /// the element is a component. `name` is the type of the view.
    pub fn request_layout(&mut self, name: TypeId, window: &mut Window) -> (r: ElementLayout<V>)
        requires
            old(self).view is Some,
        ensures
            final(self).entity_id == old(self).entity_id,
            final(self).cached_style == old(self).cached_style,
            match r {
                ElementLayout::Style(style) => {
                    &&& old(self).spec_uses_cache(*old(window))
                    &&& old(self).cached_style == Some(style)
                    &&& final(self).view == old(self).view
                },
                ElementLayout::View(view) => {
                    &&& old(self).entity_id is Some
                    &&& !old(self).spec_uses_cache(*old(window))
                    &&& old(self).view == Some(view)
                    &&& final(self).view is None
                },
                ElementLayout::Component(view) => {
                    &&& old(self).entity_id is None
                    &&& old(self).view == Some(view)
                    &&& final(self).view is None
                },
            },
            match old(self).entity_id {
                Some(entity) => {
                    &&& final(window).rendered_views@ == old(window).rendered_views@.push(entity)
                    &&& *final(window) == (Window {
                        rendered_views: final(window).rendered_views,
                        ..*old(window)
                    })
                },
                None => began_component(*old(window), name, *final(window)),
            },
    {
        match self.entity_id {
            Some(entity) => {
                let step = request_layout_view(entity, self.cached_style.is_some(), window);
                match (step, self.cached_style) {
                    (LayoutStep::CachedStyle, Some(style)) => ElementLayout::Style(style),
                    _ => ElementLayout::View(self.view.take().unwrap()),
                }
            },
            None => {
                request_layout_component(name, window);
                ElementLayout::Component(self.view.take().unwrap())
            },
        }
    }

    /// Begins to prepaint the element. `rendered` says whether its view was rendered for the
    /// layout, and `name` is the type of the view.
    pub fn prepaint(
        &mut self,
        name: TypeId,
        id: GlobalElementId,
        bounds: Bounds<Pixels>,
        rendered: bool,
        window: &mut Window,
        cx: &mut App,
        stats: &mut ViewCacheStats,
    ) -> (r: ElementPrepaint<V>)
        requires
            old(window).wf(),
            rendered || (old(self).entity_id is Some && old(self).view is Some),
            !rendered ==> drew_before(*old(window), id),
        ensures
            final(window).wf(),
            final(self).entity_id == old(self).entity_id,
            final(self).cached_style == old(self).cached_style,
            r is Component == old(self).entity_id is None,
            r is Component ==> {
                &&& began_component(*old(window), name, *final(window))
                &&& *final(cx) == *old(cx)
                &&& *final(stats) == *old(stats)
                &&& final(self).view == old(self).view
            },
            old(self).entity_id matches Some(entity) ==> ({
                let outcome = cache_outcome(
                    old(window).spec_state(id),
                    entity,
                    bounds,
                    *old(window),
                    *old(cx),
                );
                &&& r is View == rendered
                &&& r is Reused == (!rendered && outcome is Hit)
                &&& !rendered ==> final(stats).counts@ == counted(old(stats).counts@, outcome)
                &&& match r {
                    ElementPrepaint::Component => false,
                    ElementPrepaint::View => {
                        &&& final(window).rendered_views@ == old(window).rendered_views@.push(
                            entity,
                        )
                        &&& *final(window) == (Window {
                            view_id: Some(entity),
                            rendered_views: final(window).rendered_views,
                            ..*old(window)
                        })
                        &&& *final(cx) == *old(cx)
                        &&& *final(stats) == *old(stats)
                        &&& final(self).view == old(self).view
                    },
                    ElementPrepaint::Reused => {
                        &&& reused_prepaint(
                            *old(window),
                            *old(cx),
                            entity,
                            id,
                            *final(window),
                            *final(cx),
                        )
                        &&& final(self).view == old(self).view
                    },
                    ElementPrepaint::Render(view, rendering) => {
                        &&& old(self).view == Some(view)
                        &&& final(self).view is None
                        &&& began_rendering(
                            *old(window),
                            *old(cx),
                            entity,
                            id,
                            bounds,
                            rendering,
                            *final(window),
                            *final(cx),
                        )
                    },
                }
            }),
    {
        match self.entity_id {
            Some(entity) => match prepaint_view(entity, id, bounds, rendered, window, cx, stats) {
                PrepaintStep::Prepaint => ElementPrepaint::View,
                PrepaintStep::Reused => ElementPrepaint::Reused,
                PrepaintStep::Render(rendering) => {
                    ElementPrepaint::Render(self.view.take().unwrap(), rendering)
                },
            },
            None => {
                prepaint_component(name, window);
                ElementPrepaint::Component
            },
        }
    }

    /// Begins to paint the element. `rendered` says whether its view was rendered in this frame,
    /// and `name` is the type of the view.
    pub fn paint(
        &mut self,
        name: TypeId,
        id: GlobalElementId,
        rendered: bool,
        window: &mut Window,
        cx: &mut App,
    ) -> (r: ElementPaint)
        requires
            old(window).wf(),
            if old(self).spec_uses_cache(*old(window)) {
                position(old(window).next.states@, id) is Some && can_paint(
                    *old(window),
                    old(window).spec_state(id)->0,
                    rendered,
                )
            } else {
                rendered
            },
        ensures
            final(window).wf(),
            *final(self) == *old(self),
            r is Component == old(self).entity_id is None,
            r is Component ==> began_component(*old(window), name, *final(window)) && *final(cx)
                == *old(cx),
            old(self).entity_id matches Some(entity) ==> ({
                let cached = old(self).spec_uses_cache(*old(window));
                &&& r is View == !cached
                &&& r is Reused == (cached && !rendered)
                &&& match r {
                    ElementPaint::Component => false,
                    ElementPaint::View => {
                        &&& final(window).rendered_views@ == old(window).rendered_views@.push(
                            entity,
                        )
                        &&& *final(window) == (Window {
                            rendered_views: final(window).rendered_views,
                            ..*old(window)
                        })
                        &&& *final(cx) == *old(cx)
                    },
                    ElementPaint::Reused => {
                        &&& reused_paint(*old(window), id, *final(window))
                        &&& *final(cx) == *old(cx)
                    },
                    ElementPaint::Cached(painting) => began_painting(
                        *old(window),
                        *old(cx),
                        entity,
                        id,
                        painting,
                        *final(window),
                        *final(cx),
                    ),
                }
            }),
    {
        match self.entity_id {
            Some(entity) => {
                match paint_view(entity, self.cached_style.is_some(), id, rendered, window, cx) {
                    PaintStep::Paint => ElementPaint::View,
                    PaintStep::Reused => ElementPaint::Reused,
                    PaintStep::PaintCached(painting) => ElementPaint::Cached(painting),
                }
            },
            None => {
                paint_component(name, window);
                ElementPaint::Component
            },
        }
    }
}

// ---- laws --------------------------------------------------------------------------------------

/// Handles are equal if and only if they are of the same entity, weak or not, whatever else they hold.
pub proof fn law_handles_of_one_entity_are_equal(
    a: AnyEntity,
    b: AnyEntity,
    c: AnyWeakEntity,
    d: AnyWeakEntity,
    e: AnyView,
    f: AnyView,
    g: AnyWeakView,
    h: AnyWeakView,
)
    ensures
        vstd::std_specs::cmp::PartialEqSpec::eq_spec(&a, &b) <==> a.entity_id.0 == b.entity_id.0,
        vstd::std_specs::cmp::PartialEqSpec::eq_spec(&c, &d) <==> c.entity_id.0 == d.entity_id.0,
        vstd::std_specs::cmp::PartialEqSpec::eq_spec(&e, &f) <==> e.entity.entity_id.0
            == f.entity.entity_id.0,
        vstd::std_specs::cmp::PartialEqSpec::eq_spec(&g, &h) <==> g.entity.entity_id.0
            == h.entity.entity_id.0,
{
}

/// A handle that loses its type is of the same entity, and renders it as views of its type are rendered.
/// A weak handle keeps the entity, the type and the way of rendering, and gives a strong one only of
/// what lives.
pub proof fn law_handles_keep_their_entity<T>(
    entity: Entity<T>,
    weak: WeakEntity<T>,
    view: AnyView,
    found: Option<AnyEntity>,
)
    ensures
        ({
            let erased = <AnyView as vstd::std_specs::convert::FromSpec<Entity<T>>>::from_spec(
                entity,
            );
            &&& erased.entity.entity_id == entity.entity.entity_id
            &&& erased.entity.entity_type == entity.entity.entity_type
            &&& erased.render.0 == entity.entity.entity_type
        }),
        ({
            let erased = <AnyWeakView as vstd::std_specs::convert::FromSpec<
                WeakEntity<T>,
            >>::from_spec(weak);
            &&& erased.entity.entity_id == weak.entity.entity_id
            &&& erased.entity.entity_type == weak.entity.entity_type
            &&& erased.render.0 == weak.entity.entity_type
        }),
        view.spec_downgrade().entity.entity_id == view.entity.entity_id,
        view.spec_downgrade().entity.entity_type == view.entity.entity_type,
        view.spec_downgrade().render == view.render,
        view.spec_downgrade().spec_upgrade(found) is Some == found is Some,
        view.spec_downgrade().spec_upgrade(found) matches Some(strong) ==> strong.entity == found->0
            && strong.render == view.render,
{
}

/// An entity is a view with its own identity, and so is a handle of any view.
pub proof fn law_views_of_entities_have_their_identity<T>(entity: Entity<T>, view: AnyView)
    ensures
        entity.identity() == Some(EntityId(entity.entity.entity_id.0)),
        view.identity() == Some(EntityId(view.entity.entity_id.0)),
{
}

/// An element is laid out by its cached style if and only if it is of an entity, has such a style, and
/// the inspector is not picking.
pub proof fn law_only_views_of_entities_are_cached<V: View>(element: ViewElement<V>, window: Window)
    ensures
        element.spec_uses_cache(window) <==> element.entity_id is Some && element.cached_style is Some
            && window.inspector_picking == false,
{
}

} // verus!
