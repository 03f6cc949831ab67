//! The component trait and the context that its lifecycle functions receive.

pub mod lifecycle;
pub mod link;

pub use lifecycle::{ComponentState, Outcome, Runtime, Slot};
pub use link::{AnyLink, ComponentLink, SendAsMessage};

use crate::html::{Html, Properties};
use vstd::prelude::*;

verus! {

/// Whether a component asks to be rendered again.
pub type ShouldRender = bool;

/// What a lifecycle function of a component receives: the link through which it
/// sends messages, and its current properties.
pub struct Context<'a, C: Component> {
    /// The link of the component, for sending messages.
    pub link: ComponentLink<C>,
    /// The current properties of the component.
    pub props: &'a C::Properties,
}

impl<'a, C: Component> Clone for Context<'a, C> {
    /// Another context for the same component, with the same properties and
    /// a link of its own.
    fn clone(&self) -> (ctx: Context<'a, C>)
        ensures
            ctx.props == self.props,
            ctx.link.any() == self.link.any(),
            ctx.link.sent().len() == 0,
    {
        Context { link: self.link.clone(), props: self.props }
    }
}

/// A component: a piece of state with the functions that the runtime calls over
/// its life. What these functions do is up to the author; the runtime promises
/// when and in what order it calls them.
pub trait Component: Sized {
    /// The messages that make the component change.
    type Message;

    /// The inputs of the component, compared by value when a parent hands new ones.
    type Properties: Properties + PartialEq;

    /// Called once, when the component is created.
    fn create(ctx: &mut Context<'_, Self>) -> Self;

    /// Called for each message sent to the component. A component that does
    /// not say otherwise takes no notice of the message: it stays as it is, sends
    /// nothing, and does not ask for a render.
    fn update(&mut self, ctx: &mut Context<'_, Self>, msg: Self::Message) -> (should_render:
        ShouldRender)
        default_ensures
            !should_render,
            *final(self) == *old(self),
            *final(ctx) == *old(ctx),
    {
        false
    }

    /// Called when a parent hands over properties that differ from the current
    /// ones. A component that does not say otherwise stays as it is, sends
    /// nothing, and asks for a render, so that the new properties are shown.
    fn changed(&mut self, ctx: &mut Context<'_, Self>, new_props: &Self::Properties) -> (should_render:
        ShouldRender)
        default_ensures
            should_render,
            *final(self) == *old(self),
            *final(ctx) == *old(ctx),
    {
        true
    }

    /// Describes what the component wants to show.
    fn view(&self, ctx: &mut Context<'_, Self>) -> Html<Self>;

    /// Called after each render has been applied to the surface.
    fn rendered(&mut self, ctx: &mut Context<'_, Self>, first_render: bool) {
    }

    /// Called once, before the component is taken from the surface.
    fn destroy(&mut self, ctx: &mut Context<'_, Self>) {
    }
}


/// A component that handles messages of one more type.
pub trait MessageHandler<MSG>: Component {
    /// Handles a message, and says whether to render again.
    fn handle(&mut self, ctx: &mut Context<'_, Self>, msg: MSG) -> ShouldRender;
}

/// What can be rendered into the view of a component of the type `C`.
pub trait Renderable<C: Component> {
    /// Describes what to show.
    fn render(&self, ctx: &mut Context<'_, C>) -> Html<C>;
}

impl<C: Component> Renderable<C> for C {
    /// A component is rendered as its view: what is returned, and what the
    /// context holds afterwards, are those of a call of `view` on the component
    /// with the context as it was.
    fn render(&self, ctx: &mut Context<'_, C>) -> (html: Html<C>)
        ensures
            exists|inner: &mut Context<'_, C>|
                {
                    &&& #[trigger] call_ensures(C::view, (self, inner), html)
                    &&& *inner == *old(ctx)
                    &&& *final(inner) == *final(ctx)
                },
    {
        self.view(ctx)
    }
}

} // verus!
