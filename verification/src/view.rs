//! The editor `View` lifecycle contract: identity, kind, title,
//! activation/deactivation, closing (with the option to block on unsaved
//! changes), and state serialization, plus the minimal handle a view uses to
//! talk back to whatever workspace holds it. No UI library is chosen or
//! referenced here.

use vstd::prelude::*;

use crate::editor::{CloseResponse, ViewId, ViewKind, ViewStateError};

verus! {

/// What a view may ask the editor workspace for during a lifecycle
/// callback. Implemented by the workspace, whatever UI framework it uses.
pub trait WorkspaceHandle {
    /// Ask the workspace to open a new view of `kind`.
    fn request_open(&mut self, kind: &ViewKind);

    /// Ask the workspace to close the view identified by `id`.
    fn request_close(&mut self, id: ViewId);

    /// Tell the workspace this view's state changed since it was saved.
    fn mark_dirty(&mut self, id: ViewId);

    /// Ask the workspace to bring the view identified by `id` to the front.
    fn request_focus(&mut self, id: ViewId);
}

/// Passed to view lifecycle methods so they can interact with the workspace
/// without holding a direct reference to it. Lifecycle methods receive it
/// over a `dyn WorkspaceHandle` (the default); the handle's type is a
/// parameter, so a context can also be made over a concrete workspace type.
pub struct ViewContext<'a, W: WorkspaceHandle + ?Sized = dyn WorkspaceHandle + 'a> {
    workspace: &'a mut W,
}

impl<'a, W: WorkspaceHandle + ?Sized> ViewContext<'a, W> {
    /// The handle the context lends out.
    pub closed spec fn handle(self) -> &'a mut W {
        self.workspace
    }

    pub fn new(workspace: &'a mut W) -> (c: Self)
        ensures
            &*c.handle() == &*old(workspace),
    {
        ViewContext { workspace }
    }

    /// The workspace this context was made with.
    pub fn workspace(&mut self) -> (w: &mut W)
        ensures
            &*w == &*old(self).handle(),
    {
        self.workspace
    }
}

/// The lifecycle contract every editor panel/tab implements. A view owns
/// its persistent state across being hidden, shown, docked or undocked;
/// the workspace only decides when to call these methods. Object-safe, so a
/// workspace can hold `Box<dyn View>`.
pub trait View {
    /// This open instance's identity, stable for its lifetime.
    fn id(&self) -> ViewId;

    /// What kind of view this is.
    fn kind(&self) -> ViewKind;

    /// The current display title; may change over time.
    fn title(&self) -> String;

    /// Called when this view becomes the active view. Default: nothing.
    fn on_activate(&mut self, ctx: &mut ViewContext<'_>)
        default_ensures
            &*final(self) == &*old(self),
            *final(ctx) == *old(ctx),
    {
    }

    /// Called when this view stops being the active view. Default: nothing.
    fn on_deactivate(&mut self, ctx: &mut ViewContext<'_>)
        default_ensures
            &*final(self) == &*old(self),
            *final(ctx) == *old(ctx),
    {
    }

    /// Called when the workspace is about to close this view; `Block` asks
    /// it to prompt the user instead. Default: always allow.
    fn on_close(&mut self, ctx: &mut ViewContext<'_>) -> (r: CloseResponse)
        default_ensures
            r == CloseResponse::Allow,
            &*final(self) == &*old(self),
            *final(ctx) == *old(ctx),
    {
        CloseResponse::Allow
    }

    /// Serialize this view's persistent state; the encoding is the view's
    /// own choice.
    fn serialize_state(&self) -> Result<Vec<u8>, ViewStateError>;

    /// Restore state from bytes a previous `serialize_state` produced.
    /// `bytes` are untrusted: report `Restore` rather than panic.
    fn deserialize_state(&mut self, bytes: &[u8]) -> Result<(), ViewStateError>;
}

} // verus!
