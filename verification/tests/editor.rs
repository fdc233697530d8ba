use northstar::editor::{
    CloseResponse, ViewDescriptor, ViewId, ViewIdAllocator, ViewKind, ViewStateError,
};
use northstar::view::{View, ViewContext, WorkspaceHandle};

/// A trivial `View`, only to show the trait is object-safe and usable
/// through `Box<dyn View>` the way a workspace holds it.
struct NoteView {
    id: ViewId,
    text: String,
}

impl View for NoteView {
    fn id(&self) -> ViewId {
        self.id
    }

    fn kind(&self) -> ViewKind {
        ViewKind::new("note")
    }

    fn title(&self) -> String {
        "Note".to_owned()
    }

    fn serialize_state(&self) -> Result<Vec<u8>, ViewStateError> {
        Ok(self.text.clone().into_bytes())
    }

    fn deserialize_state(&mut self, bytes: &[u8]) -> Result<(), ViewStateError> {
        self.text = String::from_utf8(bytes.to_vec())
            .map_err(|e| ViewStateError::Restore(e.to_string()))?;
        Ok(())
    }
}

#[test]
fn view_is_object_safe_and_round_trips_state() {
    let mut ids = ViewIdAllocator::new();
    let mut view: Box<dyn View> = Box::new(NoteView {
        id: ViewId::new(&mut ids),
        text: "hello".to_owned(),
    });

    let bytes = view.serialize_state().unwrap();
    view.deserialize_state(&bytes).unwrap();
    assert_eq!(view.serialize_state().unwrap(), b"hello");
    assert_eq!(view.title(), "Note");
    assert_eq!(view.kind(), ViewKind::new("note"));
}

struct Empty(ViewId);

impl View for Empty {
    fn id(&self) -> ViewId {
        self.0
    }
    fn kind(&self) -> ViewKind {
        ViewKind::new("empty")
    }
    fn title(&self) -> String {
        String::new()
    }
    fn serialize_state(&self) -> Result<Vec<u8>, ViewStateError> {
        Ok(Vec::new())
    }
    fn deserialize_state(&mut self, _bytes: &[u8]) -> Result<(), ViewStateError> {
        Ok(())
    }
}

struct NullWorkspace;

impl WorkspaceHandle for NullWorkspace {
    fn request_open(&mut self, _kind: &ViewKind) {}
    fn request_close(&mut self, _id: ViewId) {}
    fn mark_dirty(&mut self, _id: ViewId) {}
    fn request_focus(&mut self, _id: ViewId) {}
}

#[test]
fn default_close_response_allows_closing() {
    let mut ids = ViewIdAllocator::new();
    let mut view = Empty(ViewId::new(&mut ids));
    let mut workspace = NullWorkspace;
    let mut ctx: ViewContext<'_> = ViewContext::new(&mut workspace);
    assert_eq!(view.on_close(&mut ctx), CloseResponse::Allow);
}

#[test]
fn ids_are_unique() {
    let mut ids = ViewIdAllocator::new();
    let a = ViewId::new(&mut ids);
    let b = ViewId::new(&mut ids);
    assert_ne!(a, b);
}

/// Records what a view asked the workspace for.
struct RecordingWorkspace {
    requests: Vec<String>,
}

impl WorkspaceHandle for RecordingWorkspace {
    fn request_open(&mut self, kind: &ViewKind) {
        self.requests.push(format!("open {}", kind.as_str()));
    }
    fn request_close(&mut self, id: ViewId) {
        self.requests.push(format!("close {}", id.to_string()));
    }
    fn mark_dirty(&mut self, id: ViewId) {
        self.requests.push(format!("dirty {}", id.to_string()));
    }
    fn request_focus(&mut self, id: ViewId) {
        self.requests.push(format!("focus {}", id.to_string()));
    }
}

/// A view that marks itself dirty on activation and blocks closing.
struct Editing(ViewId);

impl View for Editing {
    fn id(&self) -> ViewId {
        self.0
    }
    fn kind(&self) -> ViewKind {
        ViewKind::new("map_editor")
    }
    fn title(&self) -> String {
        "Map*".to_owned()
    }
    fn on_activate(&mut self, ctx: &mut ViewContext<'_>) {
        ctx.workspace().mark_dirty(self.0);
    }
    fn on_close(&mut self, _ctx: &mut ViewContext<'_>) -> CloseResponse {
        CloseResponse::Block
    }
    fn serialize_state(&self) -> Result<Vec<u8>, ViewStateError> {
        Err(ViewStateError::Serialize("nothing to save".to_owned()))
    }
    fn deserialize_state(&mut self, _bytes: &[u8]) -> Result<(), ViewStateError> {
        Err(ViewStateError::Restore("stale layout".to_owned()))
    }
}

#[test]
fn views_reach_the_workspace_through_their_context() {
    let mut ids = ViewIdAllocator::new();
    let _first = ViewId::new(&mut ids);
    let mut view = Editing(ViewId::new(&mut ids));
    let mut workspace = RecordingWorkspace { requests: Vec::new() };
    {
        let mut ctx: ViewContext<'_> = ViewContext::new(&mut workspace);
        view.on_activate(&mut ctx);
        view.on_deactivate(&mut ctx);
        assert_eq!(view.on_close(&mut ctx), CloseResponse::Block);
        ctx.workspace().request_open(&ViewKind::new("asset_browser"));
    }
    assert_eq!(workspace.requests, vec!["dirty view#1", "open asset_browser"]);
}

#[test]
fn view_ids_count_up_from_zero_and_print_with_their_prefix() {
    let mut ids = ViewIdAllocator::new();
    let a = ViewId::new(&mut ids);
    let b = ids.allocate();
    let c = ViewId::new(&mut ids);
    assert_eq!(a.to_string(), "view#0");
    assert_eq!(b.to_string(), "view#1");
    assert_eq!(c.to_string(), "view#2");
    assert!(a < b && b < c);
}

#[test]
fn view_state_errors_describe_the_failure() {
    assert_eq!(
        ViewStateError::Serialize("disk full".to_owned()).message(),
        "failed to serialize view state: disk full"
    );
    assert_eq!(
        ViewStateError::Restore("bad bytes".to_owned()).message(),
        "failed to restore view state: bad bytes"
    );
    let mut view = Editing(ViewIdAllocator::new().allocate());
    assert_eq!(
        view.deserialize_state(b"x").unwrap_err().message(),
        "failed to restore view state: stale layout"
    );
}

#[test]
fn view_kinds_are_open_strings() {
    let kind = ViewKind::new("some_future_panel");
    assert_eq!(kind.as_str(), "some_future_panel");
    assert_eq!(kind.clone(), kind);
    let descriptor = ViewDescriptor {
        kind: ViewKind::new("asset_browser"),
        display_name: "Asset Browser",
        singleton: true,
    };
    assert_eq!(descriptor.clone().kind.as_str(), "asset_browser");
    assert!(descriptor.singleton);
}

#[test]
fn ids_from_one_allocator_are_pairwise_distinct() {
    let mut ids = ViewIdAllocator::new();
    let drawn: Vec<ViewId> = (0..1000).map(|_| ViewId::new(&mut ids)).collect();
    for i in 0..drawn.len() {
        for j in (i + 1)..drawn.len() {
            assert_ne!(drawn[i], drawn[j]);
        }
    }
}
