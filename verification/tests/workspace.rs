use northstar::editor_ui::{
    remove_panel_node, LayoutNode, ModelError, PanelId, SplitAxis, SplitId, TabRole,
};
use northstar::ui_model::EditorUiModel;

fn fresh() -> (EditorUiModel<f32>, PanelId) {
    let model = EditorUiModel::new(0.08f32);
    let first = model.focused_panel().unwrap();
    (model, first)
}

/// The horizontal splits of the tree, depth first.
fn horizontal_splits(node: &LayoutNode<f32>, out: &mut Vec<(SplitId, f32)>) {
    if let LayoutNode::Split { id, axis, ratio, first, second } = node {
        if *axis == SplitAxis::Horizontal {
            out.push((*id, *ratio));
        }
        horizontal_splits(first, out);
        horizontal_splits(second, out);
    }
}

#[test]
fn a_new_workspace_has_one_focused_panel_with_one_tab() {
    let (model, first) = fresh();
    assert_eq!(first.get(), 0);
    assert_eq!(model.panels().len(), 1);
    let tab = model.focused_tab().unwrap();
    assert_eq!(model.panel(first).unwrap().tabs, vec![tab]);
    assert_eq!(model.panel(first).unwrap().active_tab, Some(tab));
    assert_eq!(model.tab(tab).unwrap().title, "Panel 0");
    assert_eq!(model.tab(tab).unwrap().role, TabRole::View);
    assert_eq!(TabRole::default(), TabRole::View);
    assert_eq!(model.min_panel_size(), 0.08);
    assert!(matches!(model.layout(), LayoutNode::Panel(p) if *p == first));
}

#[test]
fn tabs_move_without_changing_identity() {
    let (mut model, first) = fresh();
    let destination = model.split_panel_along(first, SplitAxis::Vertical, 0.5).unwrap();
    let tab = model.add_tab(first, "Viewport", TabRole::View).unwrap();
    model.move_tab(tab, destination).unwrap();
    assert!(model.panel(destination).unwrap().tabs.contains(&tab));
    assert_eq!(model.tab(tab).unwrap().title, "Viewport");
}

#[test]
fn removing_panel_collapses_only_its_topological_parent() {
    let (mut model, first) = fresh();
    let right = model.split_panel_along(first, SplitAxis::Vertical, 0.5).unwrap();
    let bottom_right = model.split_panel_along(right, SplitAxis::Horizontal, 0.5).unwrap();
    model.remove_panel(bottom_right).unwrap();
    // The left panel's parent split is untouched, so its bounds are too.
    match model.layout() {
        LayoutNode::Split { axis, ratio, first: a, second: b, .. } => {
            assert_eq!(*axis, SplitAxis::Vertical);
            assert_eq!(*ratio, 0.5);
            assert!(matches!(**a, LayoutNode::Panel(p) if p == first));
            assert!(matches!(**b, LayoutNode::Panel(p) if p == right));
        }
        other => panic!("unexpected layout {other:?}"),
    }
    assert_eq!(model.panels().len(), 2);
}

#[test]
fn disconnected_equal_coordinates_have_distinct_split_ids() {
    let (mut model, first) = fresh();
    let right = model.split_panel_along(first, SplitAxis::Vertical, 0.5).unwrap();
    model.split_panel_along(first, SplitAxis::Horizontal, 0.5).unwrap();
    model.split_panel_along(right, SplitAxis::Horizontal, 0.5).unwrap();
    let mut horizontal = Vec::new();
    horizontal_splits(model.layout(), &mut horizontal);
    assert_eq!(horizontal.len(), 2);
    assert_ne!(horizontal[0].0, horizontal[1].0);

    model.set_split_ratio(horizontal[0].0, 0.6).unwrap();
    assert_eq!(model.split_ratio(horizontal[0].0), Some(0.6));
    assert_eq!(model.split_ratio(horizontal[1].0), Some(horizontal[1].1));
}

#[test]
fn splitting_adds_a_panel_with_its_own_tab() {
    let (mut model, first) = fresh();
    let second = model.split_panel_along(first, SplitAxis::Vertical, 0.5).unwrap();
    assert_eq!(second.get(), 1);
    let panel = model.panel(second).unwrap();
    assert_eq!(panel.tabs.len(), 1);
    let tab = panel.tabs[0];
    assert_eq!(panel.active_tab, Some(tab));
    assert_eq!(model.tab(tab).unwrap().title, "Panel 1");
    // Splitting does not move focus.
    assert_eq!(model.focused_panel(), Some(first));
    let ids: Vec<u64> = model.panels().iter().map(|p| p.id.get()).collect();
    assert_eq!(ids, vec![0, 1]);
}

#[test]
fn unknown_ids_are_refused() {
    let (mut model, first) = fresh();
    let second = model.split_panel_along(first, SplitAxis::Vertical, 0.5).unwrap();
    model.remove_panel(second).unwrap();
    // One panel left: the last panel is refused before the id is looked at.
    assert_eq!(model.remove_panel(second), Err(ModelError::LastPanel));
    assert_eq!(model.remove_panel(first), Err(ModelError::LastPanel));
    let third = model.split_panel_along(first, SplitAxis::Vertical, 0.5).unwrap();
    assert_eq!(third.get(), 2);
    assert_eq!(model.remove_panel(second), Err(ModelError::UnknownPanel(second)));
    model.remove_panel(third).unwrap();
    assert_eq!(
        model.add_tab(second, "x", TabRole::Toolbar),
        Err(ModelError::UnknownPanel(second))
    );
    assert_eq!(
        model.split_panel_along(second, SplitAxis::Vertical, 0.5),
        Err(ModelError::UnknownPanel(second))
    );
    let gone_tab = model.focused_tab().unwrap();
    let tab = model.add_tab(first, "Inspector", TabRole::Inspector).unwrap();
    assert_ne!(tab, gone_tab);
    assert!(model.panel(second).is_none());
    assert_eq!(
        ModelError::UnknownPanel(second).message(),
        format!("unknown panel PanelId({})", second.get())
    );
    assert_eq!(ModelError::LastPanel.message(), "cannot remove the final panel");
    assert_eq!(
        ModelError::PanelTooSmall.message(),
        "panel is too small to split without violating the minimum size"
    );
}

#[test]
fn removing_the_focused_panel_focuses_the_first_remaining_one() {
    let (mut model, first) = fresh();
    let second = model.split_panel_along(first, SplitAxis::Vertical, 0.5).unwrap();
    let tab = model.add_tab(second, "Inspector", TabRole::Inspector).unwrap();
    assert_eq!(model.focused_panel(), Some(second));
    assert_eq!(model.focused_tab(), Some(tab));
    model.remove_panel(second).unwrap();
    assert_eq!(model.focused_panel(), Some(first));
    assert_eq!(model.focused_tab(), model.panel(first).unwrap().active_tab);
    // The removed panel's tabs are gone with it.
    assert!(model.tab(tab).is_none());
    assert_eq!(model.tabs().len(), 1);
}

#[test]
fn moving_the_shown_tab_shows_the_next_one_in_the_source() {
    let (mut model, first) = fresh();
    let original = model.focused_tab().unwrap();
    let second = model.split_panel_along(first, SplitAxis::Vertical, 0.5).unwrap();
    let extra = model.add_tab(first, "Extra", TabRole::View).unwrap();
    assert_eq!(model.panel(first).unwrap().active_tab, Some(extra));
    model.move_tab(extra, second).unwrap();
    assert_eq!(model.panel(first).unwrap().tabs, vec![original]);
    assert_eq!(model.panel(first).unwrap().active_tab, Some(original));
    assert_eq!(model.panel(second).unwrap().active_tab, Some(extra));
    assert_eq!(model.focused_panel(), Some(second));
    assert_eq!(model.focused_tab(), Some(extra));

    model.activate_tab(original).unwrap();
    assert_eq!(model.focused_panel(), Some(first));
    assert_eq!(model.focused_tab(), Some(original));
}

#[test]
fn widgets_are_numbered_across_tabs() {
    let (mut model, first) = fresh();
    let a = model.focused_tab().unwrap();
    let b = model.add_tab(first, "Second", TabRole::View).unwrap();
    let w0 = model.allocate_widget(a).unwrap();
    let w1 = model.allocate_widget(b).unwrap();
    let w2 = model.allocate_widget(a).unwrap();
    assert_eq!((w0.get(), w1.get(), w2.get()), (0, 1, 2));
    assert_eq!(model.tab(a).unwrap().widgets, vec![w0, w2]);
    assert_eq!(model.tab(b).unwrap().widgets, vec![w1]);

    model.remove_panel(first).unwrap_err();
    let second = model.split_panel_along(first, SplitAxis::Vertical, 0.5).unwrap();
    model.remove_panel(first).unwrap();
    assert_eq!(model.allocate_widget(a), Err(ModelError::UnknownTab(a)));
    assert_eq!(model.move_tab(a, second), Err(ModelError::UnknownTab(a)));
    assert_eq!(model.activate_tab(a), Err(ModelError::UnknownTab(a)));
}

#[test]
fn removing_a_leaf_collapses_its_parent_split() {
    let (mut model, first) = fresh();
    let second = model.split_panel_along(first, SplitAxis::Horizontal, 0.25).unwrap();
    let split = match model.layout() {
        LayoutNode::Split { id, .. } => *id,
        LayoutNode::Panel(_) => panic!("expected a split"),
    };
    assert_eq!(split.get(), 0);
    assert_eq!(model.split_ratio(split), Some(0.25));
    assert_eq!(
        model.set_split_ratio(SplitId::clone(&split), 0.75),
        Ok(())
    );
    let tree = LayoutNode::Split {
        id: split,
        axis: SplitAxis::Horizontal,
        ratio: 0.25f32,
        first: Box::new(LayoutNode::Panel(first)),
        second: Box::new(LayoutNode::Panel(second)),
    };
    let (rest, removed) = remove_panel_node(tree, first);
    assert!(removed);
    assert!(matches!(rest, Some(LayoutNode::Panel(p)) if p == second));

    model.remove_panel(first).unwrap();
    assert!(matches!(model.layout(), LayoutNode::Panel(p) if *p == second));
    assert_eq!(model.split_ratio(split), None);
    assert_eq!(model.set_split_ratio(split, 0.5), Err(ModelError::UnknownSplit(split)));
}
