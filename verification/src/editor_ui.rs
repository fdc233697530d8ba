//! The authoritative model of editor UI workspaces: panels, their tabs, the
//! widgets a tab hosts, focus, and the binary split tree that arranges the
//! panels. Renderers map these ids to their own nodes; a serialized
//! workspace never contains renderer entities.
//!
//! Split ratios and layout rectangles are fractional: the tree carries each
//! split's ratio as a value of the type parameter `R` and never computes with
//! it, so the geometry (bounds, minimum sizes, resizing) is done by the
//! caller that chose `R`.

use vstd::prelude::*;

use crate::text::{decimal, decimal_text, join, owned};

verus! {

/// Identifies one panel of a workspace.
#[derive(Clone, Copy, Debug, PartialEq, Eq, Structural, PartialOrd, Ord, Hash)]
pub struct PanelId(u64);

/// Identifies one tab of a workspace.
#[derive(Clone, Copy, Debug, PartialEq, Eq, Structural, PartialOrd, Ord, Hash)]
pub struct TabId(u64);

/// Identifies one widget hosted by a tab.
#[derive(Clone, Copy, Debug, PartialEq, Eq, Structural, PartialOrd, Ord, Hash)]
pub struct WidgetId(u64);

/// Identifies one split of the layout tree.
#[derive(Clone, Copy, Debug, PartialEq, Eq, Structural, PartialOrd, Ord, Hash)]
pub struct SplitId(u64);

impl View for PanelId {
    type V = u64;

    closed spec fn view(&self) -> u64 {
        self.0
    }
}

impl View for TabId {
    type V = u64;

    closed spec fn view(&self) -> u64 {
        self.0
    }
}

impl View for WidgetId {
    type V = u64;

    closed spec fn view(&self) -> u64 {
        self.0
    }
}

impl View for SplitId {
    type V = u64;

    closed spec fn view(&self) -> u64 {
        self.0
    }
}

impl PanelId {
    pub fn get(self) -> (n: u64)
        ensures
            n == self@,
    {
        self.0
    }

    pub(crate) fn from_raw(n: u64) -> (id: Self)
        ensures
            id@ == n,
    {
        PanelId(n)
    }
}

impl TabId {
    pub fn get(self) -> (n: u64)
        ensures
            n == self@,
    {
        self.0
    }

    pub(crate) fn from_raw(n: u64) -> (id: Self)
        ensures
            id@ == n,
    {
        TabId(n)
    }
}

impl WidgetId {
    pub fn get(self) -> (n: u64)
        ensures
            n == self@,
    {
        self.0
    }

    pub(crate) fn from_raw(n: u64) -> (id: Self)
        ensures
            id@ == n,
    {
        WidgetId(n)
    }
}

impl SplitId {
    pub fn get(self) -> (n: u64)
        ensures
            n == self@,
    {
        self.0
    }

    pub(crate) fn from_raw(n: u64) -> (id: Self)
        ensures
            id@ == n,
    {
        SplitId(n)
    }
}

/// Two ids of one kind are equal exactly when their numbers are.
pub proof fn lemma_ids_by_number()
    ensures
        forall|a: PanelId, b: PanelId| a@ == b@ <==> a == b,
        forall|a: TabId, b: TabId| a@ == b@ <==> a == b,
        forall|a: WidgetId, b: WidgetId| a@ == b@ <==> a == b,
        forall|a: SplitId, b: SplitId| a@ == b@ <==> a == b,
{
    assert forall|a: PanelId, b: PanelId| a@ == b@ implies a == b by {
        assert(a.0 == b.0);
    }
    assert forall|a: TabId, b: TabId| a@ == b@ implies a == b by {
        assert(a.0 == b.0);
    }
    assert forall|a: WidgetId, b: WidgetId| a@ == b@ implies a == b by {
        assert(a.0 == b.0);
    }
    assert forall|a: SplitId, b: SplitId| a@ == b@ implies a == b by {
        assert(a.0 == b.0);
    }
}

/// Which way a split divides its area.
#[derive(Clone, Copy, Debug, PartialEq, Eq, Structural)]
pub enum SplitAxis {
    Horizontal,
    Vertical,
}

/// Visual role only; the persistent identity of a view is its view kind.
#[derive(Clone, Copy, Debug, PartialEq, Eq, Structural)]
pub enum TabRole {
    View,
    Inspector,
    Toolbar,
}

impl Default for TabRole {
    fn default() -> (r: Self)
        ensures
            r == TabRole::View,
    {
        TabRole::View
    }
}

/// One tab: its title, visual role and the widgets it hosts.
#[derive(Clone, Debug, PartialEq, Eq)]
pub struct Tab {
    pub id: TabId,
    pub title: String,
    pub role: TabRole,
    pub widgets: Vec<WidgetId>,
}

/// The mathematical content of a [`Tab`].
pub struct TabView {
    pub id: TabId,
    pub title: Seq<char>,
    pub role: TabRole,
    pub widgets: Seq<WidgetId>,
}

impl View for Tab {
    type V = TabView;

    open spec fn view(&self) -> TabView {
        TabView { id: self.id, title: self.title@, role: self.role, widgets: self.widgets@ }
    }
}

/// One panel: its tabs in order and the one shown.
#[derive(Clone, Debug, PartialEq, Eq)]
pub struct Panel {
    pub id: PanelId,
    pub tabs: Vec<TabId>,
    pub active_tab: Option<TabId>,
}

/// The mathematical content of a [`Panel`].
pub struct PanelView {
    pub id: PanelId,
    pub tabs: Seq<TabId>,
    pub active_tab: Option<TabId>,
}

impl View for Panel {
    type V = PanelView;

    open spec fn view(&self) -> PanelView {
        PanelView { id: self.id, tabs: self.tabs@, active_tab: self.active_tab }
    }
}

/// Why a workspace operation was refused.
#[derive(Debug, Clone, Copy, PartialEq, Eq, Structural)]
pub enum ModelError {
    UnknownPanel(PanelId),
    UnknownTab(TabId),
    UnknownSplit(SplitId),
    /// The final panel cannot be removed.
    LastPanel,
    /// The panel is too small to split without violating the minimum size.
    PanelTooSmall,
}

/// The human-readable description of a refusal.
pub open spec fn model_error_text(e: ModelError) -> Seq<char> {
    match e {
        ModelError::UnknownPanel(p) => "unknown panel PanelId("@ + decimal_text(p@) + ")"@,
        ModelError::UnknownTab(t) => "unknown tab TabId("@ + decimal_text(t@) + ")"@,
        ModelError::UnknownSplit(s) => "unknown split SplitId("@ + decimal_text(s@) + ")"@,
        ModelError::LastPanel => "cannot remove the final panel"@,
        ModelError::PanelTooSmall =>
            "panel is too small to split without violating the minimum size"@,
    }
}

impl ModelError {
    /// Human-readable description of the refusal.
    pub fn message(&self) -> (m: String)
        ensures
            m@ == model_error_text(*self),
    {
        match self {
            ModelError::UnknownPanel(p) => join(
                join(owned("unknown panel PanelId("), decimal(p.0).as_str()),
                ")",
            ),
            ModelError::UnknownTab(t) => join(
                join(owned("unknown tab TabId("), decimal(t.0).as_str()),
                ")",
            ),
            ModelError::UnknownSplit(s) => join(
                join(owned("unknown split SplitId("), decimal(s.0).as_str()),
                ")",
            ),
            ModelError::LastPanel => owned("cannot remove the final panel"),
            ModelError::PanelTooSmall => owned(
                "panel is too small to split without violating the minimum size",
            ),
        }
    }
}

/// The binary tree arranging a workspace's panels. Each split divides its
/// area between `first` and `second` along `axis`; `ratio` is the share of
/// `first`.
#[derive(Debug)]
pub enum LayoutNode<R> {
    Panel(PanelId),
    Split {
        id: SplitId,
        axis: SplitAxis,
        ratio: R,
        first: Box<LayoutNode<R>>,
        second: Box<LayoutNode<R>>,
    },
}

/// True when the tree has a leaf for panel `p`.
pub open spec fn has_panel<R>(n: LayoutNode<R>, p: PanelId) -> bool
    decreases n,
{
    match n {
        LayoutNode::Panel(q) => q == p,
        LayoutNode::Split { first, second, .. } => has_panel(*first, p) || has_panel(*second, p),
    }
}

/// True when the tree has a split with id `s`.
pub open spec fn has_split<R>(n: LayoutNode<R>, s: SplitId) -> bool
    decreases n,
{
    match n {
        LayoutNode::Panel(_) => false,
        LayoutNode::Split { id, first, second, .. } => id == s || has_split(*first, s) || has_split(
            *second,
            s,
        ),
    }
}

/// The number of leaves.
pub open spec fn leaf_count<R>(n: LayoutNode<R>) -> nat
    decreases n,
{
    match n {
        LayoutNode::Panel(_) => 1,
        LayoutNode::Split { first, second, .. } => leaf_count(*first) + leaf_count(*second),
    }
}

/// The tree with the first leaf (depth first, `first` before `second`) for
/// `panel` replaced by a split `split` along `axis` at `half`, whose first
/// side keeps `panel` and whose second side is the new `new_panel`; `None`
/// when the tree has no leaf for `panel`.
pub open spec fn spec_replace_panel<R>(
    n: LayoutNode<R>,
    panel: PanelId,
    new_panel: PanelId,
    split: SplitId,
    axis: SplitAxis,
    half: R,
) -> Option<LayoutNode<R>>
    decreases n,
{
    match n {
        LayoutNode::Panel(id) => if id == panel {
            Some(
                LayoutNode::Split {
                    id: split,
                    axis,
                    ratio: half,
                    first: Box::new(LayoutNode::Panel(panel)),
                    second: Box::new(LayoutNode::Panel(new_panel)),
                },
            )
        } else {
            None
        },
        LayoutNode::Split { id, axis: a, ratio, first, second } => match spec_replace_panel(
            *first,
            panel,
            new_panel,
            split,
            axis,
            half,
        ) {
            Some(f) => Some(
                LayoutNode::Split { id, axis: a, ratio, first: Box::new(f), second },
            ),
            None => match spec_replace_panel(*second, panel, new_panel, split, axis, half) {
                Some(s) => Some(
                    LayoutNode::Split { id, axis: a, ratio, first, second: Box::new(s) },
                ),
                None => None,
            },
        },
    }
}

/// A replacement happens exactly when the panel is in the tree; afterwards
/// the tree holds the same panels and splits plus the new ones.
pub proof fn lemma_replace_panel<R>(
    n: LayoutNode<R>,
    panel: PanelId,
    new_panel: PanelId,
    split: SplitId,
    axis: SplitAxis,
    half: R,
)
    ensures
        spec_replace_panel(n, panel, new_panel, split, axis, half) is Some <==> has_panel(n, panel),
        spec_replace_panel(n, panel, new_panel, split, axis, half) matches Some(r) ==> {
            &&& forall|q: PanelId| has_panel(r, q) <==> (has_panel(n, q) || q == new_panel)
            &&& forall|s: SplitId| has_split(r, s) <==> (has_split(n, s) || s == split)
            &&& leaf_count(r) == leaf_count(n) + 1
        },
    decreases n,
{
    match n {
        LayoutNode::Panel(p) => {
            if p == panel {
                let r = spec_replace_panel(n, panel, new_panel, split, axis, half)->Some_0;
                let l = LayoutNode::<R>::Panel(panel);
                let m = LayoutNode::<R>::Panel(new_panel);
                assert(forall|q: PanelId| has_panel(l, q) <==> q == panel);
                assert(forall|q: PanelId| has_panel(m, q) <==> q == new_panel);
                assert(forall|s: SplitId| !has_split(l, s) && !has_split(m, s));
                assert(leaf_count(l) == 1 && leaf_count(m) == 1);
                assert(forall|q: PanelId| has_panel(r, q) <==> (has_panel(l, q) || has_panel(m, q)));
                assert(forall|s: SplitId| has_split(r, s) <==> (s == split || has_split(l, s) || has_split(m, s)));
                assert(forall|q: PanelId| has_panel(n, q) <==> q == panel);
                assert(forall|s: SplitId| !has_split(n, s));
            }
        },
        LayoutNode::Split { id, axis: ax, ratio, first, second } => {
            let a = *first;
            let b = *second;
            lemma_replace_panel(a, panel, new_panel, split, axis, half);
            lemma_replace_panel(b, panel, new_panel, split, axis, half);
            assert(forall|q: PanelId| has_panel(n, q) <==> (has_panel(a, q) || has_panel(b, q)));
            assert(forall|s: SplitId| has_split(n, s) <==> (s == id || has_split(a, s) || has_split(b, s)));
            let ra = spec_replace_panel(a, panel, new_panel, split, axis, half);
            let rb = spec_replace_panel(b, panel, new_panel, split, axis, half);
            if ra is Some {
                let r = spec_replace_panel(n, panel, new_panel, split, axis, half)->Some_0;
                assert(forall|q: PanelId| has_panel(r, q) <==> (has_panel(ra->Some_0, q) || has_panel(b, q)));
                assert(forall|s: SplitId| has_split(r, s) <==> (s == id || has_split(ra->Some_0, s) || has_split(b, s)));
            } else if rb is Some {
                let r = spec_replace_panel(n, panel, new_panel, split, axis, half)->Some_0;
                assert(forall|q: PanelId| has_panel(r, q) <==> (has_panel(a, q) || has_panel(rb->Some_0, q)));
                assert(forall|s: SplitId| has_split(r, s) <==> (s == id || has_split(a, s) || has_split(rb->Some_0, s)));
            }
        },
    }
}

/// Replaces the leaf of `panel` with a split holding `panel` and
/// `new_panel`, or refuses with `UnknownPanel` (changing nothing) when the
/// tree has no leaf for `panel`.
pub fn replace_panel_with_split<R: Copy>(
    node: &mut LayoutNode<R>,
    panel: PanelId,
    new_panel: PanelId,
    split: SplitId,
    axis: SplitAxis,
    half: R,
) -> (res: Result<(), ModelError>)
    ensures
        match spec_replace_panel(*old(node), panel, new_panel, split, axis, half) {
            Some(r) => res is Ok && *final(node) == r,
            None => res == Err::<(), ModelError>(ModelError::UnknownPanel(panel)) && *final(node)
                == *old(node),
        },
{
    let mut taken = LayoutNode::Panel(panel);
    std::mem::swap(&mut taken, node);
    let (result, replaced) = replaced_panel(taken, panel, new_panel, split, axis, half);
    *node = result;
    if replaced {
        Ok(())
    } else {
        Err(ModelError::UnknownPanel(panel))
    }
}

/// By value: the replaced tree and `true`, or the tree unchanged and
/// `false`.
fn replaced_panel<R: Copy>(
    node: LayoutNode<R>,
    panel: PanelId,
    new_panel: PanelId,
    split: SplitId,
    axis: SplitAxis,
    half: R,
) -> (res: (LayoutNode<R>, bool))
    ensures
        match spec_replace_panel(node, panel, new_panel, split, axis, half) {
            Some(r) => res.1 && res.0 == r,
            None => !res.1 && res.0 == node,
        },
    decreases node,
{
    match node {
        LayoutNode::Panel(id) => {
            if id == panel {
                (
                    LayoutNode::Split {
                        id: split,
                        axis,
                        ratio: half,
                        first: Box::new(LayoutNode::Panel(panel)),
                        second: Box::new(LayoutNode::Panel(new_panel)),
                    },
                    true,
                )
            } else {
                (LayoutNode::Panel(id), false)
            }
        },
        LayoutNode::Split { id, axis: a, ratio, first, second } => {
            let ghost sf = *first;
            let ghost ss = *second;
            let (f, done) = replaced_panel(*first, panel, new_panel, split, axis, half);
            if done {
                (LayoutNode::Split { id, axis: a, ratio, first: Box::new(f), second }, true)
            } else {
                let (s, done2) = replaced_panel(*second, panel, new_panel, split, axis, half);
                (LayoutNode::Split { id, axis: a, ratio, first: Box::new(f), second: Box::new(s) }, done2)
            }
        },
    }
}

/// The tree without the leaves of `target`: a split that loses one side
/// collapses into its other side; `None` when nothing remains.
pub open spec fn spec_remove_panel<R>(n: LayoutNode<R>, target: PanelId) -> Option<LayoutNode<R>>
    decreases n,
{
    match n {
        LayoutNode::Panel(p) => if p == target {
            None
        } else {
            Some(LayoutNode::Panel(p))
        },
        LayoutNode::Split { id, axis, ratio, first, second } => {
            let f = spec_remove_panel(*first, target);
            let s = spec_remove_panel(*second, target);
            match (f, s) {
                (Some(a), Some(b)) => Some(
                    LayoutNode::Split { id, axis, ratio, first: Box::new(a), second: Box::new(b) },
                ),
                (Some(a), None) => Some(a),
                (None, Some(b)) => Some(b),
                (None, None) => None,
            }
        },
    }
}

/// Removing `target` keeps every other panel and loses `target`; something
/// remains exactly when the tree has a panel other than `target`.
pub proof fn lemma_remove_panel<R>(n: LayoutNode<R>, target: PanelId)
    ensures
        spec_remove_panel(n, target) is Some <==> exists|q: PanelId| q != target && has_panel(n, q),
        spec_remove_panel(n, target) matches Some(r) ==> forall|q: PanelId|
            has_panel(r, q) <==> (has_panel(n, q) && q != target),
        spec_remove_panel(n, target) matches Some(r) ==> forall|s: SplitId|
            has_split(r, s) ==> has_split(n, s),
    decreases n,
{
    match n {
        LayoutNode::Panel(p) => {
            assert(forall|q: PanelId| has_panel(n, q) <==> q == p);
            if p != target {
                assert(spec_remove_panel(n, target) == Some(n));
                assert(has_panel(n, p));
            } else {
                assert(spec_remove_panel(n, target) is None);
            }
        },
        LayoutNode::Split { id, axis, ratio, first, second } => {
            let a = *first;
            let b = *second;
            lemma_remove_panel(a, target);
            lemma_remove_panel(b, target);
            assert(forall|q: PanelId| has_panel(n, q) <==> (has_panel(a, q) || has_panel(b, q)));
            assert(forall|s: SplitId| has_split(n, s) <==> (s == id || has_split(a, s) || has_split(b, s)));
            let fa = spec_remove_panel(a, target);
            let fb = spec_remove_panel(b, target);
            if fa is Some {
                let q = choose|q: PanelId| q != target && has_panel(a, q);
                assert(has_panel(n, q));
            } else if fb is Some {
                let q = choose|q: PanelId| q != target && has_panel(b, q);
                assert(has_panel(n, q));
            } else {
                assert forall|q: PanelId| q != target && has_panel(n, q) implies false by {
                    if has_panel(a, q) {
                        assert(exists|q: PanelId| q != target && has_panel(a, q));
                    } else {
                        assert(exists|q: PanelId| q != target && has_panel(b, q));
                    }
                }
            }
            if fa is Some && fb is Some {
                let r = spec_remove_panel(n, target)->Some_0;
                assert(forall|q: PanelId| has_panel(r, q) <==> (has_panel(fa->Some_0, q) || has_panel(fb->Some_0, q)));
                assert(forall|s: SplitId| has_split(r, s) <==> (s == id || has_split(fa->Some_0, s) || has_split(fb->Some_0, s)));
            } else if fa is Some {
                assert forall|q: PanelId| has_panel(b, q) implies q == target by {
                    if q != target {
                        assert(exists|q: PanelId| q != target && has_panel(b, q));
                    }
                }
            } else if fb is Some {
                assert forall|q: PanelId| has_panel(a, q) implies q == target by {
                    if q != target {
                        assert(exists|q: PanelId| q != target && has_panel(a, q));
                    }
                }
            }
        },
    }
}

/// Removing a panel the tree does not have leaves it as it is.
pub proof fn lemma_remove_absent_panel<R>(n: LayoutNode<R>, target: PanelId)
    requires
        !has_panel(n, target),
    ensures
        spec_remove_panel(n, target) == Some(n),
    decreases n,
{
    match n {
        LayoutNode::Panel(_) => {},
        LayoutNode::Split { id, axis, ratio, first, second } => {
            lemma_remove_absent_panel(*first, target);
            lemma_remove_absent_panel(*second, target);
        },
    }
}

/// Removes the leaves of `target`, collapsing their parent splits: the
/// remaining tree (if any) and whether a leaf was removed.
pub fn remove_panel_node<R>(node: LayoutNode<R>, target: PanelId) -> (res: (
    Option<LayoutNode<R>>,
    bool,
))
    ensures
        res.0 == spec_remove_panel(node, target),
        res.1 <==> has_panel(node, target),
    decreases node,
{
    match node {
        LayoutNode::Panel(panel) => {
            if panel == target {
                (None, true)
            } else {
                (Some(LayoutNode::Panel(panel)), false)
            }
        },
        LayoutNode::Split { id, axis, ratio, first, second } => {
            let (first, removed_first) = remove_panel_node(*first, target);
            let (second, removed_second) = remove_panel_node(*second, target);
            let removed = removed_first || removed_second;
            let result = match (first, second) {
                (Some(first), Some(second)) => Some(
                    LayoutNode::Split {
                        id,
                        axis,
                        ratio,
                        first: Box::new(first),
                        second: Box::new(second),
                    },
                ),
                (Some(remaining), None) => Some(remaining),
                (None, Some(remaining)) => Some(remaining),
                (None, None) => None,
            };
            (result, removed)
        },
    }
}

/// The ratio of the first split (depth first, `first` before `second`)
/// with id `s`, if the tree has one.
pub open spec fn spec_split_ratio<R>(n: LayoutNode<R>, s: SplitId) -> Option<R>
    decreases n,
{
    match n {
        LayoutNode::Panel(_) => None,
        LayoutNode::Split { id, ratio, first, second, .. } => if id == s {
            Some(ratio)
        } else {
            match spec_split_ratio(*first, s) {
                Some(r) => Some(r),
                None => spec_split_ratio(*second, s),
            }
        },
    }
}

/// The tree with the ratio of that same split set to `r`; `None` when the
/// tree has no split `s`.
pub open spec fn spec_set_ratio<R>(n: LayoutNode<R>, s: SplitId, r: R) -> Option<LayoutNode<R>>
    decreases n,
{
    match n {
        LayoutNode::Panel(_) => None,
        LayoutNode::Split { id, axis, ratio, first, second } => if id == s {
            Some(LayoutNode::Split { id, axis, ratio: r, first, second })
        } else {
            match spec_set_ratio(*first, s, r) {
                Some(f) => Some(LayoutNode::Split { id, axis, ratio, first: Box::new(f), second }),
                None => match spec_set_ratio(*second, s, r) {
                    Some(t) => Some(
                        LayoutNode::Split { id, axis, ratio, first, second: Box::new(t) },
                    ),
                    None => None,
                },
            }
        },
    }
}

/// A split's ratio is found, and can be set, exactly when the tree has the
/// split; setting it changes no panel and no split.
pub proof fn lemma_set_ratio<R>(n: LayoutNode<R>, s: SplitId, r: R)
    ensures
        spec_split_ratio(n, s) is Some <==> has_split(n, s),
        spec_set_ratio(n, s, r) is Some <==> has_split(n, s),
        spec_set_ratio(n, s, r) matches Some(t) ==> (forall|q: PanelId| has_panel(t, q) <==> has_panel(n, q))
            && (forall|x: SplitId| has_split(t, x) <==> has_split(n, x)),
    decreases n,
{
    match n {
        LayoutNode::Panel(_) => {},
        LayoutNode::Split { id, axis, ratio, first, second } => {
            let a = *first;
            let b = *second;
            lemma_set_ratio(a, s, r);
            lemma_set_ratio(b, s, r);
            assert(forall|q: PanelId| has_panel(n, q) <==> (has_panel(a, q) || has_panel(b, q)));
            assert(forall|x: SplitId| has_split(n, x) <==> (x == id || has_split(a, x) || has_split(b, x)));
            if spec_set_ratio(n, s, r) is Some {
                let t = spec_set_ratio(n, s, r)->Some_0;
                if id == s {
                    assert(forall|q: PanelId| has_panel(t, q) <==> (has_panel(a, q) || has_panel(b, q)));
                    assert(forall|x: SplitId| has_split(t, x) <==> (x == id || has_split(a, x) || has_split(b, x)));
                } else if spec_set_ratio(a, s, r) is Some {
                    let fa = spec_set_ratio(a, s, r)->Some_0;
                    assert(forall|q: PanelId| has_panel(t, q) <==> (has_panel(fa, q) || has_panel(b, q)));
                    assert(forall|x: SplitId| has_split(t, x) <==> (x == id || has_split(fa, x) || has_split(b, x)));
                } else {
                    let fb = spec_set_ratio(b, s, r)->Some_0;
                    assert(forall|q: PanelId| has_panel(t, q) <==> (has_panel(a, q) || has_panel(fb, q)));
                    assert(forall|x: SplitId| has_split(t, x) <==> (x == id || has_split(a, x) || has_split(fb, x)));
                }
            }
        },
    }
}

/// The ratio of the first split with id `s`, if any.
pub fn split_ratio_of<R: Copy>(node: &LayoutNode<R>, s: SplitId) -> (r: Option<R>)
    ensures
        r == spec_split_ratio(*node, s),
    decreases node,
{
    match node {
        LayoutNode::Panel(_) => None,
        LayoutNode::Split { id, ratio, first, second, .. } => {
            if *id == s {
                Some(*ratio)
            } else {
                match split_ratio_of(first, s) {
                    Some(r) => Some(r),
                    None => split_ratio_of(second, s),
                }
            }
        },
    }
}

/// By value: the tree with the ratio of the first split `s` set to `r`,
/// and whether there was such a split (the tree is unchanged otherwise).
fn with_ratio<R: Copy>(node: LayoutNode<R>, s: SplitId, r: R) -> (res: (LayoutNode<R>, bool))
    ensures
        match spec_set_ratio(node, s, r) {
            Some(t) => res.1 && res.0 == t,
            None => !res.1 && res.0 == node,
        },
    decreases node,
{
    match node {
        LayoutNode::Panel(p) => (LayoutNode::Panel(p), false),
        LayoutNode::Split { id, axis, ratio, first, second } => {
            if id == s {
                (LayoutNode::Split { id, axis, ratio: r, first, second }, true)
            } else {
                let (f, done) = with_ratio(*first, s, r);
                if done {
                    (LayoutNode::Split { id, axis, ratio, first: Box::new(f), second }, true)
                } else {
                    let (t, done2) = with_ratio(*second, s, r);
                    (
                        LayoutNode::Split {
                            id,
                            axis,
                            ratio,
                            first: Box::new(f),
                            second: Box::new(t),
                        },
                        done2,
                    )
                }
            }
        },
    }
}

/// Sets the ratio of the first split `s` to `r`, or refuses with
/// `UnknownSplit` (changing nothing) when the tree has no such split.
pub fn set_split_ratio_in<R: Copy>(node: &mut LayoutNode<R>, s: SplitId, r: R) -> (res: Result<
    (),
    ModelError,
>)
    ensures
        match spec_set_ratio(*old(node), s, r) {
            Some(t) => res is Ok && *final(node) == t,
            None => res == Err::<(), ModelError>(ModelError::UnknownSplit(s)) && *final(node)
                == *old(node),
        },
{
    let mut taken = LayoutNode::Panel(PanelId(0));
    std::mem::swap(&mut taken, node);
    let (result, done) = with_ratio(taken, s, r);
    *node = result;
    if done {
        Ok(())
    } else {
        Err(ModelError::UnknownSplit(s))
    }
}


/// The panels of the tree's leaves, left to right (`first` before
/// `second`).
pub open spec fn leaf_order<R>(n: LayoutNode<R>) -> Seq<PanelId>
    decreases n,
{
    match n {
        LayoutNode::Panel(p) => seq![p],
        LayoutNode::Split { first, second, .. } => leaf_order(*first) + leaf_order(*second),
    }
}

/// The axis of the first split (depth first, `first` before `second`) with
/// id `s`, if the tree has one.
pub open spec fn split_axis_of<R>(n: LayoutNode<R>, s: SplitId) -> Option<SplitAxis>
    decreases n,
{
    match n {
        LayoutNode::Panel(_) => None,
        LayoutNode::Split { id, axis, first, second, .. } => if id == s {
            Some(axis)
        } else {
            match split_axis_of(*first, s) {
                Some(a) => Some(a),
                None => split_axis_of(*second, s),
            }
        },
    }
}

/// Setting the ratio of split `s` moves that split only: afterwards `s`
/// has ratio `r`, every other split keeps the ratio it had, every split
/// keeps its axis, and the panels keep their places, left to right.
pub proof fn law_set_ratio_moves_only_that_split<R>(n: LayoutNode<R>, s: SplitId, r: R)
    ensures
        spec_set_ratio(n, s, r) matches Some(t) ==> spec_split_ratio(t, s) == Some(r)
            && (forall|x: SplitId| x != s ==> #[trigger] spec_split_ratio(t, x) == spec_split_ratio(n, x))
            && (forall|x: SplitId| #[trigger] split_axis_of(t, x) == split_axis_of(n, x))
            && leaf_order(t) == leaf_order(n),
    decreases n,
{
    match n {
        LayoutNode::Panel(_) => {},
        LayoutNode::Split { id, axis, ratio, first, second } => {
            let a = *first;
            let b = *second;
            law_set_ratio_moves_only_that_split(a, s, r);
            law_set_ratio_moves_only_that_split(b, s, r);
            lemma_set_ratio(a, s, r);
            if spec_set_ratio(n, s, r) is Some && id != s {
                let t = spec_set_ratio(n, s, r)->Some_0;
                if spec_set_ratio(a, s, r) is Some {
                    let fa = spec_set_ratio(a, s, r)->Some_0;
                    assert(t == LayoutNode::Split { id, axis, ratio, first: Box::new(fa), second });
                    assert forall|x: SplitId| x != s implies #[trigger] spec_split_ratio(t, x)
                        == spec_split_ratio(n, x) by {
                        assert(spec_split_ratio(fa, x) == spec_split_ratio(a, x));
                    }
                    assert forall|x: SplitId| #[trigger] split_axis_of(t, x) == split_axis_of(n, x) by {
                        assert(split_axis_of(fa, x) == split_axis_of(a, x));
                    }
                } else {
                    let fb = spec_set_ratio(b, s, r)->Some_0;
                    assert(t == LayoutNode::Split { id, axis, ratio, first, second: Box::new(fb) });
                    assert(spec_split_ratio(a, s) is None);
                    assert forall|x: SplitId| x != s implies #[trigger] spec_split_ratio(t, x)
                        == spec_split_ratio(n, x) by {
                        assert(spec_split_ratio(fb, x) == spec_split_ratio(b, x));
                    }
                    assert forall|x: SplitId| #[trigger] split_axis_of(t, x) == split_axis_of(n, x) by {
                        assert(split_axis_of(fb, x) == split_axis_of(b, x));
                    }
                }
            }
        },
    }
}

} // verus!
