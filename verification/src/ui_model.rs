//! The editor UI workspace model: which panels exist, which tabs each one
//! holds and shows, the widgets of each tab, what has focus, and the split
//! tree arranging the panels. Every id is handed out once, from a counter.

use vstd::prelude::*;

use crate::editor_ui::{
    has_panel, has_split, lemma_remove_absent_panel, lemma_remove_panel, lemma_set_ratio,
    set_split_ratio_in, spec_set_ratio, spec_split_ratio, split_ratio_of, lemma_replace_panel, remove_panel_node,
    replace_panel_with_split, spec_remove_panel, spec_replace_panel, LayoutNode, ModelError, Panel,
    PanelId, PanelView, SplitAxis, SplitId, Tab, TabId, TabRole, TabView, WidgetId,
};
use crate::text::{decimal, decimal_text, join, owned};

verus! {

/// The panels' contents, in ascending id order.
pub open spec fn panel_views(v: Seq<Panel>) -> Seq<PanelView> {
    v.map_values(|p: Panel| p@)
}

/// The tabs' contents, in ascending id order.
pub open spec fn tab_views(v: Seq<Tab>) -> Seq<TabView> {
    v.map_values(|t: Tab| t@)
}

/// The mathematical content of an [`EditorUiModel`].
pub struct UiModelView<R> {
    pub root: LayoutNode<R>,
    pub panels: Seq<PanelView>,
    pub tabs: Seq<TabView>,
    pub focused_panel: Option<PanelId>,
    pub focused_tab: Option<TabId>,
    pub min_panel_size: R,
    pub next_panel: u64,
    pub next_tab: u64,
    pub next_widget: u64,
    pub next_split: u64,
}

/// Position of the panel `id` in `ps`, or `ps.len()` when it is absent.
pub open spec fn panel_pos(ps: Seq<PanelView>, id: PanelId) -> int
    decreases ps.len(),
{
    if ps.len() == 0 {
        0
    } else if ps[0].id == id {
        0
    } else {
        1 + panel_pos(ps.drop_first(), id)
    }
}

/// Position of the first panel (in id order) whose tabs include `tab`, or
/// `ps.len()` when none does.
pub open spec fn holder_pos(ps: Seq<PanelView>, tab: TabId) -> int
    decreases ps.len(),
{
    if ps.len() == 0 {
        0
    } else if ps[0].tabs.contains(tab) {
        0
    } else {
        1 + holder_pos(ps.drop_first(), tab)
    }
}

/// Position of the tab `id` in `ts`, or `ts.len()` when it is absent.
pub open spec fn tab_pos(ts: Seq<TabView>, id: TabId) -> int
    decreases ts.len(),
{
    if ts.len() == 0 {
        0
    } else if ts[0].id == id {
        0
    } else {
        1 + tab_pos(ts.drop_first(), id)
    }
}

proof fn lemma_panel_pos(ps: Seq<PanelView>, id: PanelId)
    ensures
        0 <= panel_pos(ps, id) <= ps.len(),
        panel_pos(ps, id) < ps.len() ==> ps[panel_pos(ps, id)].id == id,
        forall|j: int| 0 <= j < panel_pos(ps, id) ==> #[trigger] ps[j].id != id,
    decreases ps.len(),
{
    if ps.len() > 0 && ps[0].id != id {
        lemma_panel_pos(ps.drop_first(), id);
        assert forall|j: int| 0 <= j < panel_pos(ps, id) implies #[trigger] ps[j].id != id by {
            if j > 0 {
                assert(ps[j] == ps.drop_first()[j - 1]);
            }
        }
    }
}

proof fn lemma_holder_pos(ps: Seq<PanelView>, tab: TabId)
    ensures
        0 <= holder_pos(ps, tab) <= ps.len(),
        holder_pos(ps, tab) < ps.len() ==> ps[holder_pos(ps, tab)].tabs.contains(tab),
        forall|j: int| 0 <= j < holder_pos(ps, tab) ==> !(#[trigger] ps[j]).tabs.contains(tab),
    decreases ps.len(),
{
    if ps.len() > 0 && !ps[0].tabs.contains(tab) {
        lemma_holder_pos(ps.drop_first(), tab);
        assert forall|j: int| 0 <= j < holder_pos(ps, tab) implies !(#[trigger] ps[j]).tabs.contains(
            tab,
        ) by {
            if j > 0 {
                assert(ps[j] == ps.drop_first()[j - 1]);
            }
        }
    }
}

proof fn lemma_tab_pos(ts: Seq<TabView>, id: TabId)
    ensures
        0 <= tab_pos(ts, id) <= ts.len(),
        tab_pos(ts, id) < ts.len() ==> ts[tab_pos(ts, id)].id == id,
        forall|j: int| 0 <= j < tab_pos(ts, id) ==> #[trigger] ts[j].id != id,
    decreases ts.len(),
{
    if ts.len() > 0 && ts[0].id != id {
        lemma_tab_pos(ts.drop_first(), id);
        assert forall|j: int| 0 <= j < tab_pos(ts, id) implies #[trigger] ts[j].id != id by {
            if j > 0 {
                assert(ts[j] == ts.drop_first()[j - 1]);
            }
        }
    }
}

/// Positions by id depend on the ids alone.
proof fn lemma_panel_pos_same_ids(ps: Seq<PanelView>, qs: Seq<PanelView>, id: PanelId)
    requires
        ps.len() == qs.len(),
        forall|j: int| 0 <= j < ps.len() ==> (#[trigger] ps[j]).id == qs[j].id,
    ensures
        panel_pos(ps, id) == panel_pos(qs, id),
    decreases ps.len(),
{
    if ps.len() > 0 {
        assert(ps[0].id == qs[0].id);
        if ps[0].id != id {
            assert forall|j: int| 0 <= j < ps.drop_first().len() implies (
            #[trigger] ps.drop_first()[j]).id == qs.drop_first()[j].id by {
                assert(ps.drop_first()[j] == ps[j + 1]);
                assert(qs.drop_first()[j] == qs[j + 1]);
            }
            lemma_panel_pos_same_ids(ps.drop_first(), qs.drop_first(), id);
        }
    }
}

/// A panel is found exactly when some entry has its id.
proof fn lemma_panel_pos_found(ps: Seq<PanelView>, id: PanelId)
    ensures
        panel_pos(ps, id) < ps.len() <==> exists|i: int| 0 <= i < ps.len() && (#[trigger] ps[i]).id == id,
{
    lemma_panel_pos(ps, id);
    if panel_pos(ps, id) < ps.len() {
        assert(ps[panel_pos(ps, id)].id == id);
    }
}

/// `s` without any occurrence of `t`, order kept.
pub open spec fn without(s: Seq<TabId>, t: TabId) -> Seq<TabId>
    decreases s.len(),
{
    if s.len() == 0 {
        s
    } else if s.last() == t {
        without(s.drop_last(), t)
    } else {
        without(s.drop_last(), t).push(s.last())
    }
}

/// `ts` without the tabs whose ids are in `ids`, order kept.
pub open spec fn drop_tabs(ts: Seq<TabView>, ids: Seq<TabId>) -> Seq<TabView>
    decreases ts.len(),
{
    if ts.len() == 0 {
        ts
    } else if ids.contains(ts.last().id) {
        drop_tabs(ts.drop_last(), ids)
    } else {
        drop_tabs(ts.drop_last(), ids).push(ts.last())
    }
}

/// The title of the first tab of panel `n`: `Panel <n>`.
pub open spec fn default_tab_title(n: u64) -> Seq<char> {
    "Panel "@ + decimal_text(n)
}

/// The panels after moving `tab` from the panel at `h` to panel
/// `to_panel` at `d`: the source loses the tab (and shows its first
/// remaining tab if it was showing the moved one), the destination gains it
/// at the end and shows it. Nothing changes when the tab already is there.
pub open spec fn moved_panels(ps: Seq<PanelView>, h: int, d: int, tab: TabId, to_panel: PanelId) -> Seq<
    PanelView,
> {
    if ps[h].id == to_panel {
        ps
    } else {
        let rest = without(ps[h].tabs, tab);
        let source = PanelView {
            tabs: rest,
            active_tab: if ps[h].active_tab == Some(tab) {
                if rest.len() > 0 {
                    Some(rest[0])
                } else {
                    None
                }
            } else {
                ps[h].active_tab
            },
            ..ps[h]
        };
        ps.update(h, source).update(
            d,
            PanelView { tabs: ps[d].tabs.push(tab), active_tab: Some(tab), ..ps[d] },
        )
    }
}

/// Strictly ascending tab ids.
pub open spec fn tabs_ascending(ts: Seq<TabView>) -> bool {
    forall|i: int, j: int| 0 <= i < j < ts.len() ==> (#[trigger] ts[i]).id@ < (#[trigger] ts[j]).id@
}

/// Dropping tabs keeps the others, in their order.
proof fn lemma_drop_tabs(ts: Seq<TabView>, ids: Seq<TabId>)
    ensures
        forall|i: int|
            0 <= i < drop_tabs(ts, ids).len() ==> exists|j: int|
                0 <= j < ts.len() && #[trigger] drop_tabs(ts, ids)[i] == ts[j],
        tabs_ascending(ts) ==> tabs_ascending(drop_tabs(ts, ids)),
    decreases ts.len(),
{
    if ts.len() > 0 {
        let init = ts.drop_last();
        lemma_drop_tabs(init, ids);
        let sub = drop_tabs(init, ids);
        assert forall|i: int| 0 <= i < sub.len() implies exists|j: int|
            0 <= j < ts.len() && #[trigger] sub[i] == ts[j] by {
            let j = choose|j: int| 0 <= j < init.len() && #[trigger] sub[i] == init[j];
            assert(ts[j] == init[j]);
        }
        if !ids.contains(ts.last().id) {
            let r = sub.push(ts.last());
            assert forall|i: int| 0 <= i < r.len() implies exists|j: int|
                0 <= j < ts.len() && #[trigger] r[i] == ts[j] by {
                if i == sub.len() {
                    assert(r[i] == ts[ts.len() - 1]);
                } else {
                    assert(r[i] == sub[i]);
                }
            }
            if tabs_ascending(ts) {
                assert(tabs_ascending(init)) by {
                    assert forall|a: int, b: int| 0 <= a < b < init.len() implies (
                    #[trigger] init[a]).id@ < (#[trigger] init[b]).id@ by {
                        assert(init[a] == ts[a] && init[b] == ts[b]);
                    }
                }
                assert forall|a: int, b: int| 0 <= a < b < r.len() implies (#[trigger] r[a]).id@ < (
                #[trigger] r[b]).id@ by {
                    if b == sub.len() {
                        let j = choose|j: int| 0 <= j < init.len() && #[trigger] sub[a] == init[j];
                        assert(init[j] == ts[j]);
                        assert(r[a] == sub[a]);
                        assert(ts[j].id@ < ts[ts.len() - 1].id@);
                    } else {
                        assert(r[a] == sub[a] && r[b] == sub[b]);
                    }
                }
            }
        } else {
            if tabs_ascending(ts) {
                assert forall|a: int, b: int| 0 <= a < b < init.len() implies (
                #[trigger] init[a]).id@ < (#[trigger] init[b]).id@ by {
                    assert(init[a] == ts[a] && init[b] == ts[b]);
                }
            }
        }
    }
}

/// The workspace after removing `panel` (at `panel_pos`) from the tree and
/// the panel list, together with its tabs; if it had focus, focus moves to
/// the remaining panel with the smallest id and the tab it shows.
pub open spec fn removed_view<R>(m: UiModelView<R>, panel: PanelId) -> UiModelView<R> {
    let j = panel_pos(m.panels, panel);
    let panels = m.panels.remove(j);
    let refocus = m.focused_panel == Some(panel);
    UiModelView {
        root: spec_remove_panel(m.root, panel)->Some_0,
        panels,
        tabs: drop_tabs(m.tabs, m.panels[j].tabs),
        focused_panel: if refocus {
            Some(panels[0].id)
        } else {
            m.focused_panel
        },
        focused_tab: if refocus {
            panels[0].active_tab
        } else {
            m.focused_tab
        },
        ..m
    }
}

impl<R> UiModelView<R> {
    /// The model's invariant: panels and tabs are kept in strictly
    /// ascending id order, every id is below its counter, the split tree
    /// holds exactly the listed panels, and every split id is below its
    /// counter.
    pub open spec fn well_formed(self) -> bool {
        &&& forall|i: int, j: int|
            0 <= i < j < self.panels.len() ==> (#[trigger] self.panels[i]).id@ < (
            #[trigger] self.panels[j]).id@
        &&& forall|i: int| 0 <= i < self.panels.len() ==> (#[trigger] self.panels[i]).id@ < self.next_panel
        &&& forall|i: int, j: int|
            0 <= i < j < self.tabs.len() ==> (#[trigger] self.tabs[i]).id@ < (
            #[trigger] self.tabs[j]).id@
        &&& forall|i: int| 0 <= i < self.tabs.len() ==> (#[trigger] self.tabs[i]).id@ < self.next_tab
        &&& forall|p: PanelId| has_panel(self.root, p) <==> panel_pos(self.panels, p) < self.panels.len()
        &&& forall|s: SplitId| has_split(self.root, s) ==> s@ < self.next_split
    }
}

/// The fields of an [`EditorUiModel`]; its operations assume and keep
/// [`UiModelView::well_formed`].
#[derive(Debug)]
struct ModelState<R> {
    root: LayoutNode<R>,
    panels: Vec<Panel>,
    tabs: Vec<Tab>,
    focused_panel: Option<PanelId>,
    focused_tab: Option<TabId>,
    min_panel_size: R,
    next_panel: u64,
    next_tab: u64,
    next_widget: u64,
    next_split: u64,
}

impl<R> View for ModelState<R> {
    type V = UiModelView<R>;

    closed spec fn view(&self) -> UiModelView<R> {
        UiModelView {
            root: self.root,
            panels: panel_views(self.panels@),
            tabs: tab_views(self.tabs@),
            focused_panel: self.focused_panel,
            focused_tab: self.focused_tab,
            min_panel_size: self.min_panel_size,
            next_panel: self.next_panel,
            next_tab: self.next_tab,
            next_widget: self.next_widget,
            next_split: self.next_split,
        }
    }
}

/// True when `v` holds `t`.
fn holds_tab(v: &Vec<TabId>, t: TabId) -> (b: bool)
    ensures
        b == v@.contains(t),
{
    let mut i: usize = 0;
    while i < v.len()
        invariant
            i <= v@.len(),
            forall|j: int| 0 <= j < i ==> v@[j] != t,
        decreases v@.len() - i,
    {
        if v[i] == t {
            assert(v@[i as int] == t);
            return true;
        }
        i = i + 1;
    }
    false
}

/// `v` without `t`.
fn tabs_without(v: &Vec<TabId>, t: TabId) -> (r: Vec<TabId>)
    ensures
        r@ == without(v@, t),
{
    let mut r: Vec<TabId> = Vec::new();
    let mut i: usize = 0;
    assert(v@.take(0) =~= Seq::<TabId>::empty());
    while i < v.len()
        invariant
            i <= v@.len(),
            r@ == without(v@.take(i as int), t),
        decreases v@.len() - i,
    {
        assert(v@.take(i + 1).drop_last() =~= v@.take(i as int));
        assert(v@.take(i + 1).last() == v@[i as int]);
        if v[i] != t {
            r.push(v[i]);
        }
        i = i + 1;
    }
    assert(v@.take(v@.len() as int) =~= v@);
    r
}

/// Removes from `tabs` every tab whose id is in `ids`.
fn drop_tabs_in(tabs: &mut Vec<Tab>, ids: &Vec<TabId>)
    ensures
        tab_views(final(tabs)@) == drop_tabs(tab_views(old(tabs)@), ids@),
{
    let ghost ts = tab_views(tabs@);
    let n = tabs.len();
    let mut i: usize = 0;
    let mut k: usize = 0;
    assert(ts.take(0) =~= Seq::<TabView>::empty());
    assert(tab_views(tabs@) =~= drop_tabs(ts.take(0), ids@) + ts.skip(0));
    while k < n
        invariant
            n == ts.len(),
            k <= n,
            i <= k,
            i as int == drop_tabs(ts.take(k as int), ids@).len(),
            tab_views(tabs@) == drop_tabs(ts.take(k as int), ids@) + ts.skip(k as int),
        decreases n - k,
    {
        let ghost before = tab_views(tabs@);
        assert(before.len() == tabs@.len());
        assert(before.len() == i + (n - k));
        assert(before[i as int] == ts[k as int]);
        assert(ts.take(k + 1).drop_last() =~= ts.take(k as int));
        assert(ts.take(k + 1).last() == ts[k as int]);
        assert(tabs@[i as int]@ == ts[k as int]);
        let ghost d = drop_tabs(ts.take(k as int), ids@);
        assert(ts.skip(k as int) =~= seq![ts[k as int]] + ts.skip(k + 1));
        if holds_tab(ids, tabs[i].id) {
            let _ = tabs.remove(i);
            assert(drop_tabs(ts.take(k + 1), ids@) == d);
            assert(tab_views(tabs@) =~= before.remove(i as int));
            assert(tab_views(tabs@) =~= drop_tabs(ts.take(k + 1), ids@) + ts.skip(k + 1));
        } else {
            assert(drop_tabs(ts.take(k + 1), ids@) == d.push(ts[k as int]));
            assert(i < tabs@.len());
            i = i + 1;
            assert(tab_views(tabs@) =~= drop_tabs(ts.take(k + 1), ids@) + ts.skip(k + 1));
        }
        k = k + 1;
    }
    assert(ts.take(n as int) =~= ts);
    assert(ts.skip(n as int) =~= Seq::<TabView>::empty());
    assert(tab_views(tabs@) =~= drop_tabs(ts, ids@));
}

impl<R: Copy> ModelState<R> {
    /// A workspace of one panel (`0`) holding one tab (`0`, titled
    /// `Panel 0`), both focused. `min_panel_size` is the caller's minimum
    /// panel extent.
    fn new(min_panel_size: R) -> (m: Self)
        ensures
            m@.well_formed(),
            m@.root == LayoutNode::<R>::Panel(m@.panels[0].id),
            m@.panels.len() == 1,
            m@.panels[0].id@ == 0,
            m@.panels[0].tabs.len() == 1,
            m@.panels[0].tabs[0]@ == 0,
            m@.panels[0].active_tab == Some(m@.panels[0].tabs[0]),
            m@.tabs.len() == 1,
            m@.tabs[0].id == m@.panels[0].tabs[0],
            m@.tabs[0].title == default_tab_title(0),
            m@.tabs[0].role == TabRole::View,
            m@.tabs[0].widgets.len() == 0,
            m@.focused_panel == Some(m@.panels[0].id),
            m@.focused_tab == Some(m@.panels[0].tabs[0]),
            m@.min_panel_size == min_panel_size,
            m@.next_panel == 1,
            m@.next_tab == 1,
            m@.next_widget == 0,
            m@.next_split == 0,
    {
        let panel_id = PanelId::from_raw(0);
        let tab_id = TabId::from_raw(0);
        let mut tabs_of_panel: Vec<TabId> = Vec::new();
        tabs_of_panel.push(tab_id);
        let mut panels: Vec<Panel> = Vec::new();
        panels.push(Panel { id: panel_id, tabs: tabs_of_panel, active_tab: Some(tab_id) });
        let mut tabs: Vec<Tab> = Vec::new();
        let title = join(owned("Panel "), decimal(0).as_str());
        tabs.push(Tab { id: tab_id, title, role: TabRole::View, widgets: Vec::new() });
        let m = ModelState {
            root: LayoutNode::Panel(panel_id),
            panels,
            tabs,
            focused_panel: Some(panel_id),
            focused_tab: Some(tab_id),
            min_panel_size,
            next_panel: 1,
            next_tab: 1,
            next_widget: 0,
            next_split: 0,
        };
        proof {
            assert(m@.panels.len() == 1);
            assert(m@.panels[0] == panels@[0]@);
            assert(m@.tabs[0] == tabs@[0]@);
            assert(m@.panels[0].tabs =~= seq![tab_id]);
            assert forall|p: PanelId| has_panel(m@.root, p) <==> panel_pos(m@.panels, p) < m@.panels.len() by {
                reveal_with_fuel(panel_pos, 2);
            }
        }
        m
    }
}

impl<R: Copy> ModelState<R> {
    /// Position of panel `id` in the panel list (its length when absent).
    fn panel_index(&self, id: PanelId) -> (i: usize)
        ensures
            i == panel_pos(self@.panels, id),
    {
        proof {
            lemma_panel_pos(self@.panels, id);
        }
        let mut i: usize = 0;
        while i < self.panels.len() && self.panels[i].id != id
            invariant
                i <= self.panels@.len(),
                panel_views(self.panels@).len() == self.panels@.len(),
                forall|j: int| 0 <= j < i ==> (#[trigger] self@.panels[j]).id != id,
            decreases self.panels@.len() - i,
        {
            assert(self@.panels[i as int] == self.panels@[i as int]@);
            i = i + 1;
        }
        assert(i == self.panels.len() || self.panels@[i as int].id == id);
        proof {
            let p = panel_pos(self@.panels, id);
            if (i as int) < p {
                assert(self@.panels[i as int] == self.panels@[i as int]@);
                assert(self@.panels[i as int].id == id);
                assert(false);
            } else if (i as int) > p {
                assert(self@.panels[p].id != id);
                assert(false);
            }
            assert(i == p);
        }
        i
    }

    /// Position of the first panel holding tab `tab` (the list's length
    /// when none does).
    fn holder_index(&self, tab: TabId) -> (i: usize)
        ensures
            i == holder_pos(self@.panels, tab),
    {
        proof {
            lemma_holder_pos(self@.panels, tab);
        }
        let mut i: usize = 0;
        while i < self.panels.len() && !holds_tab(&self.panels[i].tabs, tab)
            invariant
                i <= self.panels@.len(),
                panel_views(self.panels@).len() == self.panels@.len(),
                forall|j: int| 0 <= j < i ==> !(#[trigger] self@.panels[j]).tabs.contains(tab),
            decreases self.panels@.len() - i,
        {
            assert(self@.panels[i as int] == self.panels@[i as int]@);
            i = i + 1;
        }
        proof {
            let p = holder_pos(self@.panels, tab);
            if (i as int) < p {
                assert(self@.panels[i as int] == self.panels@[i as int]@);
            } else if (i as int) > p {
                assert(!self@.panels[p].tabs.contains(tab));
            }
        }
        i
    }

    /// Position of tab `id` in the tab list (its length when absent).
    fn tab_index(&self, id: TabId) -> (i: usize)
        ensures
            i == tab_pos(self@.tabs, id),
    {
        proof {
            lemma_tab_pos(self@.tabs, id);
        }
        let mut i: usize = 0;
        while i < self.tabs.len() && self.tabs[i].id != id
            invariant
                i <= self.tabs@.len(),
                tab_views(self.tabs@).len() == self.tabs@.len(),
                forall|j: int| 0 <= j < i ==> (#[trigger] self@.tabs[j]).id != id,
            decreases self.tabs@.len() - i,
        {
            assert(self@.tabs[i as int] == self.tabs@[i as int]@);
            i = i + 1;
        }
        assert(i == self.tabs.len() || self.tabs@[i as int].id == id);
        proof {
            let p = tab_pos(self@.tabs, id);
            if (i as int) < p {
                assert(self@.tabs[i as int] == self.tabs@[i as int]@);
                assert(self@.tabs[i as int].id == id);
                assert(false);
            } else if (i as int) > p {
                assert(self@.tabs[p].id != id);
                assert(false);
            }
            assert(i == p);
        }
        i
    }

    /// The panels, in ascending id order.
    fn panels(&self) -> (ps: &[Panel])
        ensures
            panel_views(ps@) == self@.panels,
    {
        self.panels.as_slice()
    }

    /// The tabs, in ascending id order.
    fn tabs(&self) -> (ts: &[Tab])
        ensures
            tab_views(ts@) == self@.tabs,
    {
        self.tabs.as_slice()
    }

    /// The panel `id`, if the workspace has it.
    fn panel(&self, id: PanelId) -> (p: Option<&Panel>)
        ensures
            panel_pos(self@.panels, id) < self@.panels.len() ==> (p matches Some(x) && x@
                == self@.panels[panel_pos(self@.panels, id)]),
            panel_pos(self@.panels, id) == self@.panels.len() ==> p is None,
    {
        let i = self.panel_index(id);
        proof {
            lemma_panel_pos(self@.panels, id);
        }
        if i < self.panels.len() {
            Some(&self.panels[i])
        } else {
            None
        }
    }

    /// The tab `id`, if the workspace has it.
    fn tab(&self, id: TabId) -> (t: Option<&Tab>)
        ensures
            tab_pos(self@.tabs, id) < self@.tabs.len() ==> (t matches Some(x) && x@
                == self@.tabs[tab_pos(self@.tabs, id)]),
            tab_pos(self@.tabs, id) == self@.tabs.len() ==> t is None,
    {
        let i = self.tab_index(id);
        proof {
            lemma_tab_pos(self@.tabs, id);
        }
        if i < self.tabs.len() {
            Some(&self.tabs[i])
        } else {
            None
        }
    }

    fn focused_panel(&self) -> (p: Option<PanelId>)
        ensures
            p == self@.focused_panel,
    {
        self.focused_panel
    }

    fn focused_tab(&self) -> (t: Option<TabId>)
        ensures
            t == self@.focused_tab,
    {
        self.focused_tab
    }

    /// The minimum panel extent the workspace was made with.
    fn min_panel_size(&self) -> (r: R)
        ensures
            r == self@.min_panel_size,
    {
        self.min_panel_size
    }

    /// The split tree arranging the panels.
    fn layout(&self) -> (n: &LayoutNode<R>)
        ensures
            *n == self@.root,
    {
        &self.root
    }

    /// Adds a tab titled `title` to `panel`, makes it the panel's shown tab
    /// and gives it focus. Refused, changing nothing, when the workspace has
    /// no such panel.
    fn add_tab(&mut self, panel: PanelId, title: &str, role: TabRole) -> (res: Result<
        TabId,
        ModelError,
    >)
        requires
            old(self)@.well_formed(),
            old(self)@.next_tab < u64::MAX,
        ensures
            final(self)@.well_formed(),
            panel_pos(old(self)@.panels, panel) == old(self)@.panels.len() ==> res == Err::<
                TabId,
                ModelError,
            >(ModelError::UnknownPanel(panel)) && final(self)@ == old(self)@,
            panel_pos(old(self)@.panels, panel) < old(self)@.panels.len() ==> (res matches Ok(t)
                && t@ == old(self)@.next_tab && final(self)@ == (UiModelView {
                panels: old(self)@.panels.update(
                    panel_pos(old(self)@.panels, panel),
                    PanelView {
                        tabs: old(self)@.panels[panel_pos(old(self)@.panels, panel)].tabs.push(t),
                        active_tab: Some(t),
                        ..old(self)@.panels[panel_pos(old(self)@.panels, panel)]
                    },
                ),
                tabs: old(self)@.tabs.push(
                    TabView { id: t, title: title@, role, widgets: Seq::empty() },
                ),
                focused_panel: Some(panel),
                focused_tab: Some(t),
                next_tab: (old(self)@.next_tab + 1) as u64,
                ..old(self)@
            })),
    {
        let ghost m = self@;
        let i = self.panel_index(panel);
        proof {
            lemma_panel_pos(m.panels, panel);
        }
        if i == self.panels.len() {
            return Err(ModelError::UnknownPanel(panel));
        }
        let id = TabId::from_raw(self.next_tab);
        self.next_tab = self.next_tab + 1;
        self.panels[i].tabs.push(id);
        self.panels[i].active_tab = Some(id);
        self.tabs.push(Tab { id, title: owned(title), role, widgets: Vec::new() });
        self.focused_panel = Some(panel);
        self.focused_tab = Some(id);
        proof {
            let pv = PanelView { tabs: m.panels[i as int].tabs.push(id), active_tab: Some(id), ..m.panels[i as int] };
            assert(self@.panels =~= m.panels.update(i as int, pv));
            assert(self@.tabs =~= m.tabs.push(TabView { id, title: title@, role, widgets: Seq::empty() }));
            assert forall|p: PanelId| panel_pos(self@.panels, p) == panel_pos(m.panels, p) by {
                lemma_panel_pos_same_ids(self@.panels, m.panels, p);
            }
        }
        Ok(id)
    }

    /// Shows `tab` in the first panel (in id order) that holds it and gives
    /// both focus. Refused, changing nothing, when no panel holds it.
    fn activate_tab(&mut self, tab: TabId) -> (res: Result<(), ModelError>)
        requires
            old(self)@.well_formed(),
        ensures
            final(self)@.well_formed(),
            holder_pos(old(self)@.panels, tab) == old(self)@.panels.len() ==> res == Err::<
                (),
                ModelError,
            >(ModelError::UnknownTab(tab)) && final(self)@ == old(self)@,
            holder_pos(old(self)@.panels, tab) < old(self)@.panels.len() ==> res is Ok
                && final(self)@ == (UiModelView {
                panels: old(self)@.panels.update(
                    holder_pos(old(self)@.panels, tab),
                    PanelView {
                        active_tab: Some(tab),
                        ..old(self)@.panels[holder_pos(old(self)@.panels, tab)]
                    },
                ),
                focused_panel: Some(old(self)@.panels[holder_pos(old(self)@.panels, tab)].id),
                focused_tab: Some(tab),
                ..old(self)@
            }),
    {
        let ghost m = self@;
        let i = self.holder_index(tab);
        proof {
            lemma_holder_pos(m.panels, tab);
        }
        if i == self.panels.len() {
            return Err(ModelError::UnknownTab(tab));
        }
        self.panels[i].active_tab = Some(tab);
        self.focused_panel = Some(self.panels[i].id);
        self.focused_tab = Some(tab);
        proof {
            let pv = PanelView { active_tab: Some(tab), ..m.panels[i as int] };
            assert(self@.panels =~= m.panels.update(i as int, pv));
            assert forall|p: PanelId| panel_pos(self@.panels, p) == panel_pos(m.panels, p) by {
                lemma_panel_pos_same_ids(self@.panels, m.panels, p);
            }
        }
        Ok(())
    }

    /// Moves `tab` from the first panel holding it to `to_panel`, where it
    /// is shown, and focuses both. Refused, changing nothing, when the tab
    /// or the panel does not exist, or no panel holds the tab.
    fn move_tab(&mut self, tab: TabId, to_panel: PanelId) -> (res: Result<(), ModelError>)
        requires
            old(self)@.well_formed(),
        ensures
            final(self)@.well_formed(),
            tab_pos(old(self)@.tabs, tab) == old(self)@.tabs.len() ==> res == Err::<(), ModelError>(
                ModelError::UnknownTab(tab),
            ) && final(self)@ == old(self)@,
            tab_pos(old(self)@.tabs, tab) < old(self)@.tabs.len() && panel_pos(
                old(self)@.panels,
                to_panel,
            ) == old(self)@.panels.len() ==> res == Err::<(), ModelError>(
                ModelError::UnknownPanel(to_panel),
            ) && final(self)@ == old(self)@,
            tab_pos(old(self)@.tabs, tab) < old(self)@.tabs.len() && panel_pos(
                old(self)@.panels,
                to_panel,
            ) < old(self)@.panels.len() && holder_pos(old(self)@.panels, tab)
                == old(self)@.panels.len() ==> res == Err::<(), ModelError>(
                ModelError::UnknownTab(tab),
            ) && final(self)@ == old(self)@,
            tab_pos(old(self)@.tabs, tab) < old(self)@.tabs.len() && panel_pos(
                old(self)@.panels,
                to_panel,
            ) < old(self)@.panels.len() && holder_pos(old(self)@.panels, tab)
                < old(self)@.panels.len() ==> res is Ok && final(self)@ == (UiModelView {
                panels: moved_panels(
                    old(self)@.panels,
                    holder_pos(old(self)@.panels, tab),
                    panel_pos(old(self)@.panels, to_panel),
                    tab,
                    to_panel,
                ),
                focused_panel: Some(to_panel),
                focused_tab: Some(tab),
                ..old(self)@
            }),
    {
        let ghost m = self@;
        let k = self.tab_index(tab);
        proof {
            lemma_tab_pos(m.tabs, tab);
            lemma_panel_pos(m.panels, to_panel);
            lemma_holder_pos(m.panels, tab);
        }
        if k == self.tabs.len() {
            return Err(ModelError::UnknownTab(tab));
        }
        let d = self.panel_index(to_panel);
        if d == self.panels.len() {
            return Err(ModelError::UnknownPanel(to_panel));
        }
        let h = self.holder_index(tab);
        if h == self.panels.len() {
            return Err(ModelError::UnknownTab(tab));
        }
        assert(m.panels[h as int] == self.panels@[h as int]@);
        assert(m.panels[d as int] == self.panels@[d as int]@);
        if self.panels[h].id != to_panel {
            proof {
                if h == d {
                    assert(m.panels[d as int].id == to_panel);
                }
            }
            let rest = tabs_without(&self.panels[h].tabs, tab);
            let first = if rest.len() > 0 {
                Some(rest[0])
            } else {
                None
            };
            let showing = match self.panels[h].active_tab {
                Some(a) => a == tab,
                None => false,
            };
            self.panels[h].tabs = rest;
            if showing {
                self.panels[h].active_tab = first;
            }
            self.panels[d].tabs.push(tab);
            self.panels[d].active_tab = Some(tab);
            proof {
                let src = m.panels[h as int];
                let rest_v = without(src.tabs, tab);
                let source = PanelView {
                    tabs: rest_v,
                    active_tab: if src.active_tab == Some(tab) {
                        if rest_v.len() > 0 {
                            Some(rest_v[0])
                        } else {
                            None
                        }
                    } else {
                        src.active_tab
                    },
                    ..src
                };
                let dst = PanelView {
                    tabs: m.panels[d as int].tabs.push(tab),
                    active_tab: Some(tab),
                    ..m.panels[d as int]
                };
                assert(self@.panels =~= m.panels.update(h as int, source).update(d as int, dst));
            }
        }
        self.focused_panel = Some(to_panel);
        self.focused_tab = Some(tab);
        proof {
            assert(self@.tabs =~= m.tabs);
            assert forall|p: PanelId| panel_pos(self@.panels, p) == panel_pos(m.panels, p) by {
                lemma_panel_pos_same_ids(self@.panels, m.panels, p);
            }
        }
        Ok(())
    }

    /// Splits `panel` along `axis`: its leaf becomes a split at `half`
    /// whose first side keeps `panel` and whose second side is a new panel
    /// holding one new tab titled `Panel <n>`. The new panel, tab and split
    /// take the next ids, which are used up even when the split is refused
    /// because the tree has no leaf for `panel` (nothing else changes then).
    fn split_panel_along(&mut self, panel: PanelId, axis: SplitAxis, half: R) -> (res: Result<
        PanelId,
        ModelError,
    >)
        requires
            old(self)@.well_formed(),
            old(self)@.next_panel < u64::MAX,
            old(self)@.next_tab < u64::MAX,
            old(self)@.next_split < u64::MAX,
        ensures
            final(self)@.well_formed(),
            final(self)@.next_panel == old(self)@.next_panel + 1,
            final(self)@.next_tab == old(self)@.next_tab + 1,
            final(self)@.next_split == old(self)@.next_split + 1,
            !has_panel(old(self)@.root, panel) ==> res == Err::<PanelId, ModelError>(
                ModelError::UnknownPanel(panel),
            ) && final(self)@ == (UiModelView {
                next_panel: final(self)@.next_panel,
                next_tab: final(self)@.next_tab,
                next_split: final(self)@.next_split,
                ..old(self)@
            }),
            has_panel(old(self)@.root, panel) ==> (res matches Ok(np) && np@ == old(self)@.next_panel
                && exists|t: TabId, sp: SplitId|
                t@ == old(self)@.next_tab && sp@ == old(self)@.next_split && final(self)@ == (
                UiModelView {
                    root: spec_replace_panel(old(self)@.root, panel, np, sp, axis, half)->Some_0,
                    panels: old(self)@.panels.push(
                        PanelView { id: np, tabs: seq![t], active_tab: Some(t) },
                    ),
                    tabs: old(self)@.tabs.push(
                        TabView {
                            id: t,
                            title: default_tab_title(np@),
                            role: TabRole::View,
                            widgets: Seq::empty(),
                        },
                    ),
                    next_panel: final(self)@.next_panel,
                    next_tab: final(self)@.next_tab,
                    next_split: final(self)@.next_split,
                    ..old(self)@
                })),
    {
        let ghost m = self@;
        let np = PanelId::from_raw(self.next_panel);
        self.next_panel = self.next_panel + 1;
        let nt = TabId::from_raw(self.next_tab);
        self.next_tab = self.next_tab + 1;
        let sp = SplitId::from_raw(self.next_split);
        self.next_split = self.next_split + 1;
        proof {
            lemma_replace_panel(m.root, panel, np, sp, axis, half);
        }
        match replace_panel_with_split(&mut self.root, panel, np, sp, axis, half) {
            Err(e) => {
                return Err(e);
            },
            Ok(()) => {},
        }
        let mut shown: Vec<TabId> = Vec::new();
        shown.push(nt);
        self.panels.push(Panel { id: np, tabs: shown, active_tab: Some(nt) });
        let title = join(owned("Panel "), decimal(np.get()).as_str());
        self.tabs.push(Tab { id: nt, title, role: TabRole::View, widgets: Vec::new() });
        proof {
            let pv = PanelView { id: np, tabs: seq![nt], active_tab: Some(nt) };
            assert(self@.panels =~= m.panels.push(pv));
            assert(self@.tabs =~= m.tabs.push(
                TabView { id: nt, title: default_tab_title(np@), role: TabRole::View, widgets: Seq::empty() },
            ));
            crate::editor_ui::lemma_ids_by_number();
            assert forall|q: PanelId| has_panel(self@.root, q) <==> panel_pos(self@.panels, q)
                < self@.panels.len() by {
                lemma_panel_pos_found(self@.panels, q);
                lemma_panel_pos_found(m.panels, q);
                if q == np {
                    assert(self@.panels[m.panels.len() as int].id == q);
                }
                if panel_pos(m.panels, q) < m.panels.len() {
                    let i = choose|i: int| 0 <= i < m.panels.len() && (#[trigger] m.panels[i]).id == q;
                    assert(self@.panels[i] == m.panels[i]);
                }
                if panel_pos(self@.panels, q) < self@.panels.len() {
                    let i = choose|i: int| 0 <= i < self@.panels.len() && (#[trigger] self@.panels[i]).id == q;
                    if i < m.panels.len() {
                        assert(self@.panels[i] == m.panels[i]);
                    }
                }
            }
        }
        Ok(np)
    }

    /// Removes `panel` and its tabs; its parent split collapses into the
    /// other side. Refused, changing nothing, for the last remaining panel
    /// and for a panel the tree does not hold.
    fn remove_panel(&mut self, panel: PanelId) -> (res: Result<(), ModelError>)
        requires
            old(self)@.well_formed(),
        ensures
            final(self)@.well_formed(),
            old(self)@.panels.len() <= 1 ==> res == Err::<(), ModelError>(ModelError::LastPanel)
                && final(self)@ == old(self)@,
            old(self)@.panels.len() > 1 && !has_panel(old(self)@.root, panel) ==> res == Err::<
                (),
                ModelError,
            >(ModelError::UnknownPanel(panel)) && final(self)@ == old(self)@,
            old(self)@.panels.len() > 1 && has_panel(old(self)@.root, panel) ==> res is Ok
                && final(self)@ == removed_view(old(self)@, panel),
    {
        let ghost m = self@;
        if self.panels.len() <= 1 {
            return Err(ModelError::LastPanel);
        }
        proof {
            lemma_remove_panel(m.root, panel);
            lemma_panel_pos(m.panels, panel);
            crate::editor_ui::lemma_ids_by_number();
        }
        let mut taken = LayoutNode::Panel(panel);
        std::mem::swap(&mut taken, &mut self.root);
        let (rest, removed) = remove_panel_node(taken, panel);
        if !removed {
            proof {
                lemma_remove_absent_panel(m.root, panel);
            }
            match rest {
                Some(r) => {
                    self.root = r;
                },
                None => {
                    proof {
                        assert(false);
                    }
                },
            }
            return Err(ModelError::UnknownPanel(panel));
        }
        let j = self.panel_index(panel);
        proof {
            // another panel remains in the tree, so the tree does not vanish
            let other = if j == 0 { 1int } else { 0int };
            let q = m.panels[other].id;
            if other < j {
                assert(m.panels[other].id@ < m.panels[j as int].id@);
            } else {
                assert(m.panels[j as int].id@ < m.panels[other].id@);
            }
            lemma_panel_pos_found(m.panels, q);
            assert(has_panel(m.root, q));
        }
        match rest {
            Some(r) => {
                self.root = r;
            },
            None => {
                proof {
                    assert(false);
                }
                return Err(ModelError::LastPanel);
            },
        }
        let gone = self.panels.remove(j);
        assert(gone@ == m.panels[j as int]);
        let ghost ts = m.tabs;
        let ghost ids = gone.tabs@;
        drop_tabs_in(&mut self.tabs, &gone.tabs);
        let refocus = match self.focused_panel {
            Some(f) => f == panel,
            None => false,
        };
        if refocus {
            assert(self@.panels.len() > 0);
            let first = self.panels[0].id;
            let shown = self.panels[0].active_tab;
            self.focused_panel = Some(first);
            self.focused_tab = shown;
        }
        proof {
            let ps = m.panels;
            let rest_ps = ps.remove(j as int);
            assert(self@.panels =~= rest_ps);
            lemma_drop_tabs(ts, ids);
            assert forall|q: PanelId| has_panel(self@.root, q) <==> panel_pos(self@.panels, q)
                < self@.panels.len() by {
                lemma_panel_pos_found(rest_ps, q);
                lemma_panel_pos_found(ps, q);
                if has_panel(self@.root, q) {
                    let i0 = choose|i: int| 0 <= i < ps.len() && (#[trigger] ps[i]).id == q;
                    if i0 < j {
                        assert(rest_ps[i0] == ps[i0]);
                    } else {
                        assert(i0 != j);
                        assert(rest_ps[i0 - 1] == ps[i0]);
                    }
                }
                if panel_pos(rest_ps, q) < rest_ps.len() {
                    let i1 = choose|i: int| 0 <= i < rest_ps.len() && (#[trigger] rest_ps[i]).id == q;
                    if i1 < j {
                        assert(rest_ps[i1] == ps[i1]);
                        assert(ps[i1].id@ < ps[j as int].id@);
                    } else {
                        assert(rest_ps[i1] == ps[i1 + 1]);
                        assert(ps[j as int].id@ < ps[i1 + 1].id@);
                    }
                }
            }
            assert forall|a: int, b: int| 0 <= a < b < rest_ps.len() implies (#[trigger] rest_ps[a]).id@
                < (#[trigger] rest_ps[b]).id@ by {
                if b < j {
                } else if a < j {
                    assert(rest_ps[b] == ps[b + 1]);
                } else {
                    assert(rest_ps[a] == ps[a + 1]);
                    assert(rest_ps[b] == ps[b + 1]);
                }
            }
            assert forall|a: int| 0 <= a < rest_ps.len() implies (#[trigger] rest_ps[a]).id@ < m.next_panel by {
                if a < j {
                } else {
                    assert(rest_ps[a] == ps[a + 1]);
                }
            }
            let dt = drop_tabs(ts, ids);
            assert forall|a: int| 0 <= a < dt.len() implies (#[trigger] dt[a]).id@ < m.next_tab by {
                let jj = choose|jj: int| 0 <= jj < ts.len() && #[trigger] dt[a] == ts[jj];
                assert(ts[jj].id@ < m.next_tab);
            }
        }
        Ok(())
    }

    /// The ratio of split `split`, if the tree has it.
    fn split_ratio(&self, split: SplitId) -> (r: Option<R>)
        ensures
            r == spec_split_ratio(self@.root, split),
    {
        split_ratio_of(&self.root, split)
    }

    /// Sets the ratio of split `split`; refused, changing nothing, when the
    /// tree has no such split.
    fn set_split_ratio(&mut self, split: SplitId, ratio: R) -> (res: Result<(), ModelError>)
        requires
            old(self)@.well_formed(),
        ensures
            final(self)@.well_formed(),
            match spec_set_ratio(old(self)@.root, split, ratio) {
                Some(t) => res is Ok && final(self)@ == (UiModelView { root: t, ..old(self)@ }),
                None => res == Err::<(), ModelError>(ModelError::UnknownSplit(split))
                    && final(self)@ == old(self)@,
            },
    {
        proof {
            lemma_set_ratio(self@.root, split, ratio);
        }
        set_split_ratio_in(&mut self.root, split, ratio)
    }

    /// Hands out a fresh widget id and adds it to `tab`'s widgets. Refused,
    /// changing nothing, when the workspace has no such tab.
    fn allocate_widget(&mut self, tab: TabId) -> (res: Result<WidgetId, ModelError>)
        requires
            old(self)@.well_formed(),
            old(self)@.next_widget < u64::MAX,
        ensures
            final(self)@.well_formed(),
            tab_pos(old(self)@.tabs, tab) == old(self)@.tabs.len() ==> res == Err::<
                WidgetId,
                ModelError,
            >(ModelError::UnknownTab(tab)) && final(self)@ == old(self)@,
            tab_pos(old(self)@.tabs, tab) < old(self)@.tabs.len() ==> (res matches Ok(w) && w@
                == old(self)@.next_widget && final(self)@ == (UiModelView {
                tabs: old(self)@.tabs.update(
                    tab_pos(old(self)@.tabs, tab),
                    TabView {
                        widgets: old(self)@.tabs[tab_pos(old(self)@.tabs, tab)].widgets.push(w),
                        ..old(self)@.tabs[tab_pos(old(self)@.tabs, tab)]
                    },
                ),
                next_widget: (old(self)@.next_widget + 1) as u64,
                ..old(self)@
            })),
    {
        let ghost m = self@;
        let i = self.tab_index(tab);
        proof {
            lemma_tab_pos(m.tabs, tab);
        }
        if i == self.tabs.len() {
            return Err(ModelError::UnknownTab(tab));
        }
        let id = WidgetId::from_raw(self.next_widget);
        self.next_widget = self.next_widget + 1;
        self.tabs[i].widgets.push(id);
        proof {
            let tv = TabView { widgets: m.tabs[i as int].widgets.push(id), ..m.tabs[i as int] };
            assert(self@.tabs =~= m.tabs.update(i as int, tv));
            assert(self@.panels =~= m.panels);
        }
        Ok(id)
    }
}

/// The authoritative editor UI workspace model.
///
/// Split ratios and the minimum panel size are values of `R`, carried and
/// never computed with here; the caller's geometry decides them. The model
/// is always well formed ([`UiModelView::well_formed`]).
#[derive(Debug)]
pub struct EditorUiModel<R> {
    state: ModelState<R>,
}

impl<R> EditorUiModel<R> {
    #[verifier::type_invariant]
    closed spec fn inv(self) -> bool {
        self.state@.well_formed()
    }
}

impl<R> View for EditorUiModel<R> {
    type V = UiModelView<R>;

    closed spec fn view(&self) -> UiModelView<R> {
        self.state@
    }
}

impl<R: Copy> EditorUiModel<R> {
    /// Takes the state out to change it, leaving a fresh one-panel
    /// workspace in its place until it is put back.
    fn take_state(&mut self) -> (state: ModelState<R>)
        ensures
            state@ == old(self)@,
            state@.well_formed(),
    {
        proof {
            use_type_invariant(&*self);
        }
        let mut state = ModelState::new(self.state.min_panel_size());
        std::mem::swap(&mut state, &mut self.state);
        state
    }

    /// A workspace of one panel (`0`) holding one tab (`0`, titled
    /// `Panel 0`), both focused. `min_panel_size` is the caller's minimum
    /// panel extent.
    pub fn new(min_panel_size: R) -> (m: Self)
        ensures
            m@.well_formed(),
            m@.root == LayoutNode::<R>::Panel(m@.panels[0].id),
            m@.panels.len() == 1,
            m@.panels[0].id@ == 0,
            m@.panels[0].tabs.len() == 1,
            m@.panels[0].tabs[0]@ == 0,
            m@.panels[0].active_tab == Some(m@.panels[0].tabs[0]),
            m@.tabs.len() == 1,
            m@.tabs[0].id == m@.panels[0].tabs[0],
            m@.tabs[0].title == default_tab_title(0),
            m@.tabs[0].role == TabRole::View,
            m@.tabs[0].widgets.len() == 0,
            m@.focused_panel == Some(m@.panels[0].id),
            m@.focused_tab == Some(m@.panels[0].tabs[0]),
            m@.min_panel_size == min_panel_size,
            m@.next_panel == 1,
            m@.next_tab == 1,
            m@.next_widget == 0,
            m@.next_split == 0,
    {
        EditorUiModel { state: ModelState::new(min_panel_size) }
    }

    /// The panels, in ascending id order.
    pub fn panels(&self) -> (ps: &[Panel])
        ensures
            panel_views(ps@) == self@.panels,
    {
        self.state.panels()
    }

    /// The tabs, in ascending id order.
    pub fn tabs(&self) -> (ts: &[Tab])
        ensures
            tab_views(ts@) == self@.tabs,
    {
        self.state.tabs()
    }

    /// The panel `id`, if the workspace has it.
    pub fn panel(&self, id: PanelId) -> (p: Option<&Panel>)
        ensures
            panel_pos(self@.panels, id) < self@.panels.len() ==> (p matches Some(x) && x@
                == self@.panels[panel_pos(self@.panels, id)]),
            panel_pos(self@.panels, id) == self@.panels.len() ==> p is None,
    {
        self.state.panel(id)
    }

    /// The tab `id`, if the workspace has it.
    pub fn tab(&self, id: TabId) -> (t: Option<&Tab>)
        ensures
            tab_pos(self@.tabs, id) < self@.tabs.len() ==> (t matches Some(x) && x@
                == self@.tabs[tab_pos(self@.tabs, id)]),
            tab_pos(self@.tabs, id) == self@.tabs.len() ==> t is None,
    {
        self.state.tab(id)
    }

    pub fn focused_panel(&self) -> (p: Option<PanelId>)
        ensures
            p == self@.focused_panel,
    {
        self.state.focused_panel()
    }

    pub fn focused_tab(&self) -> (t: Option<TabId>)
        ensures
            t == self@.focused_tab,
    {
        self.state.focused_tab()
    }

    /// The minimum panel extent the workspace was made with.
    pub fn min_panel_size(&self) -> (r: R)
        ensures
            r == self@.min_panel_size,
    {
        self.state.min_panel_size()
    }

    /// The split tree arranging the panels.
    pub fn layout(&self) -> (n: &LayoutNode<R>)
        ensures
            *n == self@.root,
    {
        self.state.layout()
    }

    /// Adds a tab titled `title` to `panel`, makes it the panel's shown tab
    /// and gives it focus. Refused, changing nothing, when the workspace has
    /// no such panel.
    pub fn add_tab(&mut self, panel: PanelId, title: &str, role: TabRole) -> (res: Result<
        TabId,
        ModelError,
    >)
        requires
            old(self)@.next_tab < u64::MAX,
        ensures
            final(self)@.well_formed(),
            panel_pos(old(self)@.panels, panel) == old(self)@.panels.len() ==> res == Err::<
                TabId,
                ModelError,
            >(ModelError::UnknownPanel(panel)) && final(self)@ == old(self)@,
            panel_pos(old(self)@.panels, panel) < old(self)@.panels.len() ==> (res matches Ok(t)
                && t@ == old(self)@.next_tab && final(self)@ == (UiModelView {
                panels: old(self)@.panels.update(
                    panel_pos(old(self)@.panels, panel),
                    PanelView {
                        tabs: old(self)@.panels[panel_pos(old(self)@.panels, panel)].tabs.push(t),
                        active_tab: Some(t),
                        ..old(self)@.panels[panel_pos(old(self)@.panels, panel)]
                    },
                ),
                tabs: old(self)@.tabs.push(
                    TabView { id: t, title: title@, role, widgets: Seq::empty() },
                ),
                focused_panel: Some(panel),
                focused_tab: Some(t),
                next_tab: (old(self)@.next_tab + 1) as u64,
                ..old(self)@
            })),
    {
        let mut state = self.take_state();
        let res = state.add_tab(panel, title, role);
        self.state = state;
        res
    }

    /// Shows `tab` in the first panel (in id order) that holds it and gives
    /// both focus. Refused, changing nothing, when no panel holds it.
    pub fn activate_tab(&mut self, tab: TabId) -> (res: Result<(), ModelError>)
        ensures
            final(self)@.well_formed(),
            holder_pos(old(self)@.panels, tab) == old(self)@.panels.len() ==> res == Err::<
                (),
                ModelError,
            >(ModelError::UnknownTab(tab)) && final(self)@ == old(self)@,
            holder_pos(old(self)@.panels, tab) < old(self)@.panels.len() ==> res is Ok
                && final(self)@ == (UiModelView {
                panels: old(self)@.panels.update(
                    holder_pos(old(self)@.panels, tab),
                    PanelView {
                        active_tab: Some(tab),
                        ..old(self)@.panels[holder_pos(old(self)@.panels, tab)]
                    },
                ),
                focused_panel: Some(old(self)@.panels[holder_pos(old(self)@.panels, tab)].id),
                focused_tab: Some(tab),
                ..old(self)@
            }),
    {
        let mut state = self.take_state();
        let res = state.activate_tab(tab);
        self.state = state;
        res
    }

    /// Moves `tab` from the first panel holding it to `to_panel`, where it
    /// is shown, and focuses both. Refused, changing nothing, when the tab
    /// or the panel does not exist, or no panel holds the tab.
    pub fn move_tab(&mut self, tab: TabId, to_panel: PanelId) -> (res: Result<(), ModelError>)
        ensures
            final(self)@.well_formed(),
            tab_pos(old(self)@.tabs, tab) == old(self)@.tabs.len() ==> res == Err::<(), ModelError>(
                ModelError::UnknownTab(tab),
            ) && final(self)@ == old(self)@,
            tab_pos(old(self)@.tabs, tab) < old(self)@.tabs.len() && panel_pos(
                old(self)@.panels,
                to_panel,
            ) == old(self)@.panels.len() ==> res == Err::<(), ModelError>(
                ModelError::UnknownPanel(to_panel),
            ) && final(self)@ == old(self)@,
            tab_pos(old(self)@.tabs, tab) < old(self)@.tabs.len() && panel_pos(
                old(self)@.panels,
                to_panel,
            ) < old(self)@.panels.len() && holder_pos(old(self)@.panels, tab)
                == old(self)@.panels.len() ==> res == Err::<(), ModelError>(
                ModelError::UnknownTab(tab),
            ) && final(self)@ == old(self)@,
            tab_pos(old(self)@.tabs, tab) < old(self)@.tabs.len() && panel_pos(
                old(self)@.panels,
                to_panel,
            ) < old(self)@.panels.len() && holder_pos(old(self)@.panels, tab)
                < old(self)@.panels.len() ==> res is Ok && final(self)@ == (UiModelView {
                panels: moved_panels(
                    old(self)@.panels,
                    holder_pos(old(self)@.panels, tab),
                    panel_pos(old(self)@.panels, to_panel),
                    tab,
                    to_panel,
                ),
                focused_panel: Some(to_panel),
                focused_tab: Some(tab),
                ..old(self)@
            }),
    {
        let mut state = self.take_state();
        let res = state.move_tab(tab, to_panel);
        self.state = state;
        res
    }

    /// Splits `panel` along `axis`: its leaf becomes a split at `half`
    /// whose first side keeps `panel` and whose second side is a new panel
    /// holding one new tab titled `Panel <n>`. The new panel, tab and split
    /// take the next ids, which are used up even when the split is refused
    /// because the tree has no leaf for `panel` (nothing else changes then).
    pub fn split_panel_along(&mut self, panel: PanelId, axis: SplitAxis, half: R) -> (res: Result<
        PanelId,
        ModelError,
    >)
        requires
            old(self)@.next_panel < u64::MAX,
            old(self)@.next_tab < u64::MAX,
            old(self)@.next_split < u64::MAX,
        ensures
            final(self)@.well_formed(),
            final(self)@.next_panel == old(self)@.next_panel + 1,
            final(self)@.next_tab == old(self)@.next_tab + 1,
            final(self)@.next_split == old(self)@.next_split + 1,
            !has_panel(old(self)@.root, panel) ==> res == Err::<PanelId, ModelError>(
                ModelError::UnknownPanel(panel),
            ) && final(self)@ == (UiModelView {
                next_panel: final(self)@.next_panel,
                next_tab: final(self)@.next_tab,
                next_split: final(self)@.next_split,
                ..old(self)@
            }),
            has_panel(old(self)@.root, panel) ==> (res matches Ok(np) && np@ == old(self)@.next_panel
                && exists|t: TabId, sp: SplitId|
                t@ == old(self)@.next_tab && sp@ == old(self)@.next_split && final(self)@ == (
                UiModelView {
                    root: spec_replace_panel(old(self)@.root, panel, np, sp, axis, half)->Some_0,
                    panels: old(self)@.panels.push(
                        PanelView { id: np, tabs: seq![t], active_tab: Some(t) },
                    ),
                    tabs: old(self)@.tabs.push(
                        TabView {
                            id: t,
                            title: default_tab_title(np@),
                            role: TabRole::View,
                            widgets: Seq::empty(),
                        },
                    ),
                    next_panel: final(self)@.next_panel,
                    next_tab: final(self)@.next_tab,
                    next_split: final(self)@.next_split,
                    ..old(self)@
                })),
    {
        let mut state = self.take_state();
        let res = state.split_panel_along(panel, axis, half);
        self.state = state;
        res
    }

    /// Removes `panel` and its tabs; its parent split collapses into the
    /// other side. Refused, changing nothing, for the last remaining panel
    /// and for a panel the tree does not hold.
    pub fn remove_panel(&mut self, panel: PanelId) -> (res: Result<(), ModelError>)
        ensures
            final(self)@.well_formed(),
            old(self)@.panels.len() <= 1 ==> res == Err::<(), ModelError>(ModelError::LastPanel)
                && final(self)@ == old(self)@,
            old(self)@.panels.len() > 1 && !has_panel(old(self)@.root, panel) ==> res == Err::<
                (),
                ModelError,
            >(ModelError::UnknownPanel(panel)) && final(self)@ == old(self)@,
            old(self)@.panels.len() > 1 && has_panel(old(self)@.root, panel) ==> res is Ok
                && final(self)@ == removed_view(old(self)@, panel),
    {
        let mut state = self.take_state();
        let res = state.remove_panel(panel);
        self.state = state;
        res
    }

    /// The ratio of split `split`, if the tree has it.
    pub fn split_ratio(&self, split: SplitId) -> (r: Option<R>)
        ensures
            r == spec_split_ratio(self@.root, split),
    {
        self.state.split_ratio(split)
    }

    /// Sets the ratio of split `split`; refused, changing nothing, when the
    /// tree has no such split.
    pub fn set_split_ratio(&mut self, split: SplitId, ratio: R) -> (res: Result<(), ModelError>)
        ensures
            final(self)@.well_formed(),
            match spec_set_ratio(old(self)@.root, split, ratio) {
                Some(t) => res is Ok && final(self)@ == (UiModelView { root: t, ..old(self)@ }),
                None => res == Err::<(), ModelError>(ModelError::UnknownSplit(split))
                    && final(self)@ == old(self)@,
            },
    {
        let mut state = self.take_state();
        let res = state.set_split_ratio(split, ratio);
        self.state = state;
        res
    }

    /// Hands out a fresh widget id and adds it to `tab`'s widgets. Refused,
    /// changing nothing, when the workspace has no such tab.
    pub fn allocate_widget(&mut self, tab: TabId) -> (res: Result<WidgetId, ModelError>)
        requires
            old(self)@.next_widget < u64::MAX,
        ensures
            final(self)@.well_formed(),
            tab_pos(old(self)@.tabs, tab) == old(self)@.tabs.len() ==> res == Err::<
                WidgetId,
                ModelError,
            >(ModelError::UnknownTab(tab)) && final(self)@ == old(self)@,
            tab_pos(old(self)@.tabs, tab) < old(self)@.tabs.len() ==> (res matches Ok(w) && w@
                == old(self)@.next_widget && final(self)@ == (UiModelView {
                tabs: old(self)@.tabs.update(
                    tab_pos(old(self)@.tabs, tab),
                    TabView {
                        widgets: old(self)@.tabs[tab_pos(old(self)@.tabs, tab)].widgets.push(w),
                        ..old(self)@.tabs[tab_pos(old(self)@.tabs, tab)]
                    },
                ),
                next_widget: (old(self)@.next_widget + 1) as u64,
                ..old(self)@
            })),
    {
        let mut state = self.take_state();
        let res = state.allocate_widget(tab);
        self.state = state;
        res
    }
}

/// Ids are never reused: the next panel, tab and split ids are held by no
/// panel, tab or split of a well-formed workspace, so every split made gets
/// an id distinct from all others, even where two splits share a position
/// on screen.
pub proof fn law_next_ids_are_fresh<R>(m: UiModelView<R>)
    requires
        m.well_formed(),
    ensures
        forall|p: PanelId| p@ == m.next_panel ==> panel_pos(m.panels, p) == m.panels.len(),
        forall|t: TabId| t@ == m.next_tab ==> tab_pos(m.tabs, t) == m.tabs.len(),
        forall|s: SplitId| s@ == m.next_split ==> !has_split(m.root, s),
{
    assert forall|p: PanelId| p@ == m.next_panel implies panel_pos(m.panels, p) == m.panels.len() by {
        lemma_panel_pos(m.panels, p);
        if panel_pos(m.panels, p) < m.panels.len() {
            assert(m.panels[panel_pos(m.panels, p)].id@ < m.next_panel);
        }
    }
    assert forall|t: TabId| t@ == m.next_tab implies tab_pos(m.tabs, t) == m.tabs.len() by {
        lemma_tab_pos(m.tabs, t);
        if tab_pos(m.tabs, t) < m.tabs.len() {
            assert(m.tabs[tab_pos(m.tabs, t)].id@ < m.next_tab);
        }
    }
}

/// Moving a tab puts it in the destination panel; every panel other than
/// the source and the destination is left as it was. (The tab itself, with
/// its title, role and widgets, is untouched: `move_tab` keeps the tab list.)
pub proof fn law_moved_tab_is_in_destination(
    ps: Seq<PanelView>,
    h: int,
    d: int,
    tab: TabId,
    to_panel: PanelId,
)
    requires
        0 <= h < ps.len(),
        0 <= d < ps.len(),
        ps[h].tabs.contains(tab),
        ps[d].id == to_panel,
        ps[h].id == to_panel ==> h == d,
    ensures
        moved_panels(ps, h, d, tab, to_panel)[d].tabs.contains(tab),
        moved_panels(ps, h, d, tab, to_panel).len() == ps.len(),
        forall|i: int|
            0 <= i < ps.len() && i != h && i != d ==> #[trigger] moved_panels(
                ps,
                h,
                d,
                tab,
                to_panel,
            )[i] == ps[i],
{
    let r = moved_panels(ps, h, d, tab, to_panel);
    if ps[h].id != to_panel {
        assert(r[d].tabs == ps[d].tabs.push(tab));
        assert(r[d].tabs[ps[d].tabs.len() as int] == tab);
    }
}


/// Removing `t` from a tab list keeps exactly the other tabs.
proof fn lemma_without_contains(s: Seq<TabId>, t: TabId, x: TabId)
    ensures
        without(s, t).contains(x) <==> (s.contains(x) && x != t),
    decreases s.len(),
{
    if s.len() > 0 {
        let init = s.drop_last();
        lemma_without_contains(init, t, x);
        assert(s == init.push(s.last()));
        if s.contains(x) {
            let k = choose|k: int| 0 <= k < s.len() && s[k] == x;
            if k < init.len() {
                assert(init[k] == x);
            }
        }
        if init.contains(x) {
            let k = choose|k: int| 0 <= k < init.len() && init[k] == x;
            assert(s[k] == x);
        }
        if s.last() != t {
            let w = without(init, t);
            assert(w.push(s.last())[w.len() as int] == s.last());
            if w.contains(x) {
                let k = choose|k: int| 0 <= k < w.len() && w[k] == x;
                assert(w.push(s.last())[k] == x);
            }
            if w.push(s.last()).contains(x) && x != s.last() {
                let k = choose|k: int| 0 <= k < w.len() + 1 && w.push(s.last())[k] == x;
                assert(w[k] == x);
            }
        }
    }
}

/// The first tab left after removing `t` is the first tab of `s` other
/// than `t`.
proof fn lemma_without_first(s: Seq<TabId>, t: TabId)
    ensures
        without(s, t).len() > 0 ==> exists|k: int|
            0 <= k < s.len() && s[k] == without(s, t)[0] && s[k] != t && forall|j: int|
                0 <= j < k ==> #[trigger] s[j] == t,
    decreases s.len(),
{
    if s.len() > 0 {
        let init = s.drop_last();
        lemma_without_first(init, t);
        let w = without(init, t);
        if w.len() > 0 {
            let k = choose|k: int|
                0 <= k < init.len() && init[k] == w[0] && init[k] != t && forall|j: int|
                    0 <= j < k ==> #[trigger] init[j] == t;
            assert(s[k] == init[k]);
            assert forall|j: int| 0 <= j < k implies #[trigger] s[j] == t by {
                assert(s[j] == init[j]);
            }
            if s.last() != t {
                assert(without(s, t)[0] == w[0]);
            }
        } else if s.last() != t {
            let k = s.len() - 1;
            assert(without(s, t)[0] == s.last());
            assert forall|j: int| 0 <= j < k implies #[trigger] s[j] == t by {
                assert(init[j] == s[j]);
                assert(init.contains(init[j]));
                lemma_without_contains(init, t, init[j]);
            }
        }
    }
}

/// Moving a tab between panels: the source panel loses exactly that tab and
/// keeps every other one; if it was not showing the moved tab it goes on
/// showing what it showed, and if it was, it shows the first of its
/// remaining tabs (none when it has none left). The destination gains the
/// moved tab at the end of its tabs and shows it.
pub proof fn law_move_tab_keeps_what_the_source_shows(
    ps: Seq<PanelView>,
    h: int,
    d: int,
    tab: TabId,
    to_panel: PanelId,
)
    requires
        0 <= h < ps.len(),
        0 <= d < ps.len(),
        ps[h].tabs.contains(tab),
        ps[d].id == to_panel,
        ps[h].id == to_panel ==> h == d,
    ensures
        moved_panels(ps, h, d, tab, to_panel)[d].active_tab == Some(tab) || ps[h].id == to_panel,
        ps[h].active_tab != Some(tab) ==> moved_panels(ps, h, d, tab, to_panel)[h].active_tab
            == ps[h].active_tab,
        ps[h].id != to_panel ==> !moved_panels(ps, h, d, tab, to_panel)[h].tabs.contains(tab),
        ps[h].id != to_panel ==> forall|x: TabId|
            x != tab ==> (moved_panels(ps, h, d, tab, to_panel)[h].tabs.contains(x)
                <==> #[trigger] ps[h].tabs.contains(x)),
        ps[h].id != to_panel && ps[h].active_tab == Some(tab) ==> match moved_panels(
            ps,
            h,
            d,
            tab,
            to_panel,
        )[h].active_tab {
            Some(a) => exists|k: int|
                0 <= k < ps[h].tabs.len() && ps[h].tabs[k] == a && a != tab && forall|j: int|
                    0 <= j < k ==> #[trigger] ps[h].tabs[j] == tab,
            None => forall|x: TabId| #[trigger] ps[h].tabs.contains(x) ==> x == tab,
        },
        ps[h].id != to_panel ==> moved_panels(ps, h, d, tab, to_panel)[d].tabs == ps[d].tabs.push(tab),
{
    if ps[h].id != to_panel {
        let m = moved_panels(ps, h, d, tab, to_panel);
        let rest = without(ps[h].tabs, tab);
        assert(h != d);
        assert(m[h].tabs == rest);
        lemma_without_contains(ps[h].tabs, tab, tab);
        assert forall|x: TabId| x != tab implies (m[h].tabs.contains(x)
            <==> #[trigger] ps[h].tabs.contains(x)) by {
            lemma_without_contains(ps[h].tabs, tab, x);
        }
        if ps[h].active_tab == Some(tab) {
            if rest.len() > 0 {
                lemma_without_first(ps[h].tabs, tab);
            } else {
                assert forall|x: TabId| #[trigger] ps[h].tabs.contains(x) implies x == tab by {
                    lemma_without_contains(ps[h].tabs, tab, x);
                }
            }
        }
    }
}

/// Removing a panel that does not have focus leaves focus where it was:
/// the same focused panel and the same focused tab.
pub proof fn law_removing_an_unfocused_panel_keeps_focus<R>(m: UiModelView<R>, panel: PanelId)
    requires
        m.focused_panel != Some(panel),
    ensures
        removed_view(m, panel).focused_panel == m.focused_panel,
        removed_view(m, panel).focused_tab == m.focused_tab,
{
}

/// Removing the focused panel of a well-formed workspace with another panel
/// left moves focus to the remaining panel with the smallest id, and to the
/// tab it shows.
pub proof fn law_removing_the_focused_panel_moves_focus_to_a_remaining_one<R>(
    m: UiModelView<R>,
    panel: PanelId,
)
    requires
        m.well_formed(),
        m.focused_panel == Some(panel),
        m.panels.len() > 1,
        panel_pos(m.panels, panel) < m.panels.len(),
    ensures
        removed_view(m, panel).focused_panel matches Some(f) && f != panel && exists|i: int|
            0 <= i < m.panels.len() && #[trigger] m.panels[i].id == f && removed_view(
                m,
                panel,
            ).focused_tab == m.panels[i].active_tab && forall|k: int|
                0 <= k < m.panels.len() && m.panels[k].id != panel ==> f@ <= (
                #[trigger] m.panels[k]).id@,
{
    let j = panel_pos(m.panels, panel);
    lemma_panel_pos(m.panels, panel);
    let panels = m.panels.remove(j);
    let i = if j == 0 { 1int } else { 0int };
    assert(panels[0] == m.panels[i]);
    assert(m.panels[j].id == panel);
    assert(m.panels[i].id != panel) by {
        if i < j {
            assert(m.panels[i].id@ < m.panels[j].id@);
        } else {
            assert(m.panels[j].id@ < m.panels[i].id@);
        }
    }
    assert forall|k: int| 0 <= k < m.panels.len() && m.panels[k].id != panel implies m.panels[i].id@
        <= (#[trigger] m.panels[k]).id@ by {
        if k != i {
            assert(k != j);
            if k < i {
                assert(k == 0 && j == 0);
            }
            assert(m.panels[i].id@ < m.panels[k].id@);
        }
    }
}

} // verus!
