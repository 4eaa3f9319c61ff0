//! The panel tabs open in the main window: one embedded webview per panel,
//! at most one of them active. The webviews themselves are handles of type
//! `W`, shown and hidden by the caller as these methods direct.
use vstd::prelude::*;

use crate::services::registry::{
    distinct_keys, lemma_put, lemma_take_out, lookup, put, take_out, Registry,
};

verus! {

/// The label of the tab of a panel.
pub open spec fn tab_label_of(panel_id: Seq<char>) -> Seq<char> {
    "panel-tab-"@ + panel_id
}

/// How a tab is opened.
#[derive(Clone, Debug)]
pub enum OpenPlan {
    /// The tab is open: bring it to the front.
    Existing,
    /// Create the tab's webview, after hiding the tab `hide`.
    Create { hide: Option<String> },
}

/// What happens to the panel tabs: a tab opened under a label with its
/// webview (`insert_active`), or the tab of a label closed (`close`).
pub enum TabEvent<W> {
    Opened(Seq<char>, W),
    Closed(Seq<char>),
}

/// The open tabs after `events`, starting from none (`new`), each event
/// changing them as `insert_active` and `close` state.
pub open spec fn tabs_after<W>(events: Seq<TabEvent<W>>) -> Seq<(Seq<char>, W)>
    decreases events.len(),
{
    if events.len() == 0 {
        Seq::empty()
    } else {
        let before = tabs_after(events.drop_last());
        match events.last() {
            TabEvent::Opened(l, w) => put(before, l, w),
            TabEvent::Closed(l) => take_out(before, l),
        }
    }
}

/// The webview of the last event that names `label`, if that event opened
/// it; `None` if it closed it or no event names it.
pub open spec fn last_opened<W>(events: Seq<TabEvent<W>>, label: Seq<char>) -> Option<W>
    decreases events.len(),
{
    if events.len() == 0 {
        None
    } else {
        match events.last() {
            TabEvent::Opened(l, w) => if l == label {
                Some(w)
            } else {
                last_opened(events.drop_last(), label)
            },
            TabEvent::Closed(l) => if l == label {
                None
            } else {
                last_opened(events.drop_last(), label)
            },
        }
    }
}

/// Whatever tabs were opened and closed, no label is open twice, and the
/// tab open under a label is exactly the one of the last event naming it,
/// if that event opened it.
pub proof fn law_open_tabs_follow_last_event<W>(events: Seq<TabEvent<W>>)
    ensures
        distinct_keys(tabs_after(events)),
        forall|label: Seq<char>|
            #[trigger] lookup(tabs_after(events), label) == last_opened(events, label),
    decreases events.len(),
{
    if events.len() > 0 {
        let rest = events.drop_last();
        law_open_tabs_follow_last_event(rest);
        let before = tabs_after(rest);
        match events.last() {
            TabEvent::Opened(l, w) => {
                lemma_put(before, l, w);
            },
            TabEvent::Closed(l) => {
                lemma_take_out(before, l);
            },
        }
    }
}

pub struct PanelTabManager<W> {
    tabs: Registry<W>,
    active: Option<String>,
}

impl<W> PanelTabManager<W> {
    /// The open tabs, by label, in the order they were opened.
    pub closed spec fn tabs(&self) -> Seq<(Seq<char>, W)> {
        self.tabs@
    }

    /// The label of the active tab.
    pub closed spec fn active(&self) -> Option<Seq<char>> {
        self.active.deep_view()
    }

    /// The active tab is always an open one.
    #[verifier::type_invariant]
    closed spec fn active_is_open(self) -> bool {
        match self.active {
            Some(a) => lookup(self.tabs@, a@) is Some,
            None => true,
        }
    }

    pub fn new() -> (m: Self)
        ensures
            m.tabs().len() == 0,
            m.active() is None,
    {
        PanelTabManager { tabs: Registry::new(), active: None }
    }

    pub fn tab_label(panel_id: &str) -> (l: String)
        ensures
            l@ == tab_label_of(panel_id@),
    {
        String::from_str("panel-tab-").concat(panel_id)
    }

    pub fn len(&self) -> (n: usize)
        ensures
            n == self.tabs().len(),
    {
        self.tabs.len()
    }

    pub fn get(&self, label: &str) -> (r: Option<&W>)
        ensures
            match r {
                Some(w) => lookup(self.tabs(), label@) == Some(*w),
                None => lookup(self.tabs(), label@) is None,
            },
    {
        self.tabs.get(label)
    }

    pub fn webview_at(&self, i: usize) -> (w: &W)
        requires
            i < self.tabs().len(),
        ensures
            *w == self.tabs()[i as int].1,
    {
        self.tabs.value_at(i)
    }

    /// Make an open tab the active one. Returns whether `label` is open; if
    /// not, nothing changes.
    pub fn activate(&mut self, label: &str) -> (open: bool)
        ensures
            open == lookup(old(self).tabs(), label@) is Some,
            final(self).tabs() == old(self).tabs(),
            final(self).active() == (if open {
                Some(label@)
            } else {
                old(self).active()
            }),
    {
        if self.tabs.contains(label) {
            self.active = Some(label.to_owned());
            true
        } else {
            false
        }
    }

    /// Add a new tab's webview under `label` (in place of a tab of that label,
    /// whose webview is returned) and make it the active tab.
    pub fn insert_active(&mut self, label: String, webview: W) -> (r: Option<W>)
        ensures
            r == lookup(old(self).tabs(), label@),
            final(self).tabs() == put(old(self).tabs(), label@, webview),
            final(self).active() == Some(label@),
    {
        let active = label.clone();
        self.active = None;
        let mut tabs: Registry<W> = Registry::new();
        std::mem::swap(&mut tabs, &mut self.tabs);
        let r = tabs.insert(label, webview);
        self.tabs = tabs;
        self.active = Some(active);
        r
    }

    /// How to open the tab `label`: bring the open tab of that label to the
    /// front (and make it active with `activate`), or create its webview,
    /// hiding first the active tab, if any (then add it with
    /// `insert_active`).
    pub fn plan_open(&self, label: &str) -> (p: OpenPlan)
        ensures
            p is Existing <==> lookup(self.tabs(), label@) is Some,
            p matches OpenPlan::Create { hide } ==> hide.deep_view() == self.active(),
    {
        if self.tabs.contains(label) {
            OpenPlan::Existing
        } else {
            OpenPlan::Create { hide: self.active_label() }
        }
    }

    /// Switch to the tab `label`: for each open tab in order, whether it is
    /// shown (exactly the tab `label`); the active tab becomes `label` if it
    /// is open.
    pub fn switch(&mut self, label: &str) -> (shown: Vec<bool>)
        ensures
            shown@.len() == old(self).tabs().len(),
            forall|i: int|
                0 <= i < shown@.len() ==> shown@[i] == (old(self).tabs()[i].0 == label@),
            final(self).tabs() == old(self).tabs(),
            final(self).active() == (if lookup(old(self).tabs(), label@) is Some {
                Some(label@)
            } else {
                old(self).active()
            }),
    {
        let labels = self.tabs.keys();
        let k = crate::text::to_chars(label);
        let mut shown: Vec<bool> = Vec::new();
        let mut i: usize = 0;
        while i < labels.len()
            invariant
                i <= labels.len(),
                labels@.len() == self.tabs().len(),
                forall|j: int| 0 <= j < labels@.len() ==> #[trigger] labels@[j]@ == self.tabs()[j].0,
                k@ == label@,
                shown@.len() == i,
                forall|j: int| 0 <= j < i ==> shown@[j] == (self.tabs()[j].0 == label@),
            decreases labels.len() - i,
        {
            let same = crate::text::chars_eq(&crate::text::to_chars(labels[i].as_str()), &k);
            shown.push(same);
            i += 1;
        }
        self.activate(label);
        shown
    }

    /// Close the tab `label`, returning its webview; if it was the active tab,
    /// no tab is active afterwards.
    pub fn close(&mut self, label: &str) -> (r: Option<W>)
        ensures
            r == lookup(old(self).tabs(), label@),
            final(self).tabs() == take_out(old(self).tabs(), label@),
            final(self).active() == (if old(self).active() == Some(label@) {
                None
            } else {
                old(self).active()
            }),
    {
        proof {
            use_type_invariant(&*self);
        }
        let was_active = match &self.active {
            Some(a) => crate::text::chars_eq(
                &crate::text::to_chars(a.as_str()),
                &crate::text::to_chars(label),
            ),
            None => false,
        };
        let mut active: Option<String> = None;
        std::mem::swap(&mut active, &mut self.active);
        let mut tabs: Registry<W> = Registry::new();
        std::mem::swap(&mut tabs, &mut self.tabs);
        let r = tabs.remove(label);
        self.tabs = tabs;
        if !was_active {
            self.active = active;
        }
        r
    }

    /// The labels of the open tabs, in the order they were opened.
    pub fn open_labels(&self) -> (r: Vec<String>)
        ensures
            r@.len() == self.tabs().len(),
            forall|i: int| 0 <= i < r@.len() ==> #[trigger] r@[i]@ == self.tabs()[i].0,
            forall|i: int, j: int| 0 <= i < j < r@.len() ==> r@[i]@ != r@[j]@,
    {
        self.tabs.keys()
    }

    /// The label of the active tab, which is an open tab.
    pub fn active_label(&self) -> (r: Option<String>)
        ensures
            r.deep_view() == self.active(),
            r matches Some(l) ==> lookup(self.tabs(), l@) is Some,
    {
        proof {
            use_type_invariant(self);
        }
        match &self.active {
            Some(a) => Some(a.clone()),
            None => None,
        }
    }
}

} // verus!
