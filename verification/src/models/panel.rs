//! A web control panel (BT or 1Panel).
use vstd::prelude::*;

use crate::stamps::{new_id, now_rfc3339, utc_stamp, uuid_text};

verus! {

#[derive(Clone, Copy, Debug, PartialEq, Eq, Structural)]
pub enum PanelType {
    Bt,
    OnePanel,
}

#[derive(Clone, Debug)]
pub struct Panel {
    pub id: String,
    pub name: String,
    pub url: String,
    pub panel_type: PanelType,
    pub session_ref: Option<String>,
    pub created_at: String,
    pub updated_at: String,
}

/// A panel as values.
pub struct PanelView {
    pub id: Seq<char>,
    pub name: Seq<char>,
    pub url: Seq<char>,
    pub panel_type: PanelType,
    pub session_ref: Option<Seq<char>>,
    pub created_at: Seq<char>,
    pub updated_at: Seq<char>,
}

impl View for Panel {
    type V = PanelView;

    open spec fn view(&self) -> PanelView {
        PanelView {
            id: self.id@,
            name: self.name@,
            url: self.url@,
            panel_type: self.panel_type,
            session_ref: self.session_ref.deep_view(),
            created_at: self.created_at@,
            updated_at: self.updated_at@,
        }
    }
}

/// What a user gives to add a panel.
#[derive(Clone, Debug)]
pub struct NewPanel {
    pub name: String,
    pub url: String,
    pub panel_type: PanelType,
}

/// The panel type of a new panel that names none.
pub fn default_panel_type() -> (t: PanelType)
    ensures
        t == PanelType::Bt,
{
    PanelType::Bt
}

impl NewPanel {
    /// The panel, with a fresh identifier, created and updated now, and no
    /// session.
    pub fn into_panel(self) -> (p: Panel)
        ensures
            p.name == self.name,
            p.url == self.url,
            p.panel_type == self.panel_type,
            p.session_ref is None,
            uuid_text(p.id@),
            utc_stamp(p.created_at@),
            p.created_at@ == p.updated_at@,
    {
        let now = now_rfc3339();
        Panel {
            id: new_id(),
            name: self.name,
            url: self.url,
            panel_type: self.panel_type,
            session_ref: None,
            created_at: now.clone(),
            updated_at: now,
        }
    }
}

} // verus!
