//! Panels as rows of the `panels` table.
use vstd::prelude::*;

use crate::models::panel::{Panel, PanelType, PanelView};
use crate::text::{chars_eq, to_chars};

verus! {

/// How a panel type is stored.
pub open spec fn panel_str(t: PanelType) -> Seq<char> {
    match t {
        PanelType::Bt => "bt"@,
        PanelType::OnePanel => "1panel"@,
    }
}

/// How a stored panel type is read: `1panel`, or else BT.
pub open spec fn panel_of_str(s: Seq<char>) -> PanelType {
    if s == "1panel"@ {
        PanelType::OnePanel
    } else {
        PanelType::Bt
    }
}

pub fn panel_type_to_str(panel: &PanelType) -> (s: &'static str)
    ensures
        s@ == panel_str(*panel),
{
    match panel {
        PanelType::Bt => "bt",
        PanelType::OnePanel => "1panel",
    }
}

pub fn panel_type_from_str(s: &str) -> (t: PanelType)
    ensures
        t == panel_of_str(s@),
{
    if chars_eq(&to_chars(s), &to_chars("1panel")) {
        PanelType::OnePanel
    } else {
        PanelType::Bt
    }
}

/// The columns of a `panels` row, in table order.
#[derive(Clone, Debug)]
pub struct PanelRow {
    pub id: String,
    pub name: String,
    pub url: String,
    pub panel_type: String,
    pub session_ref: Option<String>,
    pub created_at: String,
    pub updated_at: String,
}

pub struct PanelRowView {
    pub id: Seq<char>,
    pub name: Seq<char>,
    pub url: Seq<char>,
    pub panel_type: Seq<char>,
    pub session_ref: Option<Seq<char>>,
    pub created_at: Seq<char>,
    pub updated_at: Seq<char>,
}

impl View for PanelRow {
    type V = PanelRowView;

    open spec fn view(&self) -> PanelRowView {
        PanelRowView {
            id: self.id@,
            name: self.name@,
            url: self.url@,
            panel_type: self.panel_type@,
            session_ref: self.session_ref.deep_view(),
            created_at: self.created_at@,
            updated_at: self.updated_at@,
        }
    }
}

/// The row a panel is written as: its fields, the type as text.
pub open spec fn row_of_panel(p: PanelView) -> PanelRowView {
    PanelRowView {
        id: p.id,
        name: p.name,
        url: p.url,
        panel_type: panel_str(p.panel_type),
        session_ref: p.session_ref,
        created_at: p.created_at,
        updated_at: p.updated_at,
    }
}

/// The panel a row is read as.
pub open spec fn panel_of_row(r: PanelRowView) -> PanelView {
    PanelView {
        id: r.id,
        name: r.name,
        url: r.url,
        panel_type: panel_of_str(r.panel_type),
        session_ref: r.session_ref,
        created_at: r.created_at,
        updated_at: r.updated_at,
    }
}

fn clone_opt(s: &Option<String>) -> (r: Option<String>)
    ensures
        r.deep_view() == s.deep_view(),
{
    match s {
        Some(x) => Some(x.clone()),
        None => None,
    }
}

pub fn panel_to_row(panel: &Panel) -> (row: PanelRow)
    ensures
        row@ == row_of_panel(panel@),
        row.id@ == panel.id@,
        row.name@ == panel.name@,
        row.url@ == panel.url@,
        row.session_ref.deep_view() == panel.session_ref.deep_view(),
        row.created_at@ == panel.created_at@,
        row.updated_at@ == panel.updated_at@,
{
    PanelRow {
        id: panel.id.clone(),
        name: panel.name.clone(),
        url: panel.url.clone(),
        panel_type: panel_type_to_str(&panel.panel_type).to_owned(),
        session_ref: clone_opt(&panel.session_ref),
        created_at: panel.created_at.clone(),
        updated_at: panel.updated_at.clone(),
    }
}

pub fn row_to_panel(row: PanelRow) -> (p: Panel)
    ensures
        p@ == panel_of_row(row@),
        p.id@ == row.id@,
        p.name@ == row.name@,
        p.url@ == row.url@,
        p.session_ref.deep_view() == row.session_ref.deep_view(),
        p.created_at@ == row.created_at@,
        p.updated_at@ == row.updated_at@,
{
    let panel_type = panel_type_from_str(row.panel_type.as_str());
    Panel {
        id: row.id,
        name: row.name,
        url: row.url,
        panel_type,
        session_ref: row.session_ref,
        created_at: row.created_at,
        updated_at: row.updated_at,
    }
}

/// A panel written as a row and read back from it is the same panel.
pub proof fn law_panel_row_roundtrip(p: PanelView)
    ensures
        panel_of_row(row_of_panel(p)) == p,
{
    assert(panel_of_str(panel_str(p.panel_type)) == p.panel_type) by {
        reveal_strlit("bt");
        reveal_strlit("1panel");
        if p.panel_type == PanelType::Bt {
            assert("bt"@.len() != "1panel"@.len());
        }
    }
}

/// Each column of a written row holds the panel's field of the same name,
/// the type as `bt` or `1panel`; and each field of a panel read from a row
/// comes from the column of the same name, any type text but `1panel`
/// reading as BT.
pub proof fn law_panel_row_columns(p: PanelView, r: PanelRowView)
    ensures
        row_of_panel(p).id == p.id,
        row_of_panel(p).name == p.name,
        row_of_panel(p).url == p.url,
        row_of_panel(p).session_ref == p.session_ref,
        row_of_panel(p).created_at == p.created_at,
        row_of_panel(p).updated_at == p.updated_at,
        p.panel_type is Bt ==> row_of_panel(p).panel_type == "bt"@,
        p.panel_type is OnePanel ==> row_of_panel(p).panel_type == "1panel"@,
        panel_of_row(r).id == r.id,
        panel_of_row(r).name == r.name,
        panel_of_row(r).url == r.url,
        panel_of_row(r).session_ref == r.session_ref,
        panel_of_row(r).created_at == r.created_at,
        panel_of_row(r).updated_at == r.updated_at,
        (panel_of_row(r).panel_type is OnePanel) == (r.panel_type == "1panel"@),
{
}

} // verus!
