//! A managed server.
use vstd::prelude::*;

use crate::stamps::{new_id, now_rfc3339, utc_stamp, uuid_text};

verus! {

#[derive(Clone, Copy, Debug, PartialEq, Eq, Structural)]
pub enum AuthType {
    Key,
    Password,
}

#[derive(Clone, Copy, Debug, PartialEq, Eq, Structural)]
pub enum PanelType {
    Bt,
    OnePanel,
}

#[derive(Clone, Debug)]
pub struct Host {
    pub id: String,
    pub name: String,
    pub address: String,
    pub port: u16,
    pub username: String,
    pub auth_type: AuthType,
    pub auth_ref: String,
    pub group_name: String,
    pub tags: Vec<String>,
    pub panel_type: Option<PanelType>,
    pub panel_url: Option<String>,
    pub panel_session_ref: Option<String>,
    pub created_at: String,
    pub updated_at: String,
}

/// A host as values.
pub struct HostView {
    pub id: Seq<char>,
    pub name: Seq<char>,
    pub address: Seq<char>,
    pub port: u16,
    pub username: Seq<char>,
    pub auth_type: AuthType,
    pub auth_ref: Seq<char>,
    pub group_name: Seq<char>,
    pub tags: Seq<Seq<char>>,
    pub panel_type: Option<PanelType>,
    pub panel_url: Option<Seq<char>>,
    pub panel_session_ref: Option<Seq<char>>,
    pub created_at: Seq<char>,
    pub updated_at: Seq<char>,
}

impl View for Host {
    type V = HostView;

    open spec fn view(&self) -> HostView {
        HostView {
            id: self.id@,
            name: self.name@,
            address: self.address@,
            port: self.port,
            username: self.username@,
            auth_type: self.auth_type,
            auth_ref: self.auth_ref@,
            group_name: self.group_name@,
            tags: self.tags.deep_view(),
            panel_type: self.panel_type,
            panel_url: self.panel_url.deep_view(),
            panel_session_ref: self.panel_session_ref.deep_view(),
            created_at: self.created_at@,
            updated_at: self.updated_at@,
        }
    }
}

impl Host {
    /// A new host with a fresh identifier, created and updated now, and no
    /// panel session.
    pub fn new(
        name: String,
        address: String,
        port: u16,
        username: String,
        auth_type: AuthType,
        auth_ref: String,
        group_name: String,
        tags: Vec<String>,
        panel_type: Option<PanelType>,
        panel_url: Option<String>,
    ) -> (h: Self)
        ensures
            h.name == name,
            h.address == address,
            h.port == port,
            h.username == username,
            h.auth_type == auth_type,
            h.auth_ref == auth_ref,
            h.group_name == group_name,
            h.tags == tags,
            h.panel_type == panel_type,
            h.panel_url == panel_url,
            h.panel_session_ref is None,
            uuid_text(h.id@),
            utc_stamp(h.created_at@),
            h.created_at@ == h.updated_at@,
    {
        let now = now_rfc3339();
        Self {
            id: new_id(),
            name,
            address,
            port,
            username,
            auth_type,
            auth_ref,
            group_name,
            tags,
            panel_type,
            panel_url,
            panel_session_ref: None,
            created_at: now.clone(),
            updated_at: now,
        }
    }
}

} // verus!
