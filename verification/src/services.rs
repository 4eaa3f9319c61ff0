pub mod batch;
pub mod host_service;
pub mod metrics;
pub mod panel_service;
pub mod panel_tabs;
pub mod registry;
pub mod sftp_client;
pub mod ssh_client;
pub mod terminal;
