//! Remote tmux session management: command building, control-mode parsing,
//! host configuration and the state machines behind the remote sessions panel.

pub mod text;
pub mod types;
pub mod commands;
pub mod cc_parser;
pub mod remote_hosts;
pub mod ssh_args;
pub mod probe;
pub mod working_dir_editor;
pub mod host_form;
pub mod hosts_page;
pub mod connection;
pub mod model;
pub mod attach_registry;
pub mod panel;
