//! Network policy and page diagnostics for a browser automation agent.
//!
//! - [`domains`]: the domain filter, which says where the agent may navigate and
//!   what a page may load
//! - [`glob`]: the domain patterns that the filter is made of
//! - [`ceiling`]: the most that configuration can allow
//! - [`handshake`]: what a local development server has to answer
//! - [`commands`]: the commands that put all this in force in the browser
//! - [`console`]: console arguments, made readable
//! - [`tracker`]: console messages and page errors, remembered up to a limit
//! - [`json`], [`compact`], [`interchange`], [`text`], [`urls`]: what the others are built on

pub mod ceiling;
pub mod commands;
pub mod compact;
pub mod console;
pub mod domains;
pub mod glob;
pub mod handshake;
pub mod interchange;
pub mod json;
pub mod text;
pub mod tracker;
pub mod urls;

pub use ceiling::{ceiling_warnings, filter_by_ceiling, navigation_domain_ceiling};
pub use commands::{
    domain_filter_script, get_frame_tree, install_domain_filter, install_domain_filter_fetch,
    install_domain_filter_script, must_leave, sanitize_existing_pages, set_content,
    set_extra_headers, set_offline, Command, PageInfo,
};
pub use console::{format_console_arg, format_console_args};
pub use domains::{parse_domain_list, DomainFilter};
pub use glob::glob_match_domain;
pub use handshake::{
    check_localhost_handshake, handshake_url, is_localhost, HandshakeCache, HandshakeReply,
    HandshakeStep,
};
pub use interchange::{from_value, to_value};
pub use json::Json;
pub use tracker::{ConsoleEntry, ErrorEntry, EventTracker};
pub use urls::UrlHost;
