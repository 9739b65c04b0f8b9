//! Session, reconciliation and network-matching engine for managing
//! Keenetic routers on the local network.
//!
//! The engine does no input or output of its own. It says which request to
//! send next and reads what came back; sending, listing the machine's
//! network interfaces and looking up passwords are the caller's part.

pub mod address;
pub mod api;
pub mod clients;
pub mod digest;
pub mod http;
pub mod interfaces;
pub mod json;
pub mod menu;
pub mod model;
pub mod net;
pub mod overrides;
pub mod pipeline;
pub mod present;
pub mod registry;
pub mod session;
pub mod text;

pub use address::{extract_host, normalize_address};
pub use clients::{client_is_online, reconcile};
pub use http::{Header, HttpRequest, HttpResponse, Method, Reply};
pub use interfaces::{
    active_interface, interface_type, local_interfaces, local_networks, IpNet, LocalInterface,
};
pub use json::JsonValue;
pub use menu::{
    append_interface_section, build_tray_menu, parse_menu_id, tray_title, tray_tooltip, MenuAction,
    MenuEntry, MenuNode, PolicyRequest,
};
pub use model::{ClientInfo, InterfaceInfo, PolicyInfo, RouterError, RouterInfo};
pub use net::{ip_in_networks, Ipv4Net};
pub use pipeline::{
    build_active_state, router_candidates, ActiveState, Candidate, Command, Event, Outcome,
    Pipeline, Stage,
};
pub use overrides::{apply_overrides, override_for, record_override, PolicyOverride};
pub use present::{apply_policy, decode_mac, encode_mac, policy_label, policy_short};
pub use registry::{
    delete_router, remove_router, save_router, RegisterCommand, RegisterStage, Registration,
};
pub use session::{KeeneticRouter, Phase, Step};
