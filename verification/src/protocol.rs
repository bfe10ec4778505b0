//! The `underpane://` custom protocol: the host names that address a
//! monitor's wallpaper realms, request routing, file serving, and the
//! resolution of `asset`-realm paths.

pub mod assets;
pub mod files;
pub mod host;
pub mod response;

pub use assets::{resolve_external_target, ExternalTarget};
pub use files::{
    plan_file_response, plan_file_response_with_type, unsatisfiable_head, FilePlan, FilePlanView,
    MAX_EXTERNAL_RESPONSE_BYTES, MAX_RESPONSE_BYTES,
};
pub use host::{
    monitor_host_name, parse_host, realm_origin, wallpaper_host, wallpaper_http_address, Target,
};
pub use response::{
    accepts_uri_list, cors_headers, method_not_allowed, not_found, preflight_response,
    realm_headers, route_request, uri_list_body, HttpMethod, ResponseHead, Route, SimpleResponse,
};
