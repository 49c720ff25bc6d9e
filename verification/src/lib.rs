//! Almagest: dashboards as files. The verified core of the dashboard DSL and
//! its validation rules, parameter resolution and safe SQL templating, URL
//! state and its round trip, value formatting, roles, sessions, CSRF and the
//! login throttle, the `.alm` format's migrations and records, the importers'
//! decisions, and the decisions of the HTTP server and the command-line tool.

pub mod text;
pub mod error;
pub mod role;
pub mod throttle;
pub mod json;
pub mod template;
pub mod format;
pub mod dashboard;
pub mod params;
pub mod dates;
pub mod resolve;
pub mod urlstate;
pub mod session;
pub mod schema;
pub mod store;
pub mod connectors;
pub mod api;
pub mod login;
pub mod snapshot;
pub mod cli;
pub mod url_round_trip;
