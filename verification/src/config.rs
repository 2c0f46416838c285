//! Configuration defaults: every lookup that can fail degrades to a default.

use vstd::prelude::*;
use crate::numbers::{dec_value, digits_of, is_u16_string, parse_u16};

verus! {

/// Port the server binds when `PORT` is unset or malformed.
pub const DEFAULT_PORT: u16 = 3000;

/// Subtitle shown when `SUBTITLE` is unset.
pub open spec fn spec_default_subtitle() -> Seq<char> {
    "Kubernetes Workshop Example Application"@
}

/// Sentinel shown when the hostname lookup fails.
pub open spec fn spec_unknown_hostname() -> Seq<char> {
    "unknown"@
}

/// The view of an optional owned string.
pub open spec fn view_of(setting: Option<String>) -> Option<Seq<char>> {
    match setting {
        Some(s) => Some(s@),
        None => None,
    }
}

/// The port chosen for a given `PORT` setting: its value when it parses as a
/// `u16`, the default otherwise.
pub open spec fn spec_port(setting: Option<Seq<char>>) -> int {
    match setting {
        Some(s) => if is_u16_string(s) {
            dec_value(digits_of(s))
        } else {
            DEFAULT_PORT as int
        },
        None => DEFAULT_PORT as int,
    }
}

/// The subtitle chosen for a given `SUBTITLE` setting.
pub open spec fn spec_subtitle(setting: Option<Seq<char>>) -> Seq<char> {
    match setting {
        Some(s) => s,
        None => spec_default_subtitle(),
    }
}

/// The hostname rendered for a given lookup result.
pub open spec fn spec_hostname(looked_up: Option<Seq<char>>) -> Seq<char> {
    match looked_up {
        Some(s) => s,
        None => spec_unknown_hostname(),
    }
}

/// Pick the port to bind from the raw `PORT` value, if any: a well-formed
/// number gives its value, anything else gives the default.
pub fn port_from_setting(setting: Option<String>) -> (r: u16)
    ensures
        r as int == spec_port(view_of(setting)),
{
    match setting {
        Some(s) => match parse_u16(s.as_str()) {
            Some(p) => p,
            None => DEFAULT_PORT,
        },
        None => DEFAULT_PORT,
    }
}

/// Pick the subtitle to render from the raw `SUBTITLE` value, if any.
pub fn subtitle_or_default(setting: Option<String>) -> (r: String)
    ensures
        r@ == spec_subtitle(view_of(setting)),
{
    match setting {
        Some(s) => s,
        None => "Kubernetes Workshop Example Application".to_owned(),
    }
}

/// Pick the hostname to render from the result of the lookup, if it succeeded.
pub fn hostname_or_default(looked_up: Option<String>) -> (r: String)
    ensures
        r@ == spec_hostname(view_of(looked_up)),
{
    match looked_up {
        Some(s) => s,
        None => "unknown".to_owned(),
    }
}

} // verus!
