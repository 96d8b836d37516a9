//! Server configuration, built from the raw values of its environment
//! variables: a value is trimmed and an empty one counts as unset; a list is
//! comma-separated, each item trimmed and empty items dropped.

use vstd::prelude::*;

use crate::text::split_commas;
use crate::text::split_on;
use crate::text::trim;
use crate::text::trimmed;

verus! {

/// The configuration of the relay server.
#[derive(Debug, Clone)]
pub struct Config {
    pub udp_bind_address: String,
    pub allowed_versions: Vec<String>,
    pub whitelist: Vec<String>,
    pub remote_whitelist_endpoint: String,
    pub remote_whitelist_token: String,
    pub relay_id: String,
}

/// A raw variable value, trimmed; `None` when unset or only white space.
pub open spec fn spec_env_string(raw: Option<Seq<char>>) -> Option<Seq<char>> {
    match raw {
        None => None,
        Some(v) => if trimmed(v).len() == 0 {
            None
        } else {
            Some(trimmed(v))
        },
    }
}

/// The items of a comma-separated list, each trimmed, empty ones dropped.
pub open spec fn csv_items(s: Seq<char>) -> Seq<Seq<char>> {
    split_on(s, ',').map_values(|p: Seq<char>| trimmed(p)).filter(|p: Seq<char>| p.len() > 0)
}

/// A raw list value: its items, or `None` when it is unset or has none.
pub open spec fn spec_env_csv(raw: Option<Seq<char>>) -> Option<Seq<Seq<char>>> {
    match spec_env_string(raw) {
        None => None,
        Some(v) => if csv_items(v).len() == 0 {
            None
        } else {
            Some(csv_items(v))
        },
    }
}

/// The view of an optional string.
pub open spec fn opt_view(o: Option<String>) -> Option<Seq<char>> {
    match o {
        Some(s) => Some(s@),
        None => None,
    }
}

/// The views of a list of strings.
pub open spec fn strings_view(v: Seq<String>) -> Seq<Seq<char>> {
    v.map_values(|s: String| s@)
}

/// Reads a variable's raw value: trimmed, and `None` when unset or empty.
pub fn env_string(raw: Option<String>) -> (res: Option<String>)
    ensures
        res matches Some(s) ==> spec_env_string(opt_view(raw)) == Some(s@),
        res is None ==> spec_env_string(opt_view(raw)) is None,
{
    let v = match raw {
        Some(v) => v,
        None => return None,
    };
    let v = trim(v.as_str());
    if v.as_str().is_empty() {
        None
    } else {
        Some(v)
    }
}

/// Reads a comma-separated variable: `"a, b,,c"` gives `["a", "b", "c"]`,
/// and an unset variable, or one without items, gives `None`.
pub fn env_csv(raw: Option<String>) -> (res: Option<Vec<String>>)
    ensures
        res matches Some(v) ==> spec_env_csv(opt_view(raw)) == Some(strings_view(v@)),
        res is None ==> spec_env_csv(opt_view(raw)) is None,
{
    let raw = match env_string(raw) {
        Some(r) => r,
        None => return None,
    };
    let pieces = split_commas(raw.as_str());
    let ghost parts = split_on(raw@, ',');
    let ghost trimmed_parts = parts.map_values(|p: Seq<char>| trimmed(p));
    let mut items: Vec<String> = Vec::new();
    let mut i: usize = 0;
    while i < pieces.len()
        invariant
            i <= pieces@.len(),
            pieces@.map_values(|p: String| p@) == parts,
            trimmed_parts == parts.map_values(|p: Seq<char>| trimmed(p)),
            strings_view(items@) == trimmed_parts.take(i as int).filter(
                |p: Seq<char>| p.len() > 0,
            ),
        decreases pieces@.len() - i,
    {
        let item = trim(pieces[i].as_str());
        proof {
            assert(pieces@.map_values(|p: String| p@)[i as int] == pieces@[i as int]@);
            assert(trimmed_parts[i as int] == item@);
            let t = trimmed_parts.take(i + 1);
            assert(t.drop_last() =~= trimmed_parts.take(i as int));
            assert(t.last() == item@);
            reveal_with_fuel(Seq::filter, 1);
        }
        if !item.as_str().is_empty() {
            let ghost before = items@;
            items.push(item);
            proof {
                assert(strings_view(items@) =~= strings_view(before).push(item@));
            }
        }
        i = i + 1;
    }
    proof {
        assert(trimmed_parts.take(pieces@.len() as int) =~= trimmed_parts);
    }
    if items.len() == 0 {
        None
    } else {
        Some(items)
    }
}

/// The address the server binds when none is configured.
pub fn udp_bind_address() -> (res: String)
    ensures
        res@ == "0.0.0.0:8080"@,
{
    "0.0.0.0:8080".to_owned()
}

/// The client versions allowed when none are configured: none listed.
pub fn allowed_versions() -> (res: Vec<String>)
    ensures
        res@.len() == 0,
{
    Vec::new()
}

/// The application tokens allowed when none are configured: none listed.
pub fn whitelist() -> (res: Vec<String>)
    ensures
        res@.len() == 0,
{
    Vec::new()
}

/// The value of an unset text setting.
pub fn empty_string() -> (res: String)
    ensures
        res@.len() == 0,
{
    String::new()
}

/// A string setting or its default.
fn string_or(value: Option<String>, default: String) -> (res: String)
    ensures
        res@ == match value {
            Some(v) => v@,
            None => default@,
        },
{
    match value {
        Some(v) => v,
        None => default,
    }
}

/// A list setting or its default.
fn list_or(value: Option<Vec<String>>, default: Vec<String>) -> (res: Vec<String>)
    ensures
        res@ == match value {
            Some(v) => v@,
            None => default@,
        },
{
    match value {
        Some(v) => v,
        None => default,
    }
}

/// The configuration that the raw values of `UDP_BIND_ADDRESS`,
/// `ALLOWED_VERSIONS`, `WHITELIST`, `REMOTE_WHITELIST_ENDPOINT`,
/// `REMOTE_WHITELIST_TOKEN` and `RELAY_ID` give: each value read as above,
/// and each unset one replaced by its default.
pub fn config_from_env(
    udp_bind: Option<String>,
    versions: Option<String>,
    white: Option<String>,
    endpoint: Option<String>,
    token: Option<String>,
    relay: Option<String>,
) -> (res: Config)
    ensures
        res.udp_bind_address@ == match spec_env_string(opt_view(udp_bind)) {
            Some(v) => v,
            None => "0.0.0.0:8080"@,
        },
        strings_view(res.allowed_versions@) == match spec_env_csv(opt_view(versions)) {
            Some(v) => v,
            None => Seq::empty(),
        },
        strings_view(res.whitelist@) == match spec_env_csv(opt_view(white)) {
            Some(v) => v,
            None => Seq::empty(),
        },
        res.remote_whitelist_endpoint@ == match spec_env_string(opt_view(endpoint)) {
            Some(v) => v,
            None => Seq::empty(),
        },
        res.remote_whitelist_token@ == match spec_env_string(opt_view(token)) {
            Some(v) => v,
            None => Seq::empty(),
        },
        res.relay_id@ == match spec_env_string(opt_view(relay)) {
            Some(v) => v,
            None => Seq::empty(),
        },
{
    let allowed = list_or(env_csv(versions), allowed_versions());
    let listed = list_or(env_csv(white), whitelist());
    proof {
        assert(strings_view(Seq::<String>::empty()) =~= Seq::<Seq<char>>::empty());
    }
    Config {
        udp_bind_address: string_or(env_string(udp_bind), udp_bind_address()),
        allowed_versions: allowed,
        whitelist: listed,
        remote_whitelist_endpoint: string_or(env_string(endpoint), empty_string()),
        remote_whitelist_token: string_or(env_string(token), empty_string()),
        relay_id: string_or(env_string(relay), empty_string()),
    }
}

/// Whether to warn that every client version will be treated as allowed:
/// no version is listed.
pub fn warn_all_versions_allowed(cfg: &Config) -> (res: bool)
    ensures
        res == (cfg.allowed_versions@.len() == 0),
{
    cfg.allowed_versions.len() == 0
}

/// Whether to warn that no application will be allowed: there is neither a
/// remote whitelist endpoint nor a listed token.
pub fn warn_no_apps_allowed(cfg: &Config) -> (res: bool)
    ensures
        res == (cfg.remote_whitelist_endpoint@.len() == 0 && cfg.whitelist@.len() == 0),
{
    cfg.remote_whitelist_endpoint.as_str().is_empty() && cfg.whitelist.len() == 0
}

} // verus!
