//! The routing table as it is written down: a JSON object that maps each
//! `host:port` key to a pair of backend host and backend port.

use std::collections::HashMap;
use vstd::prelude::*;
use crate::routing::{routes_map, BackendAddress, Route, RoutingTable};

verus! {

/// Where a configuration text stopped making sense.
#[derive(Clone, Copy, Debug, PartialEq, Eq, Structural)]
pub struct ConfigError {
    pub line: usize,
    pub column: usize,
}

/// The table that `serde_json` reads from a configuration text, or `None`
/// where it refuses the text.
pub uninterp spec fn json_routes(text: Seq<char>) -> Option<Map<Seq<char>, (Seq<char>, u16)>>;

/// `serde_json::from_str`, asked for a map from strings to pairs of a string
/// and a 16-bit number. What it makes of a text depends on the text alone;
/// the entries come back in no particular order, each key once, so that the
/// table they describe is the same in every order.
#[verifier::external_body]
fn parse_routes(text: &str) -> (r: Result<Vec<Route>, serde_json::Error>)
    ensures
        match r {
            Ok(routes) => json_routes(text@) == Some(routes_map(routes@)),
            Err(_) => json_routes(text@) is None,
        },
{
    let parsed: Result<HashMap<String, (String, u16)>, serde_json::Error> = serde_json::from_str(
        text,
    );
    match parsed {
        Ok(map) => Ok(
            map.into_iter().map(
                |(key, (host, port))| Route { key, backend: BackendAddress { host, port } },
            ).collect(),
        ),
        Err(error) => Err(error),
    }
}

/// Builds the routing table from its configuration text.
pub fn load_routes(text: &str) -> (r: Result<RoutingTable, ConfigError>)
    ensures
        match json_routes(text@) {
            Some(routes) => r matches Ok(table) && table@ == routes,
            None => r is Err,
        },
{
    match parse_routes(text) {
        Ok(routes) => Ok(RoutingTable::from_routes(routes.as_slice())),
        Err(error) => Err(ConfigError { line: error.line(), column: error.column() }),
    }
}

} // verus!
