//! Where a client's requested host leads.
//!
//! A client names the host and port it believes it is connecting to. The two,
//! joined by a colon, are the key under which the routing table holds the
//! backend that serves them. The key is used as it is written: no case is
//! folded and nothing is normalised.

use vstd::prelude::*;
use vstd::hash_map::StringHashMap;
use vstd::string::StringExecFns;

verus! {

/// The real network location of a backend.
#[derive(Clone, Debug, PartialEq, Eq)]
pub struct BackendAddress {
    pub host: String,
    pub port: u16,
}

impl View for BackendAddress {
    type V = (Seq<char>, u16);

    open spec fn view(&self) -> (Seq<char>, u16) {
        (self.host@, self.port)
    }
}

/// One line of the routing configuration.
#[derive(Clone, Debug, PartialEq, Eq)]
pub struct Route {
    /// `host:port`, as a client asks for it.
    pub key: String,
    pub backend: BackendAddress,
}

/// The decimal digit for `d`.
pub open spec fn digit_char(d: nat) -> char {
    if d == 0 {
        '0'
    } else if d == 1 {
        '1'
    } else if d == 2 {
        '2'
    } else if d == 3 {
        '3'
    } else if d == 4 {
        '4'
    } else if d == 5 {
        '5'
    } else if d == 6 {
        '6'
    } else if d == 7 {
        '7'
    } else if d == 8 {
        '8'
    } else {
        '9'
    }
}

/// `n` in decimal, without leading zeros.
pub open spec fn decimal(n: nat) -> Seq<char>
    decreases n,
{
    if n < 10 {
        seq![digit_char(n)]
    } else {
        decimal(n / 10).push(digit_char(n % 10))
    }
}

/// The key under which the backend for `host` and `port` is looked up.
pub open spec fn route_key_of(host: Seq<char>, port: u16) -> Seq<char> {
    host + seq![':'] + decimal(port as nat)
}

/// The table that a list of routes describes. Where a key occurs twice the
/// later route stands.
pub open spec fn routes_map(routes: Seq<Route>) -> Map<Seq<char>, (Seq<char>, u16)>
    decreases routes.len(),
{
    if routes.len() == 0 {
        Map::empty()
    } else {
        routes_map(routes.drop_last()).insert(routes.last().key@, routes.last().backend@)
    }
}

fn digit_str(d: u16) -> (r: &'static str)
    requires
        d < 10,
    ensures
        r@ == seq![digit_char(d as nat)],
{
    let r = if d == 0 {
        proof {
            reveal_strlit("0");
        }
        "0"
    } else if d == 1 {
        proof {
            reveal_strlit("1");
        }
        "1"
    } else if d == 2 {
        proof {
            reveal_strlit("2");
        }
        "2"
    } else if d == 3 {
        proof {
            reveal_strlit("3");
        }
        "3"
    } else if d == 4 {
        proof {
            reveal_strlit("4");
        }
        "4"
    } else if d == 5 {
        proof {
            reveal_strlit("5");
        }
        "5"
    } else if d == 6 {
        proof {
            reveal_strlit("6");
        }
        "6"
    } else if d == 7 {
        proof {
            reveal_strlit("7");
        }
        "7"
    } else if d == 8 {
        proof {
            reveal_strlit("8");
        }
        "8"
    } else {
        proof {
            reveal_strlit("9");
        }
        "9"
    };
    assert(r@ =~= seq![digit_char(d as nat)]);
    r
}

fn append_decimal(out: &mut String, n: u16)
    ensures
        final(out)@ == old(out)@ + decimal(n as nat),
    decreases n,
{
    if n >= 10 {
        append_decimal(out, n / 10);
    }
    out.append(digit_str(n % 10));
    proof {
        assert(out@ =~= old(out)@ + decimal(n as nat));
    }
}

/// Joins a requested host and port into the key of the routing table.
pub fn route_key(host: &str, port: u16) -> (key: String)
    ensures
        key@ == route_key_of(host@, port),
{
    let mut key = String::from_str(host);
    proof {
        reveal_strlit(":");
    }
    key.append(":");
    append_decimal(&mut key, port);
    proof {
        assert(key@ =~= route_key_of(host@, port));
    }
    key
}

/// The mapping from requested `host:port` to backend. It is built once and
/// offers no way to change it afterwards.
pub struct RoutingTable {
    routes: StringHashMap<BackendAddress>,
}

impl View for RoutingTable {
    type V = Map<Seq<char>, (Seq<char>, u16)>;

    closed spec fn view(&self) -> Map<Seq<char>, (Seq<char>, u16)> {
        self.routes@.map_values(|b: BackendAddress| b@)
    }
}

impl RoutingTable {
    /// Builds the table that `routes` describes.
    pub fn from_routes(routes: &[Route]) -> (table: RoutingTable)
        ensures
            table@ == routes_map(routes@),
    {
        let mut map: StringHashMap<BackendAddress> = StringHashMap::new();
        let mut i: usize = 0;
        proof {
            assert(routes@.take(0) =~= Seq::<Route>::empty());
            assert(map@.map_values(|b: BackendAddress| b@) =~= routes_map(routes@.take(0)));
        }
        while i < routes.len()
            invariant
                i <= routes.len(),
                map@.map_values(|b: BackendAddress| b@) == routes_map(routes@.take(i as int)),
            decreases routes.len() - i,
        {
            let route = &routes[i];
            let backend = BackendAddress { host: route.backend.host.clone(), port: route.backend.port };
            let ghost before = map@;
            map.insert(route.key.clone(), backend);
            proof {
                let upto = routes@.take(i + 1);
                assert(upto.drop_last() =~= routes@.take(i as int));
                assert(upto.last() == routes@[i as int]);
                assert(backend@ == route.backend@);
                assert(map@.map_values(|b: BackendAddress| b@) =~= before.map_values(
                    |b: BackendAddress| b@,
                ).insert(route.key@, backend@));
            }
            i += 1;
        }
        proof {
            assert(routes@.take(i as int) =~= routes@);
        }
        RoutingTable { routes: map }
    }

    /// Looks up the backend for a key. That a key has none is no error here:
    /// what to make of it is the caller's business.
    pub fn resolve(&self, key: &str) -> (found: Option<&BackendAddress>)
        ensures
            match found {
                Some(backend) => self@.contains_key(key@) && backend@ == self@[key@],
                None => !self@.contains_key(key@),
            },
    {
        self.routes.get(key)
    }
}

} // verus!
