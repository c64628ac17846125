use handshake_proxy::config::load_routes;
use handshake_proxy::routing::{route_key, BackendAddress, Route, RoutingTable};

fn route(key: &str, host: &str, port: u16) -> Route {
    Route { key: key.to_string(), backend: BackendAddress { host: host.to_string(), port } }
}

#[test]
fn key_is_host_colon_port() {
    assert_eq!(route_key("play.example.com", 25565), "play.example.com:25565");
    assert_eq!(route_key("localhost", 0), "localhost:0");
    assert_eq!(route_key("localhost", 7), "localhost:7");
    assert_eq!(route_key("localhost", 10), "localhost:10");
    assert_eq!(route_key("localhost", 100), "localhost:100");
    assert_eq!(route_key("localhost", 9999), "localhost:9999");
    assert_eq!(route_key("localhost", 10000), "localhost:10000");
    assert_eq!(route_key("localhost", 65535), "localhost:65535");
    assert_eq!(route_key("", 80), ":80");
}

#[test]
fn key_agrees_with_the_formatter() {
    for port in 0..=u16::MAX {
        assert_eq!(route_key("h", port), format!("h:{}", port));
    }
}

#[test]
fn key_is_taken_verbatim() {
    assert_eq!(route_key("Play.Example.COM.", 25565), "Play.Example.COM.:25565");
    assert_eq!(route_key("::1", 25565), "::1:25565");
    assert_eq!(route_key("\u{4e16}\u{754c}", 1), "\u{4e16}\u{754c}:1");
}

#[test]
fn resolves_configured_hosts() {
    let table = RoutingTable::from_routes(&[
        route("play.example.com:25565", "10.0.0.5", 25566),
        route("other.example.com:25565", "10.0.0.6", 25565),
    ]);
    assert_eq!(
        table.resolve("play.example.com:25565"),
        Some(&BackendAddress { host: "10.0.0.5".to_string(), port: 25566 })
    );
    assert_eq!(
        table.resolve("other.example.com:25565"),
        Some(&BackendAddress { host: "10.0.0.6".to_string(), port: 25565 })
    );
}

#[test]
fn misses_are_none() {
    let table = RoutingTable::from_routes(&[route("play.example.com:25565", "10.0.0.5", 25566)]);
    assert_eq!(table.resolve("unknown.example.com:25565"), None);
    assert_eq!(table.resolve("play.example.com:25566"), None);
    assert_eq!(table.resolve("play.example.com"), None);
    assert_eq!(table.resolve("PLAY.example.com:25565"), None);
    assert_eq!(table.resolve(""), None);
    assert_eq!(RoutingTable::from_routes(&[]).resolve("play.example.com:25565"), None);
}

#[test]
fn a_later_route_replaces_an_earlier_one() {
    let table = RoutingTable::from_routes(&[
        route("play.example.com:25565", "10.0.0.5", 25566),
        route("play.example.com:25565", "10.0.0.9", 1),
    ]);
    assert_eq!(
        table.resolve("play.example.com:25565"),
        Some(&BackendAddress { host: "10.0.0.9".to_string(), port: 1 })
    );
}

#[test]
fn loads_a_configuration() {
    let table = load_routes(
        "{\"play.example.com:25565\": [\"10.0.0.5\", 25566], \"b:1\": [\"c\", 2]}",
    )
    .unwrap();
    assert_eq!(
        table.resolve("play.example.com:25565"),
        Some(&BackendAddress { host: "10.0.0.5".to_string(), port: 25566 })
    );
    assert_eq!(table.resolve("b:1"), Some(&BackendAddress { host: "c".to_string(), port: 2 }));
    assert_eq!(table.resolve("c:2"), None);
    assert_eq!(table.resolve("{\"play.example.com:25565\""), None);
}

#[test]
fn loads_an_empty_configuration() {
    let table = load_routes("{}").unwrap();
    assert_eq!(table.resolve("play.example.com:25565"), None);
}

#[test]
fn refuses_a_malformed_configuration() {
    assert!(load_routes("").is_err());
    assert!(load_routes("[]").is_err());
    assert!(load_routes("{\"a:1\": [\"b\"]}").is_err());
    assert!(load_routes("{\"a:1\": [\"b\", 70000]}").is_err());
    assert!(load_routes("{\"a:1\": [\"b\", -1]}").is_err());
    assert!(load_routes("{\"a:1\": [\"b\", 2, 3]}").is_err());
    assert!(load_routes("{\"a:1\": {\"host\": \"b\", \"port\": 2}}").is_err());
    assert!(load_routes("{\"a:1\": [\"b\", 2]} trailing").is_err());
}

#[test]
fn says_where_a_configuration_is_malformed() {
    let error = match load_routes("{\n  \"a:1\": [\"b\", 70000]\n}") {
        Ok(_) => panic!("a port above 65535 was accepted"),
        Err(error) => error,
    };
    assert_eq!(error.line, 2);
}
