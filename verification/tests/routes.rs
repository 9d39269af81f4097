use hello::get_routes;
use hello::Route;
use hello::Routes;
use hello::RoutesProperties;

fn replies(routes: &Routes) -> Vec<(String, String)> {
    let mut out = Vec::new();
    for route in routes {
        let (status, file) = route.reply();
        out.push((status.to_string(), file.to_string()));
    }
    out
}

fn signatures(routes: &Routes) -> Vec<String> {
    let mut out = Vec::new();
    for route in routes {
        out.push(route.to_complete_string());
    }
    out
}

#[test]
fn reply_returns_status_line_and_file_name() {
    let route = Route::new("HTTP/1.1", "/", "GET", "HTTP/1.1 200 OK", "hello.html");
    assert_eq!(route.reply(), ("HTTP/1.1 200 OK", "hello.html"));
}

#[test]
fn signature_is_method_path_version() {
    let route = Route::new("HTTP/1.1", "/sleep", "GET", "HTTP/1.1 200 OK", "404.html");
    assert_eq!(route.to_complete_string(), "GET /sleep HTTP/1.1");
}

#[test]
fn signature_keeps_empty_fields_and_their_spaces() {
    let route = Route::new("", "", "", "", "");
    assert_eq!(route.to_complete_string(), "  ");
}

#[test]
fn route_matches_a_buffer_that_begins_with_its_signature() {
    let route = Route::new("HTTP/1.1", "/", "GET", "HTTP/1.1 200 OK", "hello.html");
    assert!(route.matches(b"GET / HTTP/1.1"));
    assert!(route.matches(b"GET / HTTP/1.1\r\nHost: localhost\r\n\r\n"));
    assert!(!route.matches(b"GET / HTTP/1."));
    assert!(!route.matches(b""));
    assert!(!route.matches(b" GET / HTTP/1.1"));
}

#[test]
fn matching_is_case_sensitive_and_keeps_whitespace() {
    let route = Route::new("HTTP/1.1", "/", "GET", "HTTP/1.1 200 OK", "hello.html");
    assert!(!route.matches(b"get / HTTP/1.1"));
    assert!(!route.matches(b"GET / http/1.1"));
    assert!(!route.matches(b"GET  / HTTP/1.1"));
    assert!(!route.matches(b"GET\t/ HTTP/1.1"));
}

#[test]
fn matching_compares_the_utf8_bytes_of_the_signature() {
    let route = Route::new("HTTP/1.1", "/caf\u{e9}", "GET", "HTTP/1.1 200 OK", "hello.html");
    assert!(route.matches("GET /caf\u{e9} HTTP/1.1\r\n".as_bytes()));
    assert!(!route.matches(b"GET /caf\xe9 HTTP/1.1\r\n"));
}

#[test]
fn default_table_has_three_routes_in_order() {
    let routes = get_routes();
    assert_eq!(
        signatures(&routes),
        vec!["GET / HTTP/1.1", "POST / HTTP/1.1", "GET /sleep HTTP/1.1"]
    );
    assert_eq!(
        replies(&routes),
        vec![
            ("HTTP/1.1 200 OK".to_string(), "hello.html".to_string()),
            ("HTTP/1.1 200 OK".to_string(), "hello.html".to_string()),
            ("HTTP/1.1 200 OK".to_string(), "404.html".to_string()),
        ]
    );
}

#[test]
fn find_by_version_returns_every_route_of_that_version() {
    let mut routes = get_routes();
    let found = routes.find_route_by_version("HTTP/1.1");
    assert_eq!(
        signatures(&found),
        vec!["GET / HTTP/1.1", "POST / HTTP/1.1", "GET /sleep HTTP/1.1"]
    );
}

#[test]
fn find_by_version_leaves_the_table_unchanged() {
    let mut routes = get_routes();
    let found = routes.find_route_by_version("HTTP/2");
    assert!(found.is_empty());
    assert_eq!(
        signatures(&routes),
        vec!["GET / HTTP/1.1", "POST / HTTP/1.1", "GET /sleep HTTP/1.1"]
    );
}

#[test]
fn find_by_method_does_not_stop_at_the_first_match() {
    let routes = get_routes();
    let found = routes.find_route_by_method("GET");
    assert_eq!(signatures(&found), vec!["GET / HTTP/1.1", "GET /sleep HTTP/1.1"]);
    assert_eq!(signatures(&routes.find_route_by_method("POST")), vec!["POST / HTTP/1.1"]);
    assert!(routes.find_route_by_method("get").is_empty());
    assert!(routes.find_route_by_method("GE").is_empty());
}

#[test]
fn find_by_path_compares_the_whole_path() {
    let routes = get_routes();
    assert_eq!(
        signatures(&routes.find_route_by_path("/")),
        vec!["GET / HTTP/1.1", "POST / HTTP/1.1"]
    );
    assert_eq!(signatures(&routes.find_route_by_path("/sleep")), vec!["GET /sleep HTTP/1.1"]);
    assert!(routes.find_route_by_path("/sl").is_empty());
    assert!(routes.find_route_by_path("").is_empty());
}

#[test]
fn find_on_an_empty_table_finds_nothing() {
    let mut routes: Routes = Vec::new();
    assert!(routes.find_route_by_buffer(b"GET / HTTP/1.1").is_empty());
    assert!(routes.find_route_by_method("GET").is_empty());
    assert!(routes.find_route_by_path("/").is_empty());
    assert!(routes.find_route_by_version("HTTP/1.1").is_empty());
}

#[test]
fn buffer_match_uses_the_whole_signature() {
    let routes = get_routes();
    let matched = routes.find_route_by_buffer(b"GET /sleep HTTP/1.1\r\n\r\n");
    assert_eq!(matched.len(), 1);
    assert_eq!(matched[0].reply(), ("HTTP/1.1 200 OK", "404.html"));
}

#[test]
fn each_default_signature_selects_its_route_alone() {
    let routes = get_routes();
    for route in &routes {
        let mut buffer = route.to_complete_string().into_bytes();
        buffer.extend_from_slice(b"\r\nHost: localhost\r\n\r\n");
        let matched = routes.find_route_by_buffer(&buffer);
        assert_eq!(signatures(&matched), vec![route.to_complete_string()]);
    }
}

#[test]
fn buffer_match_returns_routes_with_equal_signatures_in_table_order() {
    let routes: Routes = vec![
        Route::new("HTTP/1.1", "/", "GET", "first", "a.html"),
        Route::new("HTTP/1.1", "/other", "GET", "second", "b.html"),
        Route::new("HTTP/1.1", "/", "GET", "third", "c.html"),
    ];
    let matched = routes.find_route_by_buffer(b"GET / HTTP/1.1\r\n");
    assert_eq!(
        replies(&matched),
        vec![
            ("first".to_string(), "a.html".to_string()),
            ("third".to_string(), "c.html".to_string()),
        ]
    );
}

#[test]
fn a_signature_that_begins_another_matches_the_same_request() {
    let routes: Routes = vec![
        Route::new("HTTP/1", "/", "GET", "short", "a.html"),
        Route::new("HTTP/1.1", "/", "GET", "long", "b.html"),
    ];
    let matched = routes.find_route_by_buffer(b"GET / HTTP/1.1\r\n");
    assert_eq!(signatures(&matched), vec!["GET / HTTP/1", "GET / HTTP/1.1"]);
    let matched = routes.find_route_by_buffer(b"GET / HTTP/1\r\n");
    assert_eq!(signatures(&matched), vec!["GET / HTTP/1"]);
}

#[test]
fn distinct_fields_can_spell_one_signature() {
    let routes: Routes = vec![
        Route::new("HTTP/1.1", "b", "a", "one", "a.html"),
        Route::new("b HTTP/1.1", "", "a", "two", "b.html"),
    ];
    assert_eq!(routes[0].to_complete_string(), "a b HTTP/1.1");
    assert_eq!(routes[1].to_complete_string(), "a  b HTTP/1.1");
    let matched = routes.find_route_by_buffer(b"a b HTTP/1.1");
    assert_eq!(signatures(&matched), vec!["a b HTTP/1.1"]);
}
