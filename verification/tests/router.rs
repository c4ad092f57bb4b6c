use path_router::{Handler, HttpMethod, HttpRouter, RouterError};

const METHODS: [HttpMethod; 9] = [
    HttpMethod::GET,
    HttpMethod::POST,
    HttpMethod::PUT,
    HttpMethod::DELETE,
    HttpMethod::PATCH,
    HttpMethod::HEAD,
    HttpMethod::OPTIONS,
    HttpMethod::CONNECT,
    HttpMethod::TRACE,
];

fn h(id: u64) -> Handler {
    Handler { id }
}

fn pairs(params: &[(&str, &str)]) -> Vec<(String, String)> {
    params
        .iter()
        .map(|(k, v)| (k.to_string(), v.to_string()))
        .collect()
}

#[test]
fn fresh_router_no_match() {
    let router = HttpRouter::new();
    for method in METHODS {
        assert!(router.get_route(method, "/").is_none());
        assert!(router.get_route(method, "").is_none());
        assert!(router.get_route(method, "/a").is_none());
        assert!(router.get_route(method, "/users/42").is_none());
    }
}

#[test]
fn lookup_idempotent() {
    let router = HttpRouter::new();
    router.add_route(HttpMethod::GET, "/a", h(1)).unwrap();
    router
        .add_route(HttpMethod::GET, "/users/{id}", h(2))
        .unwrap();
    for path in ["/a", "/a/", "/users/42", "/nope", "/"] {
        let first = router.get_route(HttpMethod::GET, path);
        let second = router.get_route(HttpMethod::GET, path);
        assert_eq!(first, second);
    }
}

#[test]
fn exact_precedence() {
    let router = HttpRouter::new();
    router.add_route(HttpMethod::GET, "/a", h(1)).unwrap();
    router.add_route(HttpMethod::GET, "/a/", h(2)).unwrap();
    assert_eq!(
        router.get_route(HttpMethod::GET, "/a"),
        Some((h(1), vec![]))
    );
    assert_eq!(
        router.get_route(HttpMethod::GET, "/a/"),
        Some((h(2), vec![]))
    );
}

#[test]
fn trailing_slash_fallback_strips() {
    let router = HttpRouter::new();
    router.add_route(HttpMethod::GET, "/a", h(1)).unwrap();
    assert_eq!(
        router.get_route(HttpMethod::GET, "/a/"),
        Some((h(1), vec![]))
    );
}

#[test]
fn trailing_slash_fallback_appends() {
    let router = HttpRouter::new();
    router.add_route(HttpMethod::GET, "/b/", h(3)).unwrap();
    assert_eq!(
        router.get_route(HttpMethod::GET, "/b"),
        Some((h(3), vec![]))
    );
}

#[test]
fn fallback_carries_parameters() {
    let router = HttpRouter::new();
    router
        .add_route(HttpMethod::GET, "/w/{x}/", h(4))
        .unwrap();
    assert_eq!(
        router.get_route(HttpMethod::GET, "/w/5"),
        Some((h(4), pairs(&[("x", "5")])))
    );
}

#[test]
fn root_path_immunity() {
    let router = HttpRouter::new();
    assert!(router.get_route(HttpMethod::GET, "/").is_none());
    // A template of the empty string would be the root's target if the
    // root were ever stripped; it must stay unreachable from `/`.
    router.add_route(HttpMethod::GET, "", h(5)).unwrap();
    assert!(router.get_route(HttpMethod::GET, "/").is_none());
    router.add_route(HttpMethod::GET, "/", h(6)).unwrap();
    assert_eq!(
        router.get_route(HttpMethod::GET, "/"),
        Some((h(6), vec![]))
    );
}

#[test]
fn parameter_extraction() {
    let router = HttpRouter::new();
    router
        .add_route(HttpMethod::GET, "/users/{id}", h(7))
        .unwrap();
    assert_eq!(
        router.get_route(HttpMethod::GET, "/users/42"),
        Some((h(7), pairs(&[("id", "42")])))
    );
}

#[test]
fn several_parameters_in_template_order() {
    let router = HttpRouter::new();
    router
        .add_route(HttpMethod::GET, "/a/{x}/b/{y}", h(8))
        .unwrap();
    assert_eq!(
        router.get_route(HttpMethod::GET, "/a/1/b/2"),
        Some((h(8), pairs(&[("x", "1"), ("y", "2")])))
    );
}

#[test]
fn parameter_requires_nonempty_piece() {
    let router = HttpRouter::new();
    router
        .add_route(HttpMethod::GET, "/users/{id}", h(9))
        .unwrap();
    assert!(router.get_route(HttpMethod::GET, "/users/").is_none());
}

#[test]
fn conflict_rejection_keeps_table_unchanged() {
    let router = HttpRouter::new();
    router
        .add_route(HttpMethod::GET, "/users/{id}", h(1))
        .unwrap();
    assert_eq!(
        router.add_route(HttpMethod::GET, "/users/{name}", h(2)),
        Err(RouterError::TemplateConflict)
    );
    assert_eq!(
        router.get_route(HttpMethod::GET, "/users/7"),
        Some((h(1), pairs(&[("id", "7")])))
    );
}

#[test]
fn duplicate_template_rejected() {
    let router = HttpRouter::new();
    router.add_route(HttpMethod::GET, "/a/b", h(1)).unwrap();
    assert_eq!(
        router.add_route(HttpMethod::GET, "/a/b", h(2)),
        Err(RouterError::TemplateConflict)
    );
    assert_eq!(
        router.get_route(HttpMethod::GET, "/a/b"),
        Some((h(1), vec![]))
    );
}

#[test]
fn ambiguous_fixed_and_parameter_rejected() {
    let router = HttpRouter::new();
    router
        .add_route(HttpMethod::GET, "/users/{id}", h(1))
        .unwrap();
    assert_eq!(
        router.add_route(HttpMethod::GET, "/users/admin", h(2)),
        Err(RouterError::TemplateConflict)
    );
}

#[test]
fn repeated_parameter_name_last_wins() {
    let router = HttpRouter::new();
    router
        .add_route(HttpMethod::GET, "/p/{x}/{x}", h(1))
        .unwrap();
    assert_eq!(
        router.get_route(HttpMethod::GET, "/p/1/2"),
        Some((h(1), pairs(&[("x", "2")])))
    );
}

#[test]
fn repeated_parameter_name_among_others() {
    let router = HttpRouter::new();
    router
        .add_route(HttpMethod::GET, "/m/{a}/{b}/{a}", h(2))
        .unwrap();
    assert_eq!(
        router.get_route(HttpMethod::GET, "/m/1/2/3"),
        Some((h(2), pairs(&[("b", "2"), ("a", "3")])))
    );
}

#[test]
fn compatible_templates_coexist() {
    let router = HttpRouter::new();
    router
        .add_route(HttpMethod::GET, "/users/{id}", h(1))
        .unwrap();
    router
        .add_route(HttpMethod::GET, "/users/{id}/posts", h(2))
        .unwrap();
    router.add_route(HttpMethod::GET, "/about", h(3)).unwrap();
    assert_eq!(
        router.get_route(HttpMethod::GET, "/users/9/posts"),
        Some((h(2), pairs(&[("id", "9")])))
    );
    assert_eq!(
        router.get_route(HttpMethod::GET, "/about"),
        Some((h(3), vec![]))
    );
}

#[test]
fn cross_method_independence() {
    let router = HttpRouter::new();
    router.add_route(HttpMethod::GET, "/a", h(1)).unwrap();
    assert!(router.get_route(HttpMethod::POST, "/a").is_none());
    router.add_route(HttpMethod::POST, "/a", h(2)).unwrap();
    assert_eq!(
        router.get_route(HttpMethod::GET, "/a"),
        Some((h(1), vec![]))
    );
    assert_eq!(
        router.get_route(HttpMethod::POST, "/a"),
        Some((h(2), vec![]))
    );
    // The same template can even carry different parameter names per
    // method: the tables share nothing.
    router
        .add_route(HttpMethod::PUT, "/users/{key}", h(3))
        .unwrap();
    router
        .add_route(HttpMethod::DELETE, "/users/{id}", h(4))
        .unwrap();
    assert_eq!(
        router.get_route(HttpMethod::PUT, "/users/0"),
        Some((h(3), pairs(&[("key", "0")])))
    );
    assert_eq!(
        router.get_route(HttpMethod::DELETE, "/users/0"),
        Some((h(4), pairs(&[("id", "0")])))
    );
}
