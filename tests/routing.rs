use levi::{HttpMethod, Route, Router};

fn router_with(routes: &[(&str, HttpMethod)]) -> Router {
    let mut r = Router::new();
    for (path, method) in routes {
        r.add_route(Route::new(path.as_bytes().to_vec(), *method));
    }
    r
}

fn params_of(ps: &[(Vec<u8>, Vec<u8>)]) -> Vec<(String, String)> {
    ps.iter()
        .map(|(k, v)| (String::from_utf8(k.clone()).unwrap(), String::from_utf8(v.clone()).unwrap()))
        .collect()
}

#[test]
fn param_binds_numeric_value() {
    for m in [HttpMethod::Get, HttpMethod::Post, HttpMethod::Put, HttpMethod::Patch, HttpMethod::Delete] {
        let r = router_with(&[("/orders/:id", m)]);
        let (i, ps) = r.get_route(b"/orders/42", m).unwrap();
        assert_eq!(i, 0);
        assert_eq!(params_of(&ps), vec![("id".to_string(), "42".to_string())]);
    }
}

#[test]
fn param_binds_non_numeric_value() {
    let r = router_with(&[("/orders/:id", HttpMethod::Get)]);
    let (_, ps) = r.get_route(b"/orders/abc-9", HttpMethod::Get).unwrap();
    assert_eq!(params_of(&ps), vec![("id".to_string(), "abc-9".to_string())]);
}

#[test]
fn segment_count_mismatch_never_matches() {
    let r = router_with(&[("/a", HttpMethod::Get)]);
    assert!(r.get_route(b"/a/b", HttpMethod::Get).is_none());
    let r = router_with(&[("/a/b", HttpMethod::Get)]);
    assert!(r.get_route(b"/a", HttpMethod::Get).is_none());
}

#[test]
fn first_registered_route_wins() {
    let r = router_with(&[("/users/:id", HttpMethod::Get), ("/users/me", HttpMethod::Get)]);
    let (i, ps) = r.get_route(b"/users/me", HttpMethod::Get).unwrap();
    assert_eq!(i, 0);
    assert_eq!(params_of(&ps), vec![("id".to_string(), "me".to_string())]);
}

#[test]
fn literal_route_first_wins_over_param() {
    let r = router_with(&[("/users/me", HttpMethod::Get), ("/users/:id", HttpMethod::Get)]);
    let (i, ps) = r.get_route(b"/users/me", HttpMethod::Get).unwrap();
    assert_eq!(i, 0);
    assert!(ps.is_empty());
    let (i, ps) = r.get_route(b"/users/7", HttpMethod::Get).unwrap();
    assert_eq!(i, 1);
    assert_eq!(params_of(&ps), vec![("id".to_string(), "7".to_string())]);
}

#[test]
fn method_must_agree() {
    let r = router_with(&[("/hello", HttpMethod::Post), ("/hello", HttpMethod::Get)]);
    let (i, _) = r.get_route(b"/hello", HttpMethod::Get).unwrap();
    assert_eq!(i, 1);
    assert!(r.get_route(b"/hello", HttpMethod::Delete).is_none());
}

#[test]
fn literal_segments_compare_exactly() {
    let r = router_with(&[("/hello", HttpMethod::Get)]);
    assert!(r.get_route(b"/Hello", HttpMethod::Get).is_none());
    assert!(r.get_route(b"/hello/", HttpMethod::Get).is_some());
    assert!(r.get_route(b"hello", HttpMethod::Get).is_some());
}

#[test]
fn several_params_in_template_order() {
    let r = router_with(&[("/a/:x/b/:y", HttpMethod::Get)]);
    let (_, ps) = r.get_route(b"/a/1/b/2", HttpMethod::Get).unwrap();
    assert_eq!(
        params_of(&ps),
        vec![("x".to_string(), "1".to_string()), ("y".to_string(), "2".to_string())]
    );
    assert!(r.get_route(b"/a/1/c/2", HttpMethod::Get).is_none());
}

#[test]
fn empty_router_matches_nothing() {
    let r = Router::new();
    assert_eq!(r.len(), 0);
    assert!(r.get_route(b"/", HttpMethod::Get).is_none());
}

#[test]
fn root_template_matches_root() {
    let r = router_with(&[("/", HttpMethod::Get)]);
    assert!(r.get_route(b"/", HttpMethod::Get).is_some());
    assert!(r.get_route(b"", HttpMethod::Get).is_some());
    assert!(r.get_route(b"/x", HttpMethod::Get).is_none());
}

#[test]
fn route_accessors() {
    let route = Route::new(b"/x/:y".to_vec(), HttpMethod::Patch);
    assert_eq!(route.path(), b"/x/:y");
    assert_eq!(route.method(), HttpMethod::Patch);
    assert_eq!(HttpMethod::default(), HttpMethod::Get);
}
