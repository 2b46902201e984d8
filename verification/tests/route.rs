use rbx_sync::route::Route;

fn route(segments: &[&str]) -> Route {
    Route::new(segments.iter().map(|s| s.to_string()).collect())
}

#[test]
fn route_keeps_its_segments() {
    let r = route(&["a", "b", "c"]);
    assert_eq!(r.len(), 3);
    assert!(!r.is_root());
    assert_eq!(r.segments, vec!["a".to_string(), "b".to_string(), "c".to_string()]);
    assert_eq!(Route::from_segments(&vec!["a".to_string()]), route(&["a"]));
}

#[test]
fn root_route_is_empty() {
    let r = Route::root();
    assert_eq!(r.len(), 0);
    assert!(r.is_root());
    assert_eq!(r.name(), None);
    assert_eq!(r.parent(), None);
    assert_eq!(r, route(&[]));
}

#[test]
fn route_name_and_parent() {
    let r = route(&["a", "b", "c"]);
    assert_eq!(r.name(), Some(&"c".to_string()));
    assert_eq!(r.parent(), Some(route(&["a", "b"])));
    assert_eq!(route(&["a"]).parent(), Some(Route::root()));
}

#[test]
fn route_child_appends_a_segment() {
    let r = route(&["a"]).child("b");
    assert_eq!(r, route(&["a", "b"]));
    assert_eq!(Route::root().child("x"), route(&["x"]));
}

#[test]
fn route_equality_is_by_segments() {
    assert_eq!(route(&["a", "b"]), route(&["a", "b"]));
    assert_ne!(route(&["a", "b"]), route(&["a"]));
    assert_ne!(route(&["a", "b"]), route(&["a", "c"]));
    assert_ne!(route(&["a", "b"]), route(&["b", "a"]));
    assert_eq!(route(&["a", "b"]).clone(), route(&["a", "b"]));
}

#[test]
fn route_segments_are_not_normalized() {
    assert_ne!(route(&["a", "..", "b"]), route(&["b"]));
    assert_ne!(route(&[".", "a"]), route(&["a"]));
    assert_eq!(route(&["a", ".."]).parent(), Some(route(&["a"])));
}
