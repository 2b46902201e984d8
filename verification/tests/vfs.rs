use rbx_sync::route::Route;
use rbx_sync::vfs::{Vfs, VfsChange, VfsError, VfsItem};

fn file(name: &str, contents: &str) -> VfsItem {
    VfsItem::File { name: name.to_string(), contents: contents.to_string() }
}

fn dir(name: &str, children: Vec<VfsItem>) -> VfsItem {
    VfsItem::Dir { name: name.to_string(), children }
}

fn route(segments: &[&str]) -> Route {
    Route::new(segments.iter().map(|s| s.to_string()).collect())
}

fn change(segments: &[&str], timestamp: u64) -> VfsChange {
    VfsChange { route: route(segments), timestamp }
}

fn sample() -> Vfs {
    Vfs::new(dir(
        "root",
        vec![file("a", "1"), dir("sub", vec![file("b", "2"), dir("deep", vec![file("c", "3")])])],
    ))
}

#[test]
fn new_store_starts_at_time_zero() {
    let vfs = sample();
    assert_eq!(vfs.current_time(), 0);
    assert!(vfs.changes_since(0).is_empty());
    assert_eq!(vfs.root().name(), "root");
    assert!(vfs.root().is_dir());
}

#[test]
fn read_walks_children_from_the_root() {
    let vfs = sample();
    assert_eq!(vfs.read(&route(&[])), Ok(vfs.root()));
    assert_eq!(vfs.read(&route(&["a"])), Ok(&file("a", "1")));
    assert_eq!(vfs.read(&route(&["sub", "b"])), Ok(&file("b", "2")));
    assert_eq!(vfs.read(&route(&["sub", "deep", "c"])), Ok(&file("c", "3")));
    assert_eq!(vfs.read(&route(&["sub", "deep"])), Ok(&dir("deep", vec![file("c", "3")])));
}

#[test]
fn read_of_a_missing_route_is_not_found() {
    let vfs = sample();
    assert_eq!(vfs.read(&route(&["missing"])), Err(VfsError::RouteNotFound));
    assert_eq!(vfs.read(&route(&["sub", "missing"])), Err(VfsError::RouteNotFound));
    assert_eq!(vfs.read(&route(&["missing", "b"])), Err(VfsError::RouteNotFound));
    assert_eq!(vfs.read(&route(&["a", "b"])), Err(VfsError::RouteNotFound));
    assert_eq!(vfs.read(&route(&["root"])), Err(VfsError::RouteNotFound));
    assert_eq!(vfs.current_time(), 0);
}

#[test]
fn read_of_a_file_root() {
    let vfs = Vfs::new(file("only", "x"));
    assert_eq!(vfs.read(&route(&[])), Ok(&file("only", "x")));
    assert_eq!(vfs.read(&route(&["only"])), Err(VfsError::RouteNotFound));
}

#[test]
fn child_finds_the_first_of_a_name() {
    let d = dir("d", vec![file("x", "first"), file("y", "other"), file("x", "second")]);
    assert_eq!(d.child(&"x".to_string()), Some(&file("x", "first")));
    assert_eq!(d.child(&"y".to_string()), Some(&file("y", "other")));
    assert_eq!(d.child(&"z".to_string()), None);
    assert_eq!(file("f", "c").child(&"x".to_string()), None);
    let mut children = vec![file("x", "first"), file("y", "other")];
    VfsItem::insert_child(&mut children, file("x", "new"));
    VfsItem::insert_child(&mut children, file("z", "last"));
    assert_eq!(children, vec![file("x", "new"), file("y", "other"), file("z", "last")]);
    assert_eq!(VfsItem::find(&children, &"y".to_string()), Some(1));
    assert_eq!(VfsItem::find(&children, &"q".to_string()), None);
    assert_eq!(d.clone(), d);
}

#[test]
fn write_adds_a_node_and_records_the_change() {
    let mut vfs = sample();
    assert_eq!(vfs.write(&route(&["sub", "new"]), file("new", "n")), Ok(()));
    assert_eq!(vfs.current_time(), 1);
    assert_eq!(vfs.read(&route(&["sub", "new"])), Ok(&file("new", "n")));
    assert_eq!(vfs.changes_since(0).to_vec(), vec![change(&["sub", "new"], 1)]);
    assert_eq!(
        vfs.read(&route(&["sub"])),
        Ok(&dir("sub", vec![file("b", "2"), dir("deep", vec![file("c", "3")]), file("new", "n")]))
    );
}

#[test]
fn write_replaces_a_node_of_the_same_name() {
    let mut vfs = sample();
    assert_eq!(vfs.write(&route(&["sub", "b"]), file("b", "changed")), Ok(()));
    assert_eq!(vfs.write(&route(&["a"]), dir("a", vec![])), Ok(()));
    assert_eq!(vfs.current_time(), 2);
    assert_eq!(
        vfs.root(),
        &dir(
            "root",
            vec![dir("a", vec![]), dir("sub", vec![file("b", "changed"), dir("deep", vec![file("c", "3")])])],
        )
    );
    assert_eq!(vfs.changes_since(0).to_vec(), vec![change(&["sub", "b"], 1), change(&["a"], 2)]);
}

#[test]
fn write_at_the_empty_route_replaces_the_root() {
    let mut vfs = sample();
    assert_eq!(vfs.write(&route(&[]), file("other", "x")), Ok(()));
    assert_eq!(vfs.root(), &file("other", "x"));
    assert_eq!(vfs.current_time(), 1);
    assert_eq!(vfs.changes_since(0).to_vec(), vec![change(&[], 1)]);
}

#[test]
fn write_to_a_place_that_is_not_there_changes_nothing() {
    let mut vfs = sample();
    assert_eq!(vfs.write(&route(&["missing", "x"]), file("x", "")), Err(VfsError::RouteNotFound));
    assert_eq!(vfs.write(&route(&["a", "x"]), file("x", "")), Err(VfsError::RouteNotFound));
    assert_eq!(vfs.write(&route(&["sub", "x"]), file("y", "")), Err(VfsError::RouteNotFound));
    assert_eq!(vfs.current_time(), 0);
    assert!(vfs.changes_since(0).is_empty());
    assert_eq!(vfs.root(), sample().root());
}

#[test]
fn remove_takes_a_node_out_and_records_the_change() {
    let mut vfs = sample();
    assert_eq!(vfs.remove(&route(&["sub", "deep"])), Ok(()));
    assert_eq!(vfs.current_time(), 1);
    assert_eq!(vfs.read(&route(&["sub", "deep"])), Err(VfsError::RouteNotFound));
    assert_eq!(vfs.read(&route(&["sub", "deep", "c"])), Err(VfsError::RouteNotFound));
    assert_eq!(vfs.read(&route(&["sub"])), Ok(&dir("sub", vec![file("b", "2")])));
    assert_eq!(vfs.remove(&route(&["a"])), Ok(()));
    assert_eq!(vfs.changes_since(0).to_vec(), vec![change(&["sub", "deep"], 1), change(&["a"], 2)]);
}

#[test]
fn remove_of_nothing_changes_nothing() {
    let mut vfs = sample();
    assert_eq!(vfs.remove(&route(&[])), Err(VfsError::RouteNotFound));
    assert_eq!(vfs.remove(&route(&["missing"])), Err(VfsError::RouteNotFound));
    assert_eq!(vfs.remove(&route(&["a", "b"])), Err(VfsError::RouteNotFound));
    assert_eq!(vfs.current_time(), 0);
    assert!(vfs.changes_since(0).is_empty());
    assert_eq!(vfs.root(), sample().root());
}

#[test]
fn changes_since_returns_the_later_records_in_order() {
    let mut vfs = sample();
    vfs.write(&route(&["x"]), file("x", "1")).unwrap();
    vfs.write(&route(&["y"]), file("y", "2")).unwrap();
    vfs.remove(&route(&["x"])).unwrap();
    assert_eq!(vfs.current_time(), 3);
    let all = vec![change(&["x"], 1), change(&["y"], 2), change(&["x"], 3)];
    assert_eq!(vfs.changes_since(0).to_vec(), all);
    assert_eq!(vfs.changes_since(1).to_vec(), all[1..].to_vec());
    assert_eq!(vfs.changes_since(2).to_vec(), all[2..].to_vec());
    assert!(vfs.changes_since(3).is_empty());
    assert!(vfs.changes_since(100).is_empty());
}

#[test]
fn changes_since_is_monotonic() {
    let mut vfs = sample();
    for i in 0..5 {
        vfs.write(&route(&["f"]), file("f", &i.to_string())).unwrap();
    }
    for t1 in 0..7u64 {
        for t2 in t1..7u64 {
            let earlier = vfs.changes_since(t1);
            let later = vfs.changes_since(t2);
            assert!(later.len() <= earlier.len());
            assert_eq!(&earlier[earlier.len() - later.len()..], later);
        }
    }
}

#[test]
fn changes_since_now_is_empty() {
    let mut vfs = sample();
    assert!(vfs.changes_since(vfs.current_time()).is_empty());
    vfs.write(&route(&["x"]), file("x", "1")).unwrap();
    assert!(vfs.changes_since(vfs.current_time()).is_empty());
    assert_eq!(vfs.changes_since(vfs.current_time() - 1).len(), 1);
    let _ = vfs.read(&route(&["x"]));
    assert!(vfs.changes_since(vfs.current_time()).is_empty());
}

#[test]
fn failed_changes_leave_the_clock() {
    let mut vfs = sample();
    vfs.write(&route(&["x"]), file("x", "1")).unwrap();
    assert!(vfs.write(&route(&["nowhere", "x"]), file("x", "1")).is_err());
    assert!(vfs.remove(&route(&["nowhere"])).is_err());
    assert_eq!(vfs.current_time(), 1);
    assert_eq!(vfs.changes_since(0).to_vec(), vec![change(&["x"], 1)]);
    assert_eq!(change(&["x"], 1).clone(), change(&["x"], 1));
}
