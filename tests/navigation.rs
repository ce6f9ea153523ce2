use fractal_territories::model::{Account, Field, Metadata, NO_PARENT, ROOT_ID};
use fractal_territories::navigation::NavigationPath;
use fractal_territories::store::ChildrenSet;

const TENTH: u128 = 100_000_000_000_000_000;

fn coord(tenths: u128) -> u128 {
    (20 + tenths) * TENTH
}

fn field(x0: u128, y0: u128, x1: u128, y1: u128) -> Field {
    Field { x_min: coord(x0), y_min: coord(y0), x_max: coord(x1), y_max: coord(y1) }
}

fn owner() -> Account {
    Account { high: 7, low: 42 }
}

fn territory(id: u128, parent: u128) -> Metadata {
    Metadata {
        token_id: id,
        parent_id: parent,
        field: field(0, 0, 10, 10),
        owner: owner(),
        locked_fuel: 0,
        minimum_price: 0,
        owned: false,
    }
}

fn children_of(parent: u128, ids: &[u128]) -> ChildrenSet {
    let mut c = ChildrenSet::new();
    c.replace(ids.iter().map(|id| territory(*id, parent)).collect(), None);
    c
}

fn ids(p: &NavigationPath) -> Vec<u128> {
    p.entries().iter().map(|t| t.token_id).collect()
}

fn is_chain(p: &NavigationPath) -> bool {
    let e = p.entries();
    (e.is_empty() || e[0].token_id == ROOT_ID)
        && (1..e.len()).all(|i| e[i].parent_id == e[i - 1].token_id)
}

fn path_to_c() -> NavigationPath {
    let mut p = NavigationPath::new();
    p.descend(ROOT_ID, &children_of(NO_PARENT, &[ROOT_ID]));
    p.descend(10, &children_of(ROOT_ID, &[10, 11]));
    p.descend(20, &children_of(10, &[20]));
    p.descend(30, &children_of(20, &[30, 31]));
    p
}

#[test]
fn descend_appends_children_in_order() {
    let p = path_to_c();
    assert_eq!(ids(&p), vec![ROOT_ID, 10, 20, 30]);
    assert!(is_chain(&p));
    assert_eq!(p.current().map(|t| t.token_id), Some(30));
}

#[test]
fn descend_keeps_parent_chain_after_every_call() {
    let mut p = NavigationPath::new();
    let steps: Vec<(u128, ChildrenSet)> = vec![
        (ROOT_ID, children_of(NO_PARENT, &[ROOT_ID])),
        (10, children_of(ROOT_ID, &[10])),
        (99, children_of(55, &[99])),
        (20, children_of(10, &[20])),
        (ROOT_ID, children_of(20, &[])),
        (11, children_of(ROOT_ID, &[11])),
    ];
    for (id, children) in steps.iter() {
        p.descend(*id, children);
        assert!(is_chain(&p));
    }
    assert_eq!(ids(&p), vec![ROOT_ID, 11]);
}

#[test]
fn descend_unknown_child_leaves_path() {
    let mut p = path_to_c();
    p.descend(77, &children_of(30, &[40]));
    assert_eq!(ids(&p), vec![ROOT_ID, 10, 20, 30]);
}

#[test]
fn descend_child_of_another_parent_is_refused() {
    let mut p = path_to_c();
    p.descend(40, &children_of(20, &[40]));
    assert_eq!(ids(&p), vec![ROOT_ID, 10, 20, 30]);
}

#[test]
fn reselecting_ancestor_truncates_path() {
    let mut p = path_to_c();
    p.descend(10, &children_of(30, &[40]));
    assert_eq!(ids(&p), vec![ROOT_ID, 10]);
}

#[test]
fn reselecting_current_keeps_single_copy() {
    let mut p = path_to_c();
    p.descend(30, &children_of(30, &[40]));
    assert_eq!(ids(&p), vec![ROOT_ID, 10, 20, 30]);
}

#[test]
fn reselecting_root_leaves_root_only() {
    let mut p = path_to_c();
    p.descend(ROOT_ID, &children_of(30, &[]));
    assert_eq!(ids(&p), vec![ROOT_ID]);
}

#[test]
fn ancestry_is_reversed_into_path() {
    let mut p = NavigationPath::new();
    let ancestry = vec![territory(20, 10), territory(10, ROOT_ID), territory(ROOT_ID, NO_PARENT)];
    assert!(p.replace_with_ancestry(&ancestry, Some(owner())));
    assert_eq!(ids(&p), vec![ROOT_ID, 10, 20]);
    assert!(p.entries().iter().all(|t| t.owned));
}

#[test]
fn broken_ancestry_is_refused() {
    let mut p = path_to_c();
    let ancestry = vec![territory(20, 12), territory(10, ROOT_ID), territory(ROOT_ID, NO_PARENT)];
    assert!(!p.replace_with_ancestry(&ancestry, None));
    assert!(!p.replace_with_ancestry(&Vec::new(), None));
    assert!(!p.replace_with_ancestry(&vec![territory(5, NO_PARENT)], None));
    assert_eq!(ids(&p), vec![ROOT_ID, 10, 20, 30]);
}

#[test]
fn empty_path_has_no_current() {
    let p = NavigationPath::new();
    assert_eq!(p.current(), None);
    assert_eq!(p.len(), 0);
}
