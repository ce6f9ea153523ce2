use fractal_territories::controller::{BidPlacement, Controller, Effects, Frame, FrameKind, Request};
use fractal_territories::model::{Account, Bid, Field, Metadata, NO_PARENT, ROOT_ID};

const TENTH: u128 = 100_000_000_000_000_000;

fn coord(tenths: u128) -> u128 {
    (20 + tenths) * TENTH
}

fn region(x0: u128, y0: u128, x1: u128, y1: u128) -> Field {
    Field { x_min: coord(x0), y_min: coord(y0), x_max: coord(x1), y_max: coord(y1) }
}

fn viewer() -> Account {
    Account { high: 10, low: 20 }
}

fn stranger() -> Account {
    Account { high: 30, low: 40 }
}

fn territory(id: u128, parent: u128, field: Field, owner: Account) -> Metadata {
    Metadata {
        token_id: id,
        parent_id: parent,
        field,
        owner,
        locked_fuel: 3,
        minimum_price: 1,
        owned: false,
    }
}

fn root() -> Metadata {
    territory(ROOT_ID, NO_PARENT, region(0, 0, 40, 40), stranger())
}

fn bid(id: u128, amount: u128, field: Field, recipient: Account) -> Bid {
    Bid { bid_id: id, recipient, field, amount, minimum_price: 1, selected: false, owned: false }
}

fn quiet() -> Effects {
    Effects {
        fetch_ancestry: None,
        fetch_children: None,
        report_error: false,
        clear_approve_amount: false,
        redraw: false,
        focus: None,
    }
}

fn path_ids(c: &Controller) -> Vec<u128> {
    c.path().entries().iter().map(|t| t.token_id).collect()
}

fn child_ids(c: &Controller) -> Vec<u128> {
    let mut v: Vec<u128> = c.children().entries().iter().map(|t| t.token_id).collect();
    v.sort();
    v
}

/// A controller showing the root, with children T1 and T2 loaded.
fn at_root() -> Controller {
    let mut c = Controller::new(Some(viewer()));
    let e = c.view_territory(ROOT_ID);
    let a = e.fetch_ancestry.unwrap();
    let k = e.fetch_children.unwrap();
    c.ancestry_loaded(a.id, vec![root()]);
    c.children_loaded(
        k.id,
        Some(vec![
            territory(11, ROOT_ID, region(0, 0, 10, 10), viewer()),
            territory(12, ROOT_ID, region(10, 10, 20, 20), stranger()),
        ]),
        Some(Vec::new()),
    );
    c
}

#[test]
fn view_territory_issues_both_reads() {
    let mut c = Controller::new(None);
    let e = c.view_territory(5);
    assert_eq!(e.fetch_ancestry, Some(Request { id: 1, territory: 5 }));
    assert_eq!(e.fetch_children, Some(Request { id: 1, territory: 5 }));
    assert!(!e.report_error);
}

#[test]
fn end_to_end_descend_select_approve() {
    let mut c = at_root();
    assert_eq!(path_ids(&c), vec![ROOT_ID]);
    assert_eq!(child_ids(&c), vec![11, 12]);

    let e = c.select_frame(FrameKind::Child, 11);
    assert_eq!(path_ids(&c), vec![ROOT_ID, 11]);
    assert!(e.clear_approve_amount);
    let k = e.fetch_children.unwrap();
    assert_eq!(k.territory, 11);
    c.children_loaded(k.id, Some(Vec::new()), Some(vec![bid(21, 5, region(2, 2, 4, 4), viewer())]));
    assert_eq!(c.bids().get(21).map(|b| b.owned), Some(true));

    c.select_frame(FrameKind::PendingBid, 21);
    assert_eq!(c.selected_total(), Some(5));
    assert_eq!(c.selected_ids(), vec![21]);

    let e = c.action_finished(true, false);
    let k = e.fetch_children.unwrap();
    assert_eq!(k.territory, 11);
    assert_eq!(e.fetch_ancestry, None);
    c.children_loaded(k.id, Some(Vec::new()), Some(Vec::new()));
    assert_eq!(c.bids().len(), 0);
    assert_eq!(c.selected_total(), Some(0));
    assert!(c.selected_ids().is_empty());
}

#[test]
fn unknown_territory_falls_back_to_root() {
    let mut c = Controller::new(Some(viewer()));
    let e = c.view_territory(404);
    let a = e.fetch_ancestry.unwrap();
    let e = c.ancestry_failed(a.id);
    assert!(e.report_error);
    let a = e.fetch_ancestry.unwrap();
    assert_eq!(a.territory, ROOT_ID);
    assert_eq!(e.fetch_children.map(|k| k.territory), Some(ROOT_ID));
    c.ancestry_loaded(a.id, vec![root()]);
    assert_eq!(path_ids(&c), vec![ROOT_ID]);
}

#[test]
fn failed_root_ancestry_is_reported_only() {
    let mut c = Controller::new(None);
    let e = c.view_territory(ROOT_ID);
    let a = e.fetch_ancestry.unwrap();
    let e = c.ancestry_failed(a.id);
    assert_eq!(e, Effects { report_error: true, ..quiet() });
    assert!(path_ids(&c).is_empty());
}

#[test]
fn broken_ancestry_answer_falls_back() {
    let mut c = at_root();
    let e = c.view_territory(50);
    let a = e.fetch_ancestry.unwrap();
    let e = c.ancestry_loaded(a.id, vec![territory(50, 77, region(0, 0, 1, 1), viewer()), root()]);
    assert!(e.report_error);
    assert_eq!(e.fetch_ancestry.map(|r| r.territory), Some(ROOT_ID));
    assert_eq!(path_ids(&c), vec![ROOT_ID]);
}

#[test]
fn stale_children_answer_is_dropped() {
    let mut c = at_root();
    let first = c.select_frame(FrameKind::Child, 11).fetch_children.unwrap();
    let second = c.select_frame(FrameKind::Child, ROOT_ID).fetch_children.unwrap();
    assert!(first.id < second.id);
    let fresh = vec![territory(11, ROOT_ID, region(0, 0, 10, 10), viewer())];
    let e = c.children_loaded(second.id, Some(fresh), Some(Vec::new()));
    assert!(e.redraw);
    assert_eq!(child_ids(&c), vec![11]);
    let stale = vec![territory(31, 11, region(1, 1, 2, 2), viewer())];
    let e = c.children_loaded(first.id, Some(stale), Some(Vec::new()));
    assert_eq!(e, quiet());
    assert_eq!(child_ids(&c), vec![11]);
}

#[test]
fn stale_ancestry_answer_is_dropped() {
    let mut c = Controller::new(None);
    let first = c.view_territory(ROOT_ID).fetch_ancestry.unwrap();
    let second = c.view_territory(ROOT_ID).fetch_ancestry.unwrap();
    assert_eq!(c.ancestry_loaded(first.id, vec![root()]), quiet());
    assert!(path_ids(&c).is_empty());
    assert_eq!(c.ancestry_failed(first.id), quiet());
    c.ancestry_loaded(second.id, vec![root()]);
    assert_eq!(path_ids(&c), vec![ROOT_ID]);
}

#[test]
fn failed_children_read_keeps_stale_set() {
    let mut c = at_root();
    let k = c.action_finished(true, true).fetch_children.unwrap();
    let e = c.children_loaded(k.id, None, Some(vec![bid(5, 2, region(1, 1, 2, 2), stranger())]));
    assert!(e.report_error);
    assert_eq!(child_ids(&c), vec![11, 12]);
    assert_eq!(c.bids().len(), 1);
}

#[test]
fn failed_action_is_reported() {
    let mut c = at_root();
    assert_eq!(c.action_finished(false, true), Effects { report_error: true, ..quiet() });
}

#[test]
fn action_on_empty_view_asks_nothing() {
    let mut c = Controller::new(None);
    assert_eq!(c.action_finished(true, true), quiet());
}

#[test]
fn successful_action_refreshes_current() {
    let mut c = at_root();
    let e = c.action_finished(true, true);
    assert_eq!(e.fetch_ancestry.map(|r| r.territory), Some(ROOT_ID));
    assert_eq!(e.fetch_children.map(|r| r.territory), Some(ROOT_ID));
}

#[test]
fn selected_bid_frame_deselects() {
    let mut c = at_root();
    let k = c.action_finished(true, false).fetch_children.unwrap();
    c.children_loaded(k.id, None, Some(vec![bid(5, 2, region(1, 1, 2, 2), viewer()), bid(6, 3, region(1, 1, 2, 2), viewer())]));
    c.select_frame(FrameKind::PendingBid, 5);
    c.select_frame(FrameKind::PendingBid, 6);
    assert_eq!(c.selected_total(), Some(5));
    let e = c.select_frame(FrameKind::SelectedBid, 5);
    assert_eq!(e, Effects { redraw: true, ..quiet() });
    assert_eq!(c.selected_total(), Some(3));
    c.select_frame(FrameKind::PendingBid, 99);
    assert_eq!(c.selected_total(), Some(3));
}

#[test]
fn frames_project_children_bids_and_ancestors() {
    let mut c = at_root();
    let k = c.select_frame(FrameKind::Child, 11).fetch_children.unwrap();
    c.children_loaded(
        k.id,
        Some(vec![territory(31, 11, region(1, 1, 2, 2), viewer())]),
        Some(vec![bid(41, 5, region(2, 2, 4, 4), viewer()), bid(42, 6, region(5, 5, 6, 6), stranger())]),
    );
    c.select_frame(FrameKind::PendingBid, 42);
    let frames = c.frames();
    assert_eq!(
        frames,
        vec![
            Frame { id: 31, field: region(1, 1, 2, 2), kind: FrameKind::Child },
            Frame { id: 41, field: region(2, 2, 4, 4), kind: FrameKind::PendingBid },
            Frame { id: 42, field: region(5, 5, 6, 6), kind: FrameKind::SelectedBid },
            Frame { id: ROOT_ID, field: region(0, 0, 40, 40), kind: FrameKind::PathAncestor },
        ]
    );
}

#[test]
fn empty_controller_projects_nothing() {
    let c = Controller::new(None);
    assert!(c.frames().is_empty());
    assert_eq!(c.current(), None);
}

#[test]
fn account_change_retags_everything() {
    let mut c = at_root();
    assert_eq!(c.children().get(11).map(|t| t.owned), Some(true));
    assert_eq!(c.children().get(12).map(|t| t.owned), Some(false));
    c.set_account(Some(stranger()));
    assert_eq!(c.account(), Some(stranger()));
    assert_eq!(c.children().get(11).map(|t| t.owned), Some(false));
    assert_eq!(c.children().get(12).map(|t| t.owned), Some(true));
    assert_eq!(c.current().map(|t| t.owned), Some(true));
    c.set_account(None);
    assert!(c.children().entries().iter().all(|t| !t.owned));
    assert!(c.path().entries().iter().all(|t| !t.owned));
}

#[test]
fn tag_is_idempotent_and_none_is_not_owner() {
    let t = territory(11, ROOT_ID, region(0, 0, 1, 1), viewer());
    let once = t.tag(Some(viewer()));
    assert!(once.owned);
    assert_eq!(once.tag(Some(viewer())), once);
    assert!(!t.tag(None).owned);
    let b = bid(3, 1, region(0, 0, 1, 1), stranger());
    let once = b.tag(Some(stranger()));
    assert!(once.owned);
    assert_eq!(once.tag(Some(stranger())), once);
    assert!(!once.tag(None).owned);
    assert!(!b.tag(Some(viewer())).owned);
}

#[test]
fn placement_goes_to_current_territory() {
    let mut c = at_root();
    c.select_frame(FrameKind::Child, 11);
    let inside = region(2, 2, 4, 4);
    assert_eq!(
        c.placement(inside, 5, 2),
        Some(BidPlacement { territory: 11, field: inside, amount: 5, minimum_price: 2 })
    );
    let outside = region(5, 5, 15, 15);
    assert_eq!(
        c.placement(outside, 7, 3),
        Some(BidPlacement { territory: 11, field: outside, amount: 7, minimum_price: 3 })
    );
    assert_eq!(Controller::new(None).placement(inside, 5, 2), None);
}

#[test]
fn ancestry_of_another_territory_falls_back() {
    let mut c = Controller::new(None);
    let a = c.view_territory(11).fetch_ancestry.unwrap();
    let e = c.ancestry_loaded(a.id, vec![territory(12, ROOT_ID, region(10, 10, 20, 20), viewer()), root()]);
    assert!(e.report_error);
    assert_eq!(e.fetch_ancestry.map(|r| r.territory), Some(ROOT_ID));
    assert!(path_ids(&c).is_empty());
}

#[test]
fn loaded_ancestry_moves_view_into_territory() {
    let mut c = Controller::new(Some(viewer()));
    let a = c.view_territory(11).fetch_ancestry.unwrap();
    let t1 = territory(11, ROOT_ID, region(0, 0, 10, 10), viewer());
    let e = c.ancestry_loaded(a.id, vec![t1, root()]);
    assert_eq!(e, Effects { redraw: true, focus: Some(region(0, 0, 10, 10)), ..quiet() });
    assert_eq!(path_ids(&c), vec![ROOT_ID, 11]);
    assert_eq!(c.current().map(|t| t.owned), Some(true));
}

#[test]
fn descending_moves_view_into_child() {
    let mut c = at_root();
    let e = c.select_frame(FrameKind::Child, 12);
    assert_eq!(e.focus, Some(region(10, 10, 20, 20)));
    let e = c.select_frame(FrameKind::PathAncestor, ROOT_ID);
    assert_eq!(e.focus, Some(region(0, 0, 40, 40)));
}

#[test]
fn tags_hold_after_failed_refresh() {
    let mut c = at_root();
    c.set_account(Some(stranger()));
    let k = c.action_finished(true, false).fetch_children.unwrap();
    c.children_loaded(k.id, None, Some(vec![bid(5, 2, region(1, 1, 2, 2), stranger())]));
    assert_eq!(c.children().get(11).map(|t| t.owned), Some(false));
    assert_eq!(c.children().get(12).map(|t| t.owned), Some(true));
    assert_eq!(c.bids().get(5).map(|b| b.owned), Some(true));
}

#[test]
fn toggle_sequence_decides_total() {
    let mut c = at_root();
    let k = c.action_finished(true, false).fetch_children.unwrap();
    c.children_loaded(
        k.id,
        None,
        Some(vec![
            bid(1, 5, region(1, 1, 2, 2), viewer()),
            bid(2, 7, region(1, 1, 2, 2), viewer()),
            bid(3, 11, region(1, 1, 2, 2), viewer()),
        ]),
    );
    let ops = [
        (FrameKind::PendingBid, 1),
        (FrameKind::PendingBid, 2),
        (FrameKind::PendingBid, 9),
        (FrameKind::SelectedBid, 1),
        (FrameKind::PendingBid, 3),
        (FrameKind::SelectedBid, 3),
        (FrameKind::PendingBid, 3),
    ];
    for (kind, id) in ops.iter() {
        c.select_frame(*kind, *id);
    }
    assert_eq!(c.selected_total(), Some(18));
    assert_eq!(c.selected_ids(), vec![2, 3]);
}

#[test]
fn request_counters_can_issue() {
    let c = Controller::new(None);
    assert!(c.can_issue());
}
