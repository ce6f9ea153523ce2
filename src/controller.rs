//! The single owner of the view state. It takes the selection events of the
//! renderer and the outcomes of remote calls, updates the path, the children
//! and the bids, and says which remote calls to make next. Each refresh is
//! tagged with a request id, and only the latest one issued may land.
use vstd::prelude::*;
use crate::keyed::by_id;
use crate::model::{Account, Bid, Field, Metadata, ROOT_ID};
use crate::navigation::{NavigationPath, descend_keeps_tags, descended, is_chain, root_first};
use crate::store::{
    BidSet, ChildrenSet, bids_tagged, fresh_bids, none_selected, territories_tagged, selected_ids_of, selected_sum, tag_bids, tag_territories,
    toggled,
};

verus! {

/// What a frame on the canvas stands for, and so what selecting it does.
#[derive(Clone, Copy, Debug, PartialEq, Eq, Structural)]
pub enum FrameKind {
    /// A child of the current territory.
    Child,
    /// A territory on the path above the current one.
    PathAncestor,
    /// A bid that is not selected.
    PendingBid,
    /// A bid that the user has selected.
    SelectedBid,
}

/// A box handed to the renderer.
#[derive(Clone, Copy, Debug, PartialEq, Eq, Structural)]
pub struct Frame {
    pub id: u128,
    pub field: Field,
    pub kind: FrameKind,
}

/// A remote read to start: its request id and the territory it is about.
#[derive(Clone, Copy, Debug, PartialEq, Eq, Structural)]
pub struct Request {
    pub id: u64,
    pub territory: u128,
}

/// What the surrounding layer must do after a step of the controller.
#[derive(Clone, Copy, Debug, PartialEq, Eq, Structural)]
pub struct Effects {
    /// Fetch the ancestry of a territory and hand it to `ancestry_loaded`.
    pub fetch_ancestry: Option<Request>,
    /// Fetch the children and bids of a territory and hand them to
    /// `children_loaded`.
    pub fetch_children: Option<Request>,
    /// Hand the failure that was just reported to the error sink.
    pub report_error: bool,
    /// Reset the displayed amount to approve.
    pub clear_approve_amount: bool,
    /// The frames changed: project them again and redraw.
    pub redraw: bool,
    /// Move the view into this box.
    pub focus: Option<Field>,
}

/// A bid that the user may place: on which territory, where, and for how
/// much.
#[derive(Clone, Copy, Debug, PartialEq, Eq, Structural)]
pub struct BidPlacement {
    pub territory: u128,
    pub field: Field,
    pub amount: u128,
    pub minimum_price: u128,
}

/// An answer to `request` may land only when `request` is the latest id
/// issued for its kind of refresh.
pub open spec fn answers_latest(latest: u64, request: u64) -> bool {
    request == latest
}

/// Of two refreshes of one collection issued one after the other, the
/// answer to the later one lands and the answer to the earlier one is
/// dropped, in whichever order they arrive, as long as no third was issued.
pub proof fn later_refresh_wins(first: Request, second: Request, latest: u64)
    requires
        first.id < second.id,
        second.id == latest,
    ensures
        answers_latest(latest, second.id),
        !answers_latest(latest, first.id),
{
}

pub open spec fn quiet() -> Effects {
    Effects {
        fetch_ancestry: None,
        fetch_children: None,
        report_error: false,
        clear_approve_amount: false,
        redraw: false,
        focus: None,
    }
}

/// The box of the current territory, if any.
pub open spec fn focus_of(path: Seq<Metadata>) -> Option<Field> {
    if path.len() > 0 {
        Some(path.last().field)
    } else {
        None
    }
}

pub open spec fn child_frame(t: Metadata) -> Frame {
    Frame { id: t.token_id, field: t.field, kind: FrameKind::Child }
}

pub open spec fn ancestor_frame(t: Metadata) -> Frame {
    Frame { id: t.token_id, field: t.field, kind: FrameKind::PathAncestor }
}

pub open spec fn bid_frame(b: Bid) -> Frame {
    Frame {
        id: b.bid_id,
        field: b.field,
        kind: if b.selected {
            FrameKind::SelectedBid
        } else {
            FrameKind::PendingBid
        },
    }
}

/// The territories on the path above the current one.
pub open spec fn ancestors(path: Seq<Metadata>) -> Seq<Metadata> {
    if path.len() > 0 {
        path.drop_last()
    } else {
        path
    }
}

/// The frames of a view: the children, then the bids, then the ancestors
/// in path order.
pub open spec fn projected(path: Seq<Metadata>, children: Seq<Metadata>, bids: Seq<Bid>) -> Seq<
    Frame,
> {
    Seq::new(children.len(), |i: int| child_frame(children[i])) + Seq::new(
        bids.len(),
        |i: int| bid_frame(bids[i]),
    ) + Seq::new(ancestors(path).len(), |i: int| ancestor_frame(ancestors(path)[i]))
}

/// Holds the path, the children and the bids of the current view, the
/// active account, and the latest request issued for each kind of refresh.
pub struct Controller {
    path: NavigationPath,
    children: ChildrenSet,
    bids: BidSet,
    account: Option<Account>,
    ancestry_issued: u64,
    ancestry_target: u128,
    children_issued: u64,
}

impl Controller {
    pub closed spec fn path_seq(&self) -> Seq<Metadata> {
        self.path@
    }

    pub closed spec fn children_seq(&self) -> Seq<Metadata> {
        self.children@
    }

    pub closed spec fn bids_seq(&self) -> Seq<Bid> {
        self.bids@
    }

    pub closed spec fn account_spec(&self) -> Option<Account> {
        self.account
    }

    /// The id of the latest ancestry request issued.
    pub closed spec fn ancestry_latest(&self) -> u64 {
        self.ancestry_issued
    }

    /// The territory of the latest ancestry request issued.
    pub closed spec fn ancestry_subject(&self) -> u128 {
        self.ancestry_target
    }

    /// The id of the latest children request issued.
    pub closed spec fn children_latest(&self) -> u64 {
        self.children_issued
    }

    pub open spec fn wf(&self) -> bool {
        &&& is_chain(self.path_seq())
        &&& crate::keyed::keys_unique(self.children_seq())
        &&& crate::keyed::keys_unique(self.bids_seq())
        &&& territories_tagged(self.path_seq(), self.account_spec())
        &&& territories_tagged(self.children_seq(), self.account_spec())
        &&& bids_tagged(self.bids_seq(), self.account_spec())
    }

    /// `ancestry`, listed from a territory up to the root, is an ancestry of
    /// the territory of the latest ancestry request.
    pub open spec fn fits_ancestry(&self, ancestry: Seq<Metadata>) -> bool {
        &&& ancestry.len() > 0
        &&& ancestry[0].token_id == self.ancestry_subject()
        &&& is_chain(root_first(ancestry))
    }

    /// Both request counters can issue another id.
    pub open spec fn can_issue_spec(&self) -> bool {
        self.ancestry_latest() < u64::MAX && self.children_latest() < u64::MAX
    }

    pub fn can_issue(&self) -> (r: bool)
        ensures
            r == self.can_issue_spec(),
    {
        self.ancestry_issued < u64::MAX && self.children_issued < u64::MAX
    }

    /// An empty view for `account`, with no request issued yet.
    pub fn new(account: Option<Account>) -> (r: Controller)
        ensures
            r.wf(),
            r.path_seq() == Seq::<Metadata>::empty(),
            r.children_seq() == Seq::<Metadata>::empty(),
            r.bids_seq() == Seq::<Bid>::empty(),
            r.account_spec() == account,
            r.ancestry_latest() == 0,
            r.children_latest() == 0,
    {
        Controller {
            path: NavigationPath::new(),
            children: ChildrenSet::new(),
            bids: BidSet::new(),
            account,
            ancestry_issued: 0,
            ancestry_target: ROOT_ID,
            children_issued: 0,
        }
    }

    pub fn account(&self) -> (r: Option<Account>)
        ensures
            r == self.account_spec(),
    {
        self.account
    }

    pub fn path(&self) -> (r: &NavigationPath)
        ensures
            r@ == self.path_seq(),
    {
        &self.path
    }

    pub fn children(&self) -> (r: &ChildrenSet)
        ensures
            r@ == self.children_seq(),
    {
        &self.children
    }

    pub fn bids(&self) -> (r: &BidSet)
        ensures
            r@ == self.bids_seq(),
    {
        &self.bids
    }

    /// The current territory: the last on the path.
    pub fn current(&self) -> (r: Option<Metadata>)
        ensures
            r == (if self.path_seq().len() > 0 {
                Some(self.path_seq().last())
            } else {
                None
            }),
    {
        self.path.current()
    }

    fn issue_children(&mut self, territory: u128) -> (r: Request)
        requires
            old(self).children_issued < u64::MAX,
        ensures
            r == (Request { id: (old(self).children_issued + 1) as u64, territory }),
            *final(self) == (Controller { children_issued: r.id, ..*old(self) }),
    {
        self.children_issued = self.children_issued + 1;
        Request { id: self.children_issued, territory }
    }

    fn issue_ancestry(&mut self, territory: u128) -> (r: Request)
        requires
            old(self).ancestry_issued < u64::MAX,
        ensures
            r == (Request { id: (old(self).ancestry_issued + 1) as u64, territory }),
            *final(self) == (Controller {
                ancestry_issued: r.id,
                ancestry_target: territory,
                ..*old(self)
            }),
    {
        self.ancestry_issued = self.ancestry_issued + 1;
        self.ancestry_target = territory;
        Request { id: self.ancestry_issued, territory }
    }

    /// Shows the territory `id`: asks for its ancestry and for its children
    /// and bids, each under a fresh request id.
    pub fn view_territory(&mut self, id: u128) -> (r: Effects)
        requires
            old(self).wf(),
            old(self).can_issue_spec(),
        ensures
            final(self).wf(),
            r == (Effects {
                fetch_ancestry: Some(Request { id: final(self).ancestry_latest(), territory: id }),
                fetch_children: Some(Request { id: final(self).children_latest(), territory: id }),
                ..quiet()
            }),
            final(self).ancestry_latest() == old(self).ancestry_latest() + 1,
            final(self).children_latest() == old(self).children_latest() + 1,
            final(self).ancestry_subject() == id,
            final(self).path_seq() == old(self).path_seq(),
            final(self).children_seq() == old(self).children_seq(),
            final(self).bids_seq() == old(self).bids_seq(),
            final(self).account_spec() == old(self).account_spec(),
    {
        let a = self.issue_ancestry(id);
        let c = self.issue_children(id);
        Effects {
            fetch_ancestry: Some(a),
            fetch_children: Some(c),
            report_error: false,
            clear_approve_amount: false,
            redraw: false,
            focus: None,
        }
    }
}

impl Controller {
    /// What a failure of the latest ancestry request asks for: the root's
    /// ancestry and children, unless the root itself was asked for; the
    /// failure is reported either way.
    pub open spec fn fallback_effects(&self) -> Effects {
        if self.ancestry_subject() != ROOT_ID {
            Effects {
                fetch_ancestry: Some(
                    Request { id: (self.ancestry_latest() + 1) as u64, territory: ROOT_ID },
                ),
                fetch_children: Some(
                    Request { id: (self.children_latest() + 1) as u64, territory: ROOT_ID },
                ),
                report_error: true,
                ..quiet()
            }
        } else {
            Effects { report_error: true, ..quiet() }
        }
    }

    /// `next` is this state after falling back: a fresh request of each kind
    /// for the root, unless the root itself was asked for; views unchanged.
    pub open spec fn falls_back_to(&self, next: Controller) -> bool {
        &&& next.path_seq() == self.path_seq()
        &&& next.children_seq() == self.children_seq()
        &&& next.bids_seq() == self.bids_seq()
        &&& next.account_spec() == self.account_spec()
        &&& if self.ancestry_subject() != ROOT_ID {
            &&& next.ancestry_latest() == self.ancestry_latest() + 1
            &&& next.children_latest() == self.children_latest() + 1
            &&& next.ancestry_subject() == ROOT_ID
        } else {
            next == *self
        }
    }

    /// Falls back to the root after the latest ancestry request failed:
    /// reports the failure, and shows the root unless the root itself was
    /// asked for.
    fn fall_back(&mut self) -> (r: Effects)
        requires
            old(self).wf(),
            old(self).can_issue_spec(),
        ensures
            final(self).wf(),
            r == old(self).fallback_effects(),
            old(self).falls_back_to(*final(self)),
    {
        if self.ancestry_target != ROOT_ID {
            let e = self.view_territory(ROOT_ID);
            Effects { report_error: true, ..e }
        } else {
            Effects {
                fetch_ancestry: None,
                fetch_children: None,
                report_error: true,
                clear_approve_amount: false,
                redraw: false,
                focus: None,
            }
        }
    }

    /// The ancestry request `request` failed. A stale failure is dropped;
    /// otherwise it is reported and the view falls back to the root.
    pub fn ancestry_failed(&mut self, request: u64) -> (r: Effects)
        requires
            old(self).wf(),
            old(self).can_issue_spec(),
        ensures
            final(self).wf(),
            !answers_latest(old(self).ancestry_latest(), request) ==> r == quiet() && *final(self)
                == *old(self),
            answers_latest(old(self).ancestry_latest(), request) ==> r == old(
                self,
            ).fallback_effects() && old(self).falls_back_to(*final(self)),
    {
        if request != self.ancestry_issued {
            return Effects {
                fetch_ancestry: None,
                fetch_children: None,
                report_error: false,
                clear_approve_amount: false,
                redraw: false,
                focus: None,
            };
        }
        self.fall_back()
    }

    /// The ancestry request `request` answered with `ancestry`, listed from
    /// the territory up to the root. A stale answer is dropped. An answer
    /// that starts at the requested territory and is, root first, a chain
    /// from the root replaces the path; any other counts as a failure.
    pub fn ancestry_loaded(&mut self, request: u64, ancestry: Vec<Metadata>) -> (r: Effects)
        requires
            old(self).wf(),
            old(self).can_issue_spec(),
        ensures
            final(self).wf(),
            !answers_latest(old(self).ancestry_latest(), request) ==> r == quiet() && *final(self)
                == *old(self),
            answers_latest(old(self).ancestry_latest(), request) && old(self).fits_ancestry(
                ancestry@,
            ) ==> r == (Effects { redraw: true, focus: Some(ancestry@[0].field), ..quiet() })
                && final(self).path_seq() == tag_territories(
                root_first(ancestry@),
                old(self).account_spec(),
            ) && final(self).ancestry_latest() == old(self).ancestry_latest()
                && final(self).children_latest() == old(self).children_latest(),
            answers_latest(old(self).ancestry_latest(), request) && !old(self).fits_ancestry(
                ancestry@,
            ) ==> r == old(self).fallback_effects() && old(
                self,
            ).falls_back_to(*final(self)),
            final(self).children_seq() == old(self).children_seq(),
            final(self).bids_seq() == old(self).bids_seq(),
            final(self).account_spec() == old(self).account_spec(),
            final(self).children_latest() >= old(self).children_latest(),
    {
        if request != self.ancestry_issued {
            return Effects {
                fetch_ancestry: None,
                fetch_children: None,
                report_error: false,
                clear_approve_amount: false,
                redraw: false,
                focus: None,
            };
        }
        if ancestry.len() > 0 && ancestry[0].token_id == self.ancestry_target
            && self.path.replace_with_ancestry(&ancestry, self.account) {
            assert(root_first(ancestry@).last() == ancestry@[0]);
            Effects {
                fetch_ancestry: None,
                fetch_children: None,
                report_error: false,
                clear_approve_amount: false,
                redraw: true,
                focus: Some(ancestry[0].field),
            }
        } else {
            self.fall_back()
        }
    }

    /// The children request `request` answered: `children` and `bids` are
    /// what the ledger gave, `None` where that read failed. A stale answer
    /// is dropped. Otherwise each set that was read is replaced whole, and a
    /// failed read leaves its set as it was and is reported.
    pub fn children_loaded(&mut self, request: u64, children: Option<Vec<Metadata>>, bids: Option<
        Vec<Bid>,
    >) -> (r: Effects)
        requires
            old(self).wf(),
        ensures
            final(self).wf(),
            !answers_latest(old(self).children_latest(), request) ==> r == quiet() && *final(self)
                == *old(self),
            answers_latest(old(self).children_latest(), request) ==> r == (Effects {
                report_error: children is None || bids is None,
                redraw: true,
                focus: None,
                ..quiet()
            }) && final(self).path_seq() == old(self).path_seq() && final(self).account_spec()
                == old(self).account_spec() && final(self).children_latest() == old(
                self,
            ).children_latest() && final(self).ancestry_latest() == old(self).ancestry_latest()
                && match children {
                Some(c) => by_id(final(self).children_seq()) == by_id(
                    tag_territories(c@, old(self).account_spec()),
                ),
                None => final(self).children_seq() == old(self).children_seq(),
            } && match bids {
                Some(b) => by_id(final(self).bids_seq()) == by_id(
                    fresh_bids(b@, old(self).account_spec()),
                ) && none_selected(final(self).bids_seq()),
                None => final(self).bids_seq() == old(self).bids_seq(),
            },
    {
        if request != self.children_issued {
            return Effects {
                fetch_ancestry: None,
                fetch_children: None,
                report_error: false,
                clear_approve_amount: false,
                redraw: false,
                focus: None,
            };
        }
        let failed = children.is_none() || bids.is_none();
        match children {
            Some(c) => self.children.replace(c, self.account),
            None => {},
        }
        match bids {
            Some(b) => self.bids.replace(b, self.account),
            None => {},
        }
        Effects {
            fetch_ancestry: None,
            fetch_children: None,
            report_error: failed,
            clear_approve_amount: false,
            redraw: true,
            focus: None,
        }
    }

    /// The user selected a frame. A territory is descended into, the view
    /// moves into the current territory, and its children are asked for; a
    /// bid has its selection toggled.
    pub fn select_frame(&mut self, kind: FrameKind, id: u128) -> (r: Effects)
        requires
            old(self).wf(),
            old(self).can_issue_spec(),
        ensures
            final(self).wf(),
            final(self).account_spec() == old(self).account_spec(),
            final(self).ancestry_latest() == old(self).ancestry_latest(),
            final(self).children_seq() == old(self).children_seq(),
            (kind is Child || kind is PathAncestor) ==> r == (Effects {
                fetch_children: Some(
                    Request { id: (old(self).children_latest() + 1) as u64, territory: id },
                ),
                clear_approve_amount: true,
                redraw: true,
                focus: focus_of(final(self).path_seq()),
                ..quiet()
            }) && final(self).children_latest() == old(self).children_latest() + 1
                && final(self).path_seq() == descended(
                old(self).path_seq(),
                by_id(old(self).children_seq()),
                id,
            ) && final(self).bids_seq() == old(self).bids_seq(),
            (kind is PendingBid || kind is SelectedBid) ==> r == (Effects { redraw: true, ..quiet() })
                && final(self).children_latest() == old(self).children_latest()
                && final(self).path_seq() == old(self).path_seq() && final(self).bids_seq()
                == toggled(old(self).bids_seq(), id, kind is PendingBid),
    {
        match kind {
            FrameKind::Child | FrameKind::PathAncestor => {
                proof {
                    descend_keeps_tags(self.path@, self.children@, id, self.account);
                }
                self.path.descend(id, &self.children);
                let focus = match self.path.current() {
                    Some(t) => Some(t.field),
                    None => None,
                };
                let c = self.issue_children(id);
                Effects {
                    fetch_ancestry: None,
                    fetch_children: Some(c),
                    report_error: false,
                    clear_approve_amount: true,
                    redraw: true,
                    focus,
                }
            },
            FrameKind::PendingBid => {
                self.bids.set_selected(id, true);
                Effects {
                    fetch_ancestry: None,
                    fetch_children: None,
                    report_error: false,
                    clear_approve_amount: false,
                    redraw: true,
                    focus: None,
                }
            },
            FrameKind::SelectedBid => {
                self.bids.set_selected(id, false);
                Effects {
                    fetch_ancestry: None,
                    fetch_children: None,
                    report_error: false,
                    clear_approve_amount: false,
                    redraw: true,
                    focus: None,
                }
            },
        }
    }
}

impl Controller {
    /// The active account changed: every territory and bid is tagged anew;
    /// selections stay.
    pub fn set_account(&mut self, account: Option<Account>)
        requires
            old(self).wf(),
        ensures
            final(self).wf(),
            final(self).account_spec() == account,
            final(self).path_seq() == tag_territories(old(self).path_seq(), account),
            final(self).children_seq() == tag_territories(old(self).children_seq(), account),
            final(self).bids_seq() == tag_bids(old(self).bids_seq(), account),
            final(self).ancestry_latest() == old(self).ancestry_latest(),
            final(self).children_latest() == old(self).children_latest(),
    {
        self.account = account;
        self.path.retag(account);
        self.children.retag(account);
        self.bids.retag(account);
    }

    /// The frames for the renderer: the children, then the bids, then the
    /// territories on the path above the current one, root first.
    pub fn frames(&self) -> (r: Vec<Frame>)
        ensures
            r@ == projected(self.path_seq(), self.children_seq(), self.bids_seq()),
    {
        let ghost cs = self.children_seq();
        let ghost bs = self.bids_seq();
        let ghost ps = ancestors(self.path_seq());
        let mut out: Vec<Frame> = Vec::new();
        let children = self.children.entries();
        let mut i: usize = 0;
        while i < children.len()
            invariant
                children@ == cs,
                i <= cs.len(),
                out@ == Seq::new(i as nat, |k: int| child_frame(cs[k])),
            decreases cs.len() - i,
        {
            let t = children[i];
            out.push(Frame { id: t.token_id, field: t.field, kind: FrameKind::Child });
            assert(out@ =~= Seq::new((i + 1) as nat, |k: int| child_frame(cs[k])));
            i += 1;
        }
        let ghost first = out@;
        let bids = self.bids.entries();
        let mut j: usize = 0;
        while j < bids.len()
            invariant
                bids@ == bs,
                j <= bs.len(),
                out@ == first + Seq::new(j as nat, |k: int| bid_frame(bs[k])),
            decreases bs.len() - j,
        {
            let b = bids[j];
            let kind = if b.selected {
                FrameKind::SelectedBid
            } else {
                FrameKind::PendingBid
            };
            out.push(Frame { id: b.bid_id, field: b.field, kind });
            assert(out@ =~= first + Seq::new((j + 1) as nat, |k: int| bid_frame(bs[k])));
            j += 1;
        }
        let ghost second = out@;
        let path = self.path.entries();
        let above: usize = if path.len() > 0 {
            path.len() - 1
        } else {
            0
        };
        let mut k: usize = 0;
        while k < above
            invariant
                path@ == self.path_seq(),
                ps == ancestors(path@),
                above == ps.len(),
                above <= path@.len(),
                k <= above,
                out@ == second + Seq::new(k as nat, |m: int| ancestor_frame(ps[m])),
            decreases above - k,
        {
            let t = path[k];
            assert(t == ps[k as int]);
            out.push(Frame { id: t.token_id, field: t.field, kind: FrameKind::PathAncestor });
            assert(out@ =~= second + Seq::new((k + 1) as nat, |m: int| ancestor_frame(ps[m])));
            k += 1;
        }
        assert(out@ =~= projected(self.path_seq(), cs, bs));
        out
    }

    /// A remote action (a bid, an approval, a deletion, a burn, a mint, a
    /// transfer) finished. A failure is reported and changes nothing. A
    /// success asks for the children of the current territory again, and for
    /// its ancestry too when `refresh_ancestry` is set.
    pub fn action_finished(&mut self, succeeded: bool, refresh_ancestry: bool) -> (r: Effects)
        requires
            old(self).wf(),
            old(self).can_issue_spec(),
        ensures
            final(self).wf(),
            final(self).path_seq() == old(self).path_seq(),
            final(self).children_seq() == old(self).children_seq(),
            final(self).bids_seq() == old(self).bids_seq(),
            final(self).account_spec() == old(self).account_spec(),
            !succeeded ==> r == (Effects { report_error: true, ..quiet() }) && *final(self) == *old(
                self,
            ),
            succeeded && old(self).path_seq().len() == 0 ==> r == quiet() && *final(self) == *old(
                self,
            ),
            succeeded && old(self).path_seq().len() > 0 ==> final(self).children_latest() == old(
                self,
            ).children_latest() + 1 && final(self).ancestry_latest() == (if refresh_ancestry {
                old(self).ancestry_latest() + 1
            } else {
                old(self).ancestry_latest() as int
            }) && r == (Effects {
                fetch_ancestry: if refresh_ancestry {
                    Some(
                        Request {
                            id: (old(self).ancestry_latest() + 1) as u64,
                            territory: old(self).path_seq().last().token_id,
                        },
                    )
                } else {
                    None
                },
                fetch_children: Some(
                    Request {
                        id: (old(self).children_latest() + 1) as u64,
                        territory: old(self).path_seq().last().token_id,
                    },
                ),
                ..quiet()
            }),
    {
        if !succeeded {
            return Effects {
                fetch_ancestry: None,
                fetch_children: None,
                report_error: true,
                clear_approve_amount: false,
                redraw: false,
                focus: None,
            };
        }
        match self.path.current() {
            None => Effects {
                fetch_ancestry: None,
                fetch_children: None,
                report_error: false,
                clear_approve_amount: false,
                redraw: false,
                focus: None,
            },
            Some(t) => {
                let fetch_ancestry = if refresh_ancestry {
                    Some(self.issue_ancestry(t.token_id))
                } else {
                    None
                };
                let c = self.issue_children(t.token_id);
                Effects {
                    fetch_ancestry,
                    fetch_children: Some(c),
                    report_error: false,
                    clear_approve_amount: false,
                    redraw: false,
                    focus: None,
                }
            },
        }
    }

    /// A bid of `amount` on `field` with the given minimum price for its own
    /// subdivision, placed on the current territory when there is one. The
    /// box is not checked here: the ledger refuses a bad one and that
    /// failure comes back through `action_finished`.
    pub fn placement(&self, field: Field, amount: u128, minimum_price: u128) -> (r: Option<
        BidPlacement,
    >)
        ensures
            r == (if self.path_seq().len() > 0 {
                Some(
                    BidPlacement {
                        territory: self.path_seq().last().token_id,
                        field,
                        amount,
                        minimum_price,
                    },
                )
            } else {
                None
            }),
    {
        match self.path.current() {
            Some(t) => Some(BidPlacement { territory: t.token_id, field, amount, minimum_price }),
            None => None,
        }
    }

    /// The sum of `amount` over the selected bids, or `None` when it does not
    /// fit in a `u128`.
    pub fn selected_total(&self) -> (r: Option<u128>)
        ensures
            r == (if selected_sum(self.bids_seq()) <= u128::MAX {
                Some(selected_sum(self.bids_seq()) as u128)
            } else {
                None
            }),
    {
        self.bids.selected_total()
    }

    /// The ids of the selected bids: what an approval sends.
    pub fn selected_ids(&self) -> (r: Vec<u128>)
        ensures
            r@ == selected_ids_of(self.bids_seq()),
    {
        self.bids.selected_ids()
    }
}

} // verus!
