//! The children of the current territory and the pending bids on it: each a
//! set keyed by id, replaced whole on every refresh.
use vstd::prelude::*;
use crate::keyed::{
    Keyed, by_id, keys_unique, lemma_by_id_entries, lemma_by_id_take, lemma_by_id_update,
    lemma_push_unique,
};
use crate::model::{Account, Bid, Metadata, owned_by, tagged_bid, tagged_territory};

verus! {

/// Every territory of `s`, tagged for `account`.
pub open spec fn tag_territories(s: Seq<Metadata>, account: Option<Account>) -> Seq<Metadata> {
    Seq::new(s.len(), |i: int| tagged_territory(s[i], account))
}

/// Every territory of `s` carries the ownership flag for `account`.
pub open spec fn territories_tagged(s: Seq<Metadata>, account: Option<Account>) -> bool {
    forall|i: int| 0 <= i < s.len() ==> (#[trigger] s[i]).owned == owned_by(s[i].owner, account)
}

/// Every bid of `s` carries the ownership flag for `account`.
pub open spec fn bids_tagged(s: Seq<Bid>, account: Option<Account>) -> bool {
    forall|i: int| 0 <= i < s.len() ==> (#[trigger] s[i]).owned == owned_by(s[i].recipient, account)
}

/// A bid as it enters the bid set: tagged for `account`, not selected.
pub open spec fn fresh_bid(b: Bid, account: Option<Account>) -> Bid {
    Bid { selected: false, ..tagged_bid(b, account) }
}

pub open spec fn fresh_bids(s: Seq<Bid>, account: Option<Account>) -> Seq<Bid> {
    Seq::new(s.len(), |i: int| fresh_bid(s[i], account))
}

/// Every bid of `s`, tagged for `account`, selection kept.
pub open spec fn tag_bids(s: Seq<Bid>, account: Option<Account>) -> Seq<Bid> {
    Seq::new(s.len(), |i: int| tagged_bid(s[i], account))
}

/// `s` with the selection of the bid `id` set to `selected`.
pub open spec fn toggled(s: Seq<Bid>, id: u128, selected: bool) -> Seq<Bid> {
    Seq::new(
        s.len(),
        |i: int|
            if s[i].bid_id == id {
                Bid { selected, ..s[i] }
            } else {
                s[i]
            },
    )
}

/// No bid of `s` is selected.
pub open spec fn none_selected(s: Seq<Bid>) -> bool {
    forall|i: int| 0 <= i < s.len() ==> !(#[trigger] s[i]).selected
}

/// What a bid adds to the selected total.
pub open spec fn selected_amount(b: Bid) -> int {
    if b.selected {
        b.amount as int
    } else {
        0
    }
}

/// The sum of `amount` over the selected bids of `s`.
pub open spec fn selected_sum(s: Seq<Bid>) -> int
    decreases s.len(),
{
    if s.len() == 0 {
        0
    } else {
        selected_sum(s.drop_last()) + selected_amount(s.last())
    }
}

/// The ids of the selected bids of `s`, in the order of `s`.
pub open spec fn selected_ids_of(s: Seq<Bid>) -> Seq<u128>
    decreases s.len(),
{
    if s.len() == 0 {
        Seq::empty()
    } else if s.last().selected {
        selected_ids_of(s.drop_last()).push(s.last().bid_id)
    } else {
        selected_ids_of(s.drop_last())
    }
}

fn territory_position(v: &Vec<Metadata>, id: u128) -> (r: Option<usize>)
    ensures
        match r {
            Some(j) => j < v@.len() && v@[j as int].token_id == id,
            None => forall|i: int| 0 <= i < v@.len() ==> (#[trigger] v@[i]).token_id != id,
        },
{
    let mut i: usize = 0;
    while i < v.len()
        invariant
            i <= v@.len(),
            forall|k: int| 0 <= k < i ==> (#[trigger] v@[k]).token_id != id,
        decreases v@.len() - i,
    {
        if v[i].token_id == id {
            return Some(i);
        }
        i += 1;
    }
    None
}

fn bid_position(v: &Vec<Bid>, id: u128) -> (r: Option<usize>)
    ensures
        match r {
            Some(j) => j < v@.len() && v@[j as int].bid_id == id,
            None => forall|i: int| 0 <= i < v@.len() ==> (#[trigger] v@[i]).bid_id != id,
        },
{
    let mut i: usize = 0;
    while i < v.len()
        invariant
            i <= v@.len(),
            forall|k: int| 0 <= k < i ==> (#[trigger] v@[k]).bid_id != id,
        decreases v@.len() - i,
    {
        if v[i].bid_id == id {
            return Some(i);
        }
        i += 1;
    }
    None
}

/// The children of the current territory, keyed by territory id.
pub struct ChildrenSet {
    items: Vec<Metadata>,
}

impl View for ChildrenSet {
    type V = Seq<Metadata>;

    closed spec fn view(&self) -> Seq<Metadata> {
        self.items@
    }
}

impl ChildrenSet {
    pub open spec fn wf(&self) -> bool {
        keys_unique(self@)
    }

    pub fn new() -> (r: ChildrenSet)
        ensures
            r@ == Seq::<Metadata>::empty(),
            r.wf(),
    {
        ChildrenSet { items: Vec::new() }
    }

    pub fn len(&self) -> (r: usize)
        ensures
            r == self@.len(),
    {
        self.items.len()
    }

    /// The children in the set's own order.
    pub fn entries(&self) -> (r: &Vec<Metadata>)
        ensures
            r@ == self@,
    {
        &self.items
    }

    /// The child with id `id`, if the set holds one.
    pub fn get(&self, id: u128) -> (r: Option<Metadata>)
        requires
            self.wf(),
        ensures
            r == (if by_id(self@).contains_key(id) {
                Some(by_id(self@)[id])
            } else {
                None
            }),
    {
        proof {
            lemma_by_id_entries(self@);
        }
        match territory_position(&self.items, id) {
            Some(j) => Some(self.items[j]),
            None => None,
        }
    }

    /// Replaces the whole set by the territories of `incoming`, tagged for
    /// `account`; of two with one id the later one stays.
    pub fn replace(&mut self, incoming: Vec<Metadata>, account: Option<Account>)
        ensures
            final(self).wf(),
            by_id(final(self)@) == by_id(tag_territories(incoming@, account)),
            territories_tagged(final(self)@, account),
    {
        let ghost tagged = tag_territories(incoming@, account);
        let mut out: Vec<Metadata> = Vec::new();
        let mut i: usize = 0;
        while i < incoming.len()
            invariant
                i <= incoming@.len(),
                tagged == tag_territories(incoming@, account),
                keys_unique(out@),
                territories_tagged(out@, account),
                by_id(out@) == by_id(tagged.take(i as int)),
            decreases incoming@.len() - i,
        {
            let x = incoming[i].tag(account);
            assert(x == tagged[i as int]);
            match territory_position(&out, x.token_id) {
                Some(j) => {
                    proof {
                        lemma_by_id_update(out@, j as int, x);
                    }
                    out.set(j, x);
                },
                None => {
                    proof {
                        lemma_push_unique(out@, x);
                    }
                    out.push(x);
                },
            }
            proof {
                lemma_by_id_take(tagged, i as int);
            }
            i += 1;
        }
        assert(tagged.take(incoming@.len() as int) =~= tagged);
        self.items = out;
    }

    /// Tags every child for `account`.
    pub fn retag(&mut self, account: Option<Account>)
        requires
            old(self).wf(),
        ensures
            final(self).wf(),
            final(self)@ == tag_territories(old(self)@, account),
            territories_tagged(final(self)@, account),
    {
        let mut out: Vec<Metadata> = Vec::new();
        let mut i: usize = 0;
        while i < self.items.len()
            invariant
                i <= self.items@.len(),
                out@ == tag_territories(self.items@.take(i as int), account),
            decreases self.items@.len() - i,
        {
            out.push(self.items[i].tag(account));
            assert(out@ =~= tag_territories(self.items@.take(i + 1), account));
            i += 1;
        }
        assert(self.items@.take(self.items@.len() as int) =~= self.items@);
        self.items = out;
        assert(keys_unique(self@)) by {
            assert forall|a: int, b: int| 0 <= a < b < self@.len() implies (
            #[trigger] self@[a]).key() != (#[trigger] self@[b]).key() by {
                assert(old(self)@[a].key() != old(self)@[b].key());
            }
        }
    }
}

/// Toggling a bid changes the selected total by the difference in what
/// that bid adds; toggling an id that no bid has changes nothing.
pub proof fn toggle_moves_total(s: Seq<Bid>, id: u128, selected: bool)
    requires
        keys_unique(s),
    ensures
        (forall|i: int| 0 <= i < s.len() ==> (#[trigger] s[i]).bid_id != id) ==> toggled(s, id, selected)
            == s,
        forall|j: int|
            0 <= j < s.len() && (#[trigger] s[j]).bid_id == id ==> selected_sum(toggled(s, id, selected))
                == selected_sum(s) - selected_amount(s[j]) + selected_amount(Bid { selected, ..s[j] }),
    decreases s.len(),
{
    let t = toggled(s, id, selected);
    if forall|i: int| 0 <= i < s.len() ==> (#[trigger] s[i]).bid_id != id {
        assert(t =~= s);
    }
    if s.len() > 0 {
        let d = s.drop_last();
        assert(keys_unique(d)) by {
            assert forall|a: int, b: int| 0 <= a < b < d.len() implies (#[trigger] d[a]).key() != (
            #[trigger] d[b]).key() by {
                assert(d[a] == s[a] && d[b] == s[b]);
            }
        }
        toggle_moves_total(d, id, selected);
        assert(t.drop_last() =~= toggled(d, id, selected));
        assert forall|j: int| 0 <= j < s.len() && (#[trigger] s[j]).bid_id == id implies selected_sum(t)
            == selected_sum(s) - selected_amount(s[j]) + selected_amount(Bid { selected, ..s[j] }) by {
            if j == s.len() - 1 {
                assert forall|i: int| 0 <= i < d.len() implies (#[trigger] d[i]).bid_id != id by {
                    assert(s[i].key() != s[j].key());
                }
            } else {
                assert(d[j] == s[j]);
                assert(s[j].key() != s[s.len() - 1].key());
            }
        }
    }
}

/// `s` after the toggles of `ops`, each an id and a selection, in order.
pub open spec fn toggled_all(s: Seq<Bid>, ops: Seq<(u128, bool)>) -> Seq<Bid>
    decreases ops.len(),
{
    if ops.len() == 0 {
        s
    } else {
        toggled(toggled_all(s, ops.drop_last()), ops.last().0, ops.last().1)
    }
}

/// The selection that the last toggle of `id` in `ops` asked for, if `ops`
/// toggles `id` at all.
pub open spec fn last_toggle(ops: Seq<(u128, bool)>, id: u128) -> Option<bool>
    decreases ops.len(),
{
    if ops.len() == 0 {
        None
    } else if ops.last().0 == id {
        Some(ops.last().1)
    } else {
        last_toggle(ops.drop_last(), id)
    }
}

/// `s` with exactly those bids selected whose last toggle in `ops` selected
/// them.
pub open spec fn selected_by_last_toggle(s: Seq<Bid>, ops: Seq<(u128, bool)>) -> Seq<Bid> {
    Seq::new(
        s.len(),
        |i: int| Bid { selected: last_toggle(ops, s[i].bid_id) == Some(true), ..s[i] },
    )
}

/// Starting from bids none of which is selected (as a replace leaves them),
/// any run of toggles leaves selected exactly the bids whose last toggle
/// selected them; bids never toggled, last deselected, or toggled while
/// absent add nothing, so the selected total is the sum over the former.
pub proof fn toggles_decide_total(s: Seq<Bid>, ops: Seq<(u128, bool)>)
    requires
        none_selected(s),
    ensures
        toggled_all(s, ops) == selected_by_last_toggle(s, ops),
        selected_sum(toggled_all(s, ops)) == selected_sum(selected_by_last_toggle(s, ops)),
        selected_ids_of(toggled_all(s, ops)) == selected_ids_of(selected_by_last_toggle(s, ops)),
    decreases ops.len(),
{
    if ops.len() == 0 {
        assert(toggled_all(s, ops) =~= selected_by_last_toggle(s, ops));
    } else {
        let prev = ops.drop_last();
        toggles_decide_total(s, prev);
        assert(toggled_all(s, ops) =~= selected_by_last_toggle(s, ops));
    }
}

/// A prefix of the bids never selects more than the whole.
pub proof fn lemma_prefix_sum(s: Seq<Bid>, n: int)
    requires
        0 <= n <= s.len(),
    ensures
        0 <= selected_sum(s.take(n)) <= selected_sum(s),
    decreases s.len(),
{
    if n == s.len() {
        assert(s.take(n) =~= s);
        lemma_sum_nonnegative(s);
    } else {
        let d = s.drop_last();
        assert(s.take(n) =~= d.take(n));
        lemma_prefix_sum(d, n);
    }
}

pub proof fn lemma_sum_nonnegative(s: Seq<Bid>)
    ensures
        selected_sum(s) >= 0,
    decreases s.len(),
{
    if s.len() > 0 {
        lemma_sum_nonnegative(s.drop_last());
    }
}

/// Bids none of which is selected add up to nothing and name no id.
pub proof fn unselected_total_is_zero(s: Seq<Bid>)
    requires
        none_selected(s),
    ensures
        selected_sum(s) == 0,
        selected_ids_of(s) == Seq::<u128>::empty(),
    decreases s.len(),
{
    if s.len() > 0 {
        let d = s.drop_last();
        assert forall|i: int| 0 <= i < d.len() implies !(#[trigger] d[i]).selected by {
            assert(d[i] == s[i]);
        }
        assert(!s[s.len() - 1].selected);
        unselected_total_is_zero(d);
    }
}

/// The pending bids on the current territory, keyed by bid id.
pub struct BidSet {
    items: Vec<Bid>,
}

impl View for BidSet {
    type V = Seq<Bid>;

    closed spec fn view(&self) -> Seq<Bid> {
        self.items@
    }
}

impl BidSet {
    pub open spec fn wf(&self) -> bool {
        keys_unique(self@)
    }

    pub fn new() -> (r: BidSet)
        ensures
            r@ == Seq::<Bid>::empty(),
            r.wf(),
    {
        BidSet { items: Vec::new() }
    }

    pub fn len(&self) -> (r: usize)
        ensures
            r == self@.len(),
    {
        self.items.len()
    }

    /// The bids in the set's own order.
    pub fn entries(&self) -> (r: &Vec<Bid>)
        ensures
            r@ == self@,
    {
        &self.items
    }

    /// The bid with id `id`, if the set holds one.
    pub fn get(&self, id: u128) -> (r: Option<Bid>)
        requires
            self.wf(),
        ensures
            r == (if by_id(self@).contains_key(id) {
                Some(by_id(self@)[id])
            } else {
                None
            }),
    {
        proof {
            lemma_by_id_entries(self@);
        }
        match bid_position(&self.items, id) {
            Some(j) => Some(self.items[j]),
            None => None,
        }
    }

    /// Replaces the whole set by the bids of `incoming`, tagged for
    /// `account` and unselected; of two with one id the later one stays.
    pub fn replace(&mut self, incoming: Vec<Bid>, account: Option<Account>)
        ensures
            final(self).wf(),
            by_id(final(self)@) == by_id(fresh_bids(incoming@, account)),
            none_selected(final(self)@),
            bids_tagged(final(self)@, account),
    {
        let ghost fresh = fresh_bids(incoming@, account);
        let mut out: Vec<Bid> = Vec::new();
        let mut i: usize = 0;
        while i < incoming.len()
            invariant
                i <= incoming@.len(),
                fresh == fresh_bids(incoming@, account),
                keys_unique(out@),
                bids_tagged(out@, account),
                by_id(out@) == by_id(fresh.take(i as int)),
                forall|k: int| 0 <= k < out@.len() ==> !(#[trigger] out@[k]).selected,
            decreases incoming@.len() - i,
        {
            let x = Bid { selected: false, ..incoming[i].tag(account) };
            assert(x == fresh[i as int]);
            match bid_position(&out, x.bid_id) {
                Some(j) => {
                    proof {
                        lemma_by_id_update(out@, j as int, x);
                    }
                    out.set(j, x);
                },
                None => {
                    proof {
                        lemma_push_unique(out@, x);
                    }
                    out.push(x);
                },
            }
            proof {
                lemma_by_id_take(fresh, i as int);
            }
            i += 1;
        }
        assert(fresh.take(incoming@.len() as int) =~= fresh);
        self.items = out;
    }

    /// Tags every bid for `account`; selections stay as they are.
    pub fn retag(&mut self, account: Option<Account>)
        requires
            old(self).wf(),
        ensures
            final(self).wf(),
            final(self)@ == tag_bids(old(self)@, account),
            bids_tagged(final(self)@, account),
    {
        let mut out: Vec<Bid> = Vec::new();
        let mut i: usize = 0;
        while i < self.items.len()
            invariant
                i <= self.items@.len(),
                out@ == tag_bids(self.items@.take(i as int), account),
            decreases self.items@.len() - i,
        {
            out.push(self.items[i].tag(account));
            assert(out@ =~= tag_bids(self.items@.take(i + 1), account));
            i += 1;
        }
        assert(self.items@.take(self.items@.len() as int) =~= self.items@);
        self.items = out;
        assert(keys_unique(self@)) by {
            assert forall|a: int, b: int| 0 <= a < b < self@.len() implies (
            #[trigger] self@[a]).key() != (#[trigger] self@[b]).key() by {
                assert(old(self)@[a].key() != old(self)@[b].key());
            }
        }
    }

    /// Sets the selection of the bid `id`; nothing changes when no bid has
    /// that id.
    pub fn set_selected(&mut self, id: u128, selected: bool)
        requires
            old(self).wf(),
        ensures
            final(self).wf(),
            final(self)@ == toggled(old(self)@, id, selected),
            forall|account: Option<Account>|
                bids_tagged(old(self)@, account) ==> #[trigger] bids_tagged(final(self)@, account),
    {
        let mut out: Vec<Bid> = Vec::new();
        let mut i: usize = 0;
        while i < self.items.len()
            invariant
                i <= self.items@.len(),
                out@ == toggled(self.items@.take(i as int), id, selected),
            decreases self.items@.len() - i,
        {
            let b = self.items[i];
            if b.bid_id == id {
                out.push(Bid { selected, ..b });
            } else {
                out.push(b);
            }
            assert(out@ =~= toggled(self.items@.take(i + 1), id, selected));
            i += 1;
        }
        assert(self.items@.take(self.items@.len() as int) =~= self.items@);
        self.items = out;
        assert(keys_unique(self@)) by {
            assert forall|a: int, b: int| 0 <= a < b < self@.len() implies (
            #[trigger] self@[a]).key() != (#[trigger] self@[b]).key() by {
                assert(old(self)@[a].key() != old(self)@[b].key());
            }
        }
    }

    /// The sum of `amount` over the selected bids, or `None` when it does not
    /// fit in a `u128`.
    pub fn selected_total(&self) -> (r: Option<u128>)
        ensures
            r == (if selected_sum(self@) <= u128::MAX {
                Some(selected_sum(self@) as u128)
            } else {
                None
            }),
    {
        let mut total: u128 = 0;
        let mut i: usize = 0;
        while i < self.items.len()
            invariant
                i <= self.items@.len(),
                total == selected_sum(self.items@.take(i as int)),
            decreases self.items@.len() - i,
        {
            let b = self.items[i];
            assert(self.items@.take(i + 1).drop_last() =~= self.items@.take(i as int));
            if b.selected {
                if total > u128::MAX - b.amount {
                    proof {
                        lemma_prefix_sum(self.items@, i + 1);
                    }
                    return None;
                }
                total = total + b.amount;
            }
            i += 1;
        }
        assert(self.items@.take(self.items@.len() as int) =~= self.items@);
        Some(total)
    }

    /// The ids of the selected bids, in the set's order.
    pub fn selected_ids(&self) -> (r: Vec<u128>)
        ensures
            r@ == selected_ids_of(self@),
    {
        let mut out: Vec<u128> = Vec::new();
        let mut i: usize = 0;
        while i < self.items.len()
            invariant
                i <= self.items@.len(),
                out@ == selected_ids_of(self.items@.take(i as int)),
            decreases self.items@.len() - i,
        {
            let b = self.items[i];
            assert(self.items@.take(i + 1).drop_last() =~= self.items@.take(i as int));
            if b.selected {
                out.push(b.bid_id);
            }
            i += 1;
        }
        assert(self.items@.take(self.items@.len() as int) =~= self.items@);
        out
    }
}

} // verus!
