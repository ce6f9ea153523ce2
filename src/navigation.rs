//! The breadcrumb path from the root territory to the current one.
use vstd::prelude::*;
use crate::keyed::{by_id, keys_unique, lemma_by_id_entries};
use crate::keyed::Keyed;
use crate::model::{Account, Metadata, ROOT_ID, owned_by};
use crate::store::{ChildrenSet, tag_territories, territories_tagged};

verus! {

/// `p` starts at the root and each territory's parent is the one before it.
pub open spec fn is_chain(p: Seq<Metadata>) -> bool {
    &&& p.len() > 0 ==> p[0].token_id == ROOT_ID
    &&& forall|i: int| 1 <= i < p.len() ==> (#[trigger] p[i]).parent_id == p[i - 1].token_id
}

/// `c` may follow the end of `p` on a path.
pub open spec fn links_to(p: Seq<Metadata>, c: Metadata) -> bool {
    if p.len() == 0 {
        c.token_id == ROOT_ID
    } else {
        c.parent_id == p.last().token_id
    }
}

/// The shortest prefix of `p` that ends at the territory `id`, or all of
/// `p` when no territory on it has that id.
pub open spec fn cut_at(p: Seq<Metadata>, id: u128) -> Seq<Metadata>
    decreases p.len(),
{
    if p.len() == 0 {
        p
    } else if p[0].token_id == id {
        p.take(1)
    } else {
        seq![p[0]] + cut_at(p.drop_first(), id)
    }
}

/// `p`, with the child `id` appended when `children` holds it and it links
/// to the end of `p`.
pub open spec fn extended(p: Seq<Metadata>, children: Map<u128, Metadata>, id: u128) -> Seq<
    Metadata,
> {
    if children.contains_key(id) && links_to(p, children[id]) {
        p.push(children[id])
    } else {
        p
    }
}

/// The path after the territory `id` is selected.
pub open spec fn descended(p: Seq<Metadata>, children: Map<u128, Metadata>, id: u128) -> Seq<
    Metadata,
> {
    cut_at(extended(p, children, id), id)
}

/// The entries of `s` from last to first.
pub open spec fn root_first(s: Seq<Metadata>) -> Seq<Metadata> {
    Seq::new(s.len(), |i: int| s[s.len() - 1 - i])
}

/// `cut_at` ends at the first territory with the id, or keeps the path.
pub proof fn lemma_cut_at(p: Seq<Metadata>, id: u128)
    ensures
        (forall|j: int| 0 <= j < p.len() ==> (#[trigger] p[j]).token_id != id) ==> cut_at(p, id)
            == p,
        forall|k: int|
            0 <= k < p.len() && (#[trigger] p[k]).token_id == id && (forall|j: int|
                0 <= j < k ==> (#[trigger] p[j]).token_id != id) ==> cut_at(p, id) == p.take(k + 1),
    decreases p.len(),
{
    if p.len() > 0 {
        let t = p.drop_first();
        lemma_cut_at(t, id);
        if p[0].token_id != id {
            if forall|j: int| 0 <= j < p.len() ==> (#[trigger] p[j]).token_id != id {
                assert forall|j: int| 0 <= j < t.len() implies (#[trigger] t[j]).token_id != id by {
                    assert(t[j] == p[j + 1]);
                }
                assert(seq![p[0]] + t =~= p);
            }
            assert forall|k: int|
                0 <= k < p.len() && (#[trigger] p[k]).token_id == id && (forall|j: int|
                    0 <= j < k ==> (#[trigger] p[j]).token_id != id) implies cut_at(p, id) == p.take(
                k + 1,
            ) by {
                assert(k > 0);
                assert(t[k - 1] == p[k]);
                assert forall|j: int| 0 <= j < k - 1 implies (#[trigger] t[j]).token_id != id by {
                    assert(t[j] == p[j + 1]);
                }
                assert(seq![p[0]] + t.take(k) =~= p.take(k + 1));
            }
        }
    }
}

/// A prefix of a chain is a chain.
pub proof fn lemma_chain_prefix(p: Seq<Metadata>, n: int)
    requires
        is_chain(p),
        0 <= n <= p.len(),
    ensures
        is_chain(p.take(n)),
{
    let q = p.take(n);
    assert forall|i: int| 1 <= i < q.len() implies (#[trigger] q[i]).parent_id == q[i - 1].token_id by {
        assert(q[i] == p[i] && q[i - 1] == p[i - 1]);
    }
}

/// Tagging keeps ids and parents, so it keeps a chain a chain.
pub proof fn lemma_chain_tagged(p: Seq<Metadata>, account: Option<Account>)
    ensures
        is_chain(p) <==> is_chain(tag_territories(p, account)),
{
    let q = tag_territories(p, account);
    if is_chain(p) {
        assert forall|i: int| 1 <= i < q.len() implies (#[trigger] q[i]).parent_id
            == q[i - 1].token_id by {
            assert(p[i].parent_id == p[i - 1].token_id);
        }
    }
    if is_chain(q) {
        assert forall|i: int| 1 <= i < p.len() implies (#[trigger] p[i]).parent_id
            == p[i - 1].token_id by {
            assert(q[i].parent_id == q[i - 1].token_id);
        }
    }
}

/// Selecting a territory keeps the path a chain from the root.
pub proof fn descend_keeps_chain(p: Seq<Metadata>, children: Map<u128, Metadata>, id: u128)
    requires
        is_chain(p),
    ensures
        is_chain(descended(p, children, id)),
{
    let e = extended(p, children, id);
    assert(is_chain(e)) by {
        if children.contains_key(id) && links_to(p, children[id]) {
            assert forall|i: int| 1 <= i < e.len() implies (#[trigger] e[i]).parent_id
                == e[i - 1].token_id by {
                if i < p.len() {
                    assert(e[i] == p[i] && e[i - 1] == p[i - 1]);
                } else {
                    assert(e[i - 1] == p.last());
                }
            }
        }
    }
    lemma_cut_at(e, id);
    if exists|k: int| 0 <= k < e.len() && (#[trigger] e[k]).token_id == id {
        let k = first_position(e, id);
        lemma_chain_prefix(e, k + 1);
    }
}

/// Selecting a territory keeps every territory on the path tagged for the
/// account that the path and the children were tagged for.
pub proof fn descend_keeps_tags(p: Seq<Metadata>, c: Seq<Metadata>, id: u128, account: Option<Account>)
    requires
        territories_tagged(p, account),
        territories_tagged(c, account),
        keys_unique(c),
    ensures
        territories_tagged(descended(p, by_id(c), id), account),
{
    let m = by_id(c);
    let e = extended(p, m, id);
    lemma_by_id_entries(c);
    assert(territories_tagged(e, account)) by {
        if m.contains_key(id) && links_to(p, m[id]) {
            let i = choose|i: int| 0 <= i < c.len() && (#[trigger] c[i]).key() == id;
            assert(m[c[i].key()] == c[i]);
            assert forall|j: int| 0 <= j < e.len() implies (#[trigger] e[j]).owned == owned_by(
                e[j].owner,
                account,
            ) by {
                if j < p.len() {
                    assert(e[j] == p[j]);
                }
            }
        }
    }
    lemma_cut_at(e, id);
    if exists|k: int| 0 <= k < e.len() && (#[trigger] e[k]).token_id == id {
        let k = first_position(e, id);
        let q = e.take(k + 1);
        assert forall|j: int| 0 <= j < q.len() implies (#[trigger] q[j]).owned == owned_by(
            q[j].owner,
            account,
        ) by {
            assert(q[j] == e[j]);
        }
    }
}

/// The first position of the territory `id` in `p`, given that it occurs.
pub proof fn first_position(p: Seq<Metadata>, id: u128) -> (k: int)
    requires
        exists|k: int| 0 <= k < p.len() && (#[trigger] p[k]).token_id == id,
    ensures
        0 <= k < p.len(),
        p[k].token_id == id,
        forall|j: int| 0 <= j < k ==> (#[trigger] p[j]).token_id != id,
    decreases p.len(),
{
    if p[0].token_id == id {
        0
    } else {
        let t = p.drop_first();
        let w = choose|k: int| 0 <= k < p.len() && (#[trigger] p[k]).token_id == id;
        assert(t[w - 1] == p[w]);
        let k = first_position(t, id);
        assert forall|j: int| 0 <= j < k + 1 implies (#[trigger] p[j]).token_id != id by {
            if j > 0 {
                assert(t[j - 1] == p[j]);
            }
        }
        k + 1
    }
}

/// Selecting a territory already on the path cuts the path back to end at
/// its first occurrence, whatever the children hold.
pub proof fn reselect_truncates(p: Seq<Metadata>, children: Map<u128, Metadata>, id: u128, k: int)
    requires
        0 <= k < p.len(),
        p[k].token_id == id,
        forall|j: int| 0 <= j < k ==> (#[trigger] p[j]).token_id != id,
    ensures
        descended(p, children, id) == p.take(k + 1),
{
    let e = extended(p, children, id);
    assert(e[k] == p[k]);
    assert forall|j: int| 0 <= j < k implies (#[trigger] e[j]).token_id != id by {
        assert(e[j] == p[j]);
    }
    lemma_cut_at(e, id);
    assert(e.take(k + 1) =~= p.take(k + 1));
}

fn chain_holds(v: &Vec<Metadata>) -> (r: bool)
    ensures
        r == is_chain(v@),
{
    if v.len() > 0 && v[0].token_id != ROOT_ID {
        return false;
    }
    let mut i: usize = 1;
    while i < v.len()
        invariant
            1 <= i,
            v@.len() > 0 ==> i <= v@.len(),
            v@.len() > 0 ==> v@[0].token_id == ROOT_ID,
            forall|k: int| 1 <= k < i && k < v@.len() ==> (#[trigger] v@[k]).parent_id == v@[k
                - 1].token_id,
        decreases v@.len() - i,
    {
        if v[i].parent_id != v[i - 1].token_id {
            return false;
        }
        i += 1;
    }
    true
}

/// The territories from the root to the current one.
pub struct NavigationPath {
    items: Vec<Metadata>,
}

impl View for NavigationPath {
    type V = Seq<Metadata>;

    closed spec fn view(&self) -> Seq<Metadata> {
        self.items@
    }
}

impl NavigationPath {
    pub open spec fn wf(&self) -> bool {
        is_chain(self@)
    }

    pub fn new() -> (r: NavigationPath)
        ensures
            r@ == Seq::<Metadata>::empty(),
            r.wf(),
    {
        NavigationPath { items: Vec::new() }
    }

    pub fn len(&self) -> (r: usize)
        ensures
            r == self@.len(),
    {
        self.items.len()
    }

    /// The path, root first.
    pub fn entries(&self) -> (r: &Vec<Metadata>)
        ensures
            r@ == self@,
    {
        &self.items
    }

    /// The current territory: the last on the path.
    pub fn current(&self) -> (r: Option<Metadata>)
        ensures
            r == (if self@.len() > 0 {
                Some(self@.last())
            } else {
                None
            }),
    {
        if self.items.len() > 0 {
            Some(self.items[self.items.len() - 1])
        } else {
            None
        }
    }

    /// Selects the territory `id`: appends it when it is a child of the
    /// current territory, then cuts the path back to end at its first
    /// occurrence.
    pub fn descend(&mut self, id: u128, children: &ChildrenSet)
        requires
            old(self).wf(),
            children.wf(),
        ensures
            final(self).wf(),
            final(self)@ == descended(old(self)@, by_id(children@), id),
    {
        let ghost e = extended(self@, by_id(children@), id);
        match children.get(id) {
            Some(c) => {
                let linked = if self.items.len() == 0 {
                    c.token_id == ROOT_ID
                } else {
                    c.parent_id == self.items[self.items.len() - 1].token_id
                };
                if linked {
                    self.items.push(c);
                }
            },
            None => {},
        }
        assert(self.items@ == e);
        proof {
            descend_keeps_chain(old(self)@, by_id(children@), id);
        }
        let mut k: usize = 0;
        while k < self.items.len()
            invariant
                self.items@ == e,
                e == extended(old(self)@, by_id(children@), id),
                is_chain(descended(old(self)@, by_id(children@), id)),
                k <= e.len(),
                forall|j: int| 0 <= j < k ==> (#[trigger] e[j]).token_id != id,
            decreases e.len() - k,
        {
            if self.items[k].token_id == id {
                proof {
                    lemma_cut_at(e, id);
                }
                assert(cut_at(e, id) == e.take(k + 1));
                self.items.truncate(k + 1);
                assert(self.items@ =~= e.take(k + 1));
                return;
            }
            k += 1;
        }
        proof {
            lemma_cut_at(e, id);
        }
    }

    /// Replaces the path by an ancestry listed from the territory up to the
    /// root, tagged for `account`. Succeeds when, root first, the ancestry is
    /// a non-empty chain from the root; otherwise the path stays as it was.
    pub fn replace_with_ancestry(&mut self, ancestry: &Vec<Metadata>, account: Option<Account>) -> (r:
        bool)
        requires
            old(self).wf(),
        ensures
            final(self).wf(),
            r == (ancestry@.len() > 0 && is_chain(root_first(ancestry@))),
            r ==> final(self)@ == tag_territories(root_first(ancestry@), account)
                && territories_tagged(final(self)@, account),
            !r ==> *final(self) == *old(self),
    {
        let n = ancestry.len();
        let mut out: Vec<Metadata> = Vec::new();
        let mut i: usize = 0;
        while i < n
            invariant
                n == ancestry@.len(),
                i <= n,
                out@ == tag_territories(root_first(ancestry@).take(i as int), account),
            decreases n - i,
        {
            out.push(ancestry[n - 1 - i].tag(account));
            assert(out@ =~= tag_territories(root_first(ancestry@).take(i + 1), account));
            i += 1;
        }
        assert(root_first(ancestry@).take(n as int) =~= root_first(ancestry@));
        proof {
            lemma_chain_tagged(root_first(ancestry@), account);
        }
        if n > 0 && chain_holds(&out) {
            self.items = out;
            true
        } else {
            false
        }
    }

    /// Tags every territory on the path for `account`.
    pub fn retag(&mut self, account: Option<Account>)
        requires
            old(self).wf(),
        ensures
            final(self).wf(),
            final(self)@ == tag_territories(old(self)@, account),
            territories_tagged(final(self)@, account),
    {
        let mut out: Vec<Metadata> = Vec::new();
        let mut i: usize = 0;
        while i < self.items.len()
            invariant
                i <= self.items@.len(),
                out@ == tag_territories(self.items@.take(i as int), account),
            decreases self.items@.len() - i,
        {
            out.push(self.items[i].tag(account));
            assert(out@ =~= tag_territories(self.items@.take(i + 1), account));
            i += 1;
        }
        assert(self.items@.take(self.items@.len() as int) =~= self.items@);
        proof {
            lemma_chain_tagged(self.items@, account);
        }
        self.items = out;
    }
}

} // verus!
