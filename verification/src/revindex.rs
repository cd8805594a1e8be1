use vstd::prelude::*;

use crate::bytes::{bytes_eq, clone_bytes};

verus! {

/// One stored binding from a revision identifier to its rank.
struct Entry {
    key: Vec<u8>,
    rank: usize,
}

/// No two stored entries bind the same identifier.
spec fn unique_keys(s: Seq<Entry>) -> bool {
    forall|i: int, j: int| 0 <= i < j < s.len() ==> s[i].key@ != s[j].key@
}

/// The mapping an entry list denotes: later entries win.
spec fn assoc_map(s: Seq<Entry>) -> Map<Seq<u8>, int>
    decreases s.len(),
{
    if s.len() == 0 {
        Map::empty()
    } else {
        assoc_map(s.drop_last()).insert(s.last().key@, s.last().rank as int)
    }
}

/// The view of each byte vector of a list, in order.
pub open spec fn views_of(ids: Seq<Vec<u8>>) -> Seq<Seq<u8>> {
    Seq::new(ids.len(), |i: int| ids[i]@)
}

/// The mapping an ordered identifier list gives rise to: each identifier is
/// bound to its 0-based position, and a later occurrence of the same
/// identifier overwrites an earlier one.
pub open spec fn rank_map(ids: Seq<Seq<u8>>) -> Map<Seq<u8>, int>
    decreases ids.len(),
{
    if ids.len() == 0 {
        Map::empty()
    } else {
        rank_map(ids.drop_last()).insert(ids.last(), ids.len() - 1)
    }
}

/// A key is bound by an entry list exactly when some entry carries it.
proof fn lemma_assoc_contains(s: Seq<Entry>, k: Seq<u8>)
    ensures
        assoc_map(s).contains_key(k) <==> exists|i: int| 0 <= i < s.len() && s[i].key@ == k,
    decreases s.len(),
{
    if s.len() > 0 {
        let d = s.drop_last();
        lemma_assoc_contains(d, k);
        if assoc_map(s).contains_key(k) {
            if k == s.last().key@ {
                assert(s[s.len() - 1].key@ == k);
            } else {
                let i = choose|i: int| 0 <= i < d.len() && d[i].key@ == k;
                assert(s[i].key@ == k);
            }
        }
        if exists|i: int| 0 <= i < s.len() && s[i].key@ == k {
            let i = choose|i: int| 0 <= i < s.len() && s[i].key@ == k;
            if i < s.len() - 1 {
                assert(d[i].key@ == k);
            }
        }
    }
}

/// In a list without repeated keys, each entry's key is bound to that
/// entry's rank.
proof fn lemma_assoc_get(s: Seq<Entry>, i: int)
    requires
        unique_keys(s),
        0 <= i < s.len(),
    ensures
        assoc_map(s).contains_key(s[i].key@),
        assoc_map(s)[s[i].key@] == s[i].rank as int,
    decreases s.len(),
{
    let d = s.drop_last();
    if i < s.len() - 1 {
        assert(forall|j: int| 0 <= j < d.len() ==> d[j] == s[j]);
        lemma_assoc_get(d, i);
        assert(s[i].key@ != s[s.len() - 1].key@);
    }
}

/// A list without repeated keys binds exactly as many keys as it has
/// entries.
proof fn lemma_assoc_dom_len(s: Seq<Entry>)
    requires
        unique_keys(s),
    ensures
        assoc_map(s).dom().finite(),
        assoc_map(s).dom().len() == s.len(),
    decreases s.len(),
{
    if s.len() > 0 {
        let d = s.drop_last();
        assert(forall|j: int| 0 <= j < d.len() ==> d[j] == s[j]);
        lemma_assoc_dom_len(d);
        lemma_assoc_contains(d, s.last().key@);
        assert(forall|i: int| 0 <= i < d.len() ==> #[trigger] s[i].key@ != s[s.len() - 1].key@);
        assert(!assoc_map(d).contains_key(s.last().key@));
        assert(assoc_map(s).dom() =~= assoc_map(d).dom().insert(s.last().key@));
    }
}

/// Replacing the entry at `p` by one carrying the same key denotes the same
/// mapping as inserting that key anew.
proof fn lemma_assoc_update(s: Seq<Entry>, p: int, e2: Entry)
    requires
        unique_keys(s),
        0 <= p < s.len(),
        e2.key@ == s[p].key@,
    ensures
        assoc_map(s.update(p, e2)) == assoc_map(s).insert(e2.key@, e2.rank as int),
        unique_keys(s.update(p, e2)),
    decreases s.len(),
{
    let s2 = s.update(p, e2);
    assert(forall|i: int| 0 <= i < s.len() ==> s2[i].key@ == s[i].key@);
    if p == s.len() - 1 {
        assert(s2.drop_last() =~= s.drop_last());
        assert(s2.last() == e2);
        assert(assoc_map(s2) =~= assoc_map(s).insert(e2.key@, e2.rank as int));
    } else {
        let d = s.drop_last();
        assert(forall|j: int| 0 <= j < d.len() ==> d[j] == s[j]);
        assert(s2.drop_last() =~= d.update(p, e2));
        lemma_assoc_update(d, p, e2);
        assert(s2.last() == s.last());
        assert(e2.key@ != s.last().key@);
        assert(assoc_map(s2) =~= assoc_map(s).insert(e2.key@, e2.rank as int));
    }
}

/// Binds `id` to `rank` in the entry list, overwriting an entry that
/// already carries `id`.
fn upsert(entries: &mut Vec<Entry>, id: &Vec<u8>, rank: usize)
    requires
        unique_keys(old(entries)@),
    ensures
        unique_keys(final(entries)@),
        assoc_map(final(entries)@) == assoc_map(old(entries)@).insert(id@, rank as int),
{
    let ghost s0 = entries@;
    let mut p: usize = 0;
    while p < entries.len()
        invariant
            entries@ == s0,
            s0 == old(entries)@,
            unique_keys(s0),
            p <= s0.len(),
            forall|j: int| 0 <= j < p ==> s0[j].key@ != id@,
        decreases entries@.len() - p,
    {
        if bytes_eq(&entries[p].key, id) {
            let e2 = Entry { key: clone_bytes(id), rank };
            proof {
                lemma_assoc_update(s0, p as int, e2);
            }
            entries[p] = e2;
            return ;
        }
        p = p + 1;
    }
    let e = Entry { key: clone_bytes(id), rank };
    proof {
        assert(s0.push(e).drop_last() =~= s0);
        assert(forall|j: int| 0 <= j < s0.len() ==> s0.push(e)[j] == s0[j]);
    }
    entries.push(e);
}

/// A read-only mapping from revision identifier to its rank: the 0-based
/// position at which the identifier last appeared in the ordered revision
/// list the index was built from.
pub struct RevisionIndex {
    entries: Vec<Entry>,
}

impl View for RevisionIndex {
    type V = Map<Seq<u8>, int>;

    closed spec fn view(&self) -> Map<Seq<u8>, int> {
        assoc_map(self.entries@)
    }
}

impl RevisionIndex {
    #[verifier::type_invariant]
    spec fn wf(self) -> bool {
        unique_keys(self.entries@)
    }

    /// Builds the index from the ordered identifier list: identifier at
    /// position `i` is bound to rank `i`, and a duplicate identifier keeps
    /// the rank of its last occurrence.
    pub fn build(ids: &Vec<Vec<u8>>) -> (idx: RevisionIndex)
        ensures
            idx@ == rank_map(views_of(ids@)),
    {
        let ghost vs = views_of(ids@);
        let mut entries: Vec<Entry> = Vec::new();
        let mut i: usize = 0;
        while i < ids.len()
            invariant
                i <= ids@.len(),
                vs == views_of(ids@),
                unique_keys(entries@),
                assoc_map(entries@) == rank_map(vs.take(i as int)),
            decreases ids@.len() - i,
        {
            upsert(&mut entries, &ids[i], i);
            proof {
                assert(vs.take(i + 1).drop_last() =~= vs.take(i as int));
                assert(vs.take(i + 1).last() == ids@[i as int]@);
            }
            i = i + 1;
        }
        proof {
            assert(vs.take(ids@.len() as int) =~= vs);
        }
        RevisionIndex { entries }
    }

    /// Returns the rank of `id`, or `None` when `id` is not in the index.
    pub fn lookup(&self, id: &Vec<u8>) -> (r: Option<usize>)
        ensures
            match r {
                Some(v) => self@.contains_key(id@) && v as int == self@[id@],
                None => !self@.contains_key(id@),
            },
    {
        proof {
            use_type_invariant(&*self);
        }
        let mut p: usize = 0;
        while p < self.entries.len()
            invariant
                unique_keys(self.entries@),
                p <= self.entries@.len(),
                forall|j: int| 0 <= j < p ==> self.entries@[j].key@ != id@,
            decreases self.entries@.len() - p,
        {
            if bytes_eq(&self.entries[p].key, id) {
                proof {
                    lemma_assoc_get(self.entries@, p as int);
                }
                return Some(self.entries[p].rank);
            }
            p = p + 1;
        }
        proof {
            lemma_assoc_contains(self.entries@, id@);
        }
        None
    }

    /// The number of distinct identifiers the index binds.
    pub fn size(&self) -> (n: usize)
        ensures
            n as int == self@.dom().len(),
    {
        proof {
            use_type_invariant(&*self);
            lemma_assoc_dom_len(self.entries@);
        }
        self.entries.len()
    }
}

} // verus!
