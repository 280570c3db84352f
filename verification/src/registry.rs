//! The download engine's bookkeeping: which engine id each GID stands
//! for, and which downloads are being removed, so that a poll of the
//! engine does not bring a removed row back while its worker shuts down.

use vstd::prelude::*;
use crate::text::{concat, str_equal};

verus! {

/// Whether no key occurs twice.
pub open spec fn unique_keys<I>(s: Seq<(String, I)>) -> bool {
    forall|i: int, j: int| 0 <= i < j < s.len() ==> s[i].0@ != s[j].0@
}

/// Whether `k` is the key of some entry.
pub open spec fn has_key<I>(s: Seq<(String, I)>, k: Seq<char>) -> bool {
    exists|i: int| 0 <= i < s.len() && s[i].0@ == k
}

/// The map from key to value that a list of entries stands for.
pub open spec fn key_map<I>(s: Seq<(String, I)>) -> Map<Seq<char>, I> {
    Map::new(
        |k: Seq<char>| has_key(s, k),
        |k: Seq<char>| s[choose|i: int| 0 <= i < s.len() && s[i].0@ == k].1,
    )
}

/// The keys of a list of entries.
pub open spec fn listed_keys<I>(s: Seq<(String, I)>) -> Set<Seq<char>> {
    Set::new(|k: Seq<char>| has_key(s, k))
}

/// The set of the views of some strings.
pub open spec fn text_set(s: Seq<String>) -> Set<Seq<char>> {
    Set::new(|k: Seq<char>| exists|i: int| 0 <= i < s.len() && s[i]@ == k)
}

/// Whether no string occurs twice.
pub open spec fn unique_texts(s: Seq<String>) -> bool {
    forall|i: int, j: int| 0 <= i < j < s.len() ==> s[i]@ != s[j]@
}

/// `m` with each listed entry whose key is not `hidden` put in, in order
/// (a later entry wins over an earlier one with the same key).
pub open spec fn insert_visible<I>(
    m: Map<Seq<char>, I>,
    listed: Seq<(String, I)>,
    hidden: Set<Seq<char>>,
) -> Map<Seq<char>, I>
    decreases listed.len(),
{
    if listed.len() == 0 {
        m
    } else {
        let r = insert_visible(m, listed.drop_last(), hidden);
        if hidden.contains(listed.last().0@) {
            r
        } else {
            r.insert(listed.last().0@, listed.last().1)
        }
    }
}

proof fn lemma_key_map_at<I>(s: Seq<(String, I)>, i: int)
    requires
        unique_keys(s),
        0 <= i < s.len(),
    ensures
        key_map(s).dom().contains(s[i].0@),
        key_map(s)[s[i].0@] == s[i].1,
{
    let k = s[i].0@;
    assert(has_key(s, k));
    let j = choose|j: int| 0 <= j < s.len() && s[j].0@ == k;
    if j != i {
        if j < i {
            assert(s[j].0@ != s[i].0@);
        } else {
            assert(s[i].0@ != s[j].0@);
        }
    }
}

/// Two entry lists with unique keys stand for the same map when they have
/// the same keys and agree on each key's value.
proof fn lemma_key_map_equal<I>(s: Seq<(String, I)>, m: Map<Seq<char>, I>)
    requires
        unique_keys(s),
        forall|k: Seq<char>| has_key(s, k) <==> m.dom().contains(k),
        forall|i: int| 0 <= i < s.len() ==> m[#[trigger] s[i].0@] == s[i].1,
    ensures
        key_map(s) == m,
{
    assert forall|k: Seq<char>| #[trigger] key_map(s).dom().contains(k) implies key_map(s)[k]
        == m[k] by {
        let i = choose|i: int| 0 <= i < s.len() && s[i].0@ == k;
        lemma_key_map_at(s, i);
    }
    assert(key_map(s).dom() =~= m.dom());
    assert(key_map(s) =~= m);
}


proof fn lemma_text_set_push(s: Seq<String>, x: String)
    ensures
        text_set(s.push(x)) == text_set(s).insert(x@),
{
    let t = s.push(x);
    assert forall|q: Seq<char>| text_set(t).contains(q) <==> text_set(s).insert(x@).contains(q) by {
        if text_set(t).contains(q) {
            let i = choose|i: int| 0 <= i < t.len() && t[i]@ == q;
            if i < s.len() {
                assert(s[i]@ == q);
            }
        }
        if text_set(s).contains(q) {
            let i = choose|i: int| 0 <= i < s.len() && s[i]@ == q;
            assert(t[i]@ == q);
        }
        if q == x@ {
            assert(t[s.len() as int]@ == q);
        }
    }
    assert(text_set(t) =~= text_set(s).insert(x@));
}

proof fn lemma_unique_texts_push(s: Seq<String>, x: String)
    requires
        unique_texts(s),
        !text_set(s).contains(x@),
    ensures
        unique_texts(s.push(x)),
{
    let t = s.push(x);
    assert forall|i: int, j: int| 0 <= i < j < t.len() implies t[i]@ != t[j]@ by {
        if j == s.len() {
            assert(t[i] == s[i]);
            if s[i]@ == x@ {
                assert(text_set(s).contains(x@));
            }
        } else {
            assert(s[i]@ != s[j]@);
        }
    }
}

proof fn lemma_unique_texts_prefix(s: Seq<String>, i: int)
    requires
        unique_texts(s),
        0 <= i < s.len(),
    ensures
        !text_set(s.take(i)).contains(s[i]@),
{
    if text_set(s.take(i)).contains(s[i]@) {
        let j = choose|j: int| 0 <= j < s.take(i).len() && s.take(i)[j]@ == s[i]@;
        assert(s[j]@ != s[i]@);
    }
}

proof fn lemma_unique_keys_prefix<I>(s: Seq<(String, I)>, i: int)
    requires
        unique_keys(s),
        0 <= i < s.len(),
    ensures
        !has_key(s.take(i), s[i].0@),
        unique_keys(s.take(i)),
{
    if has_key(s.take(i), s[i].0@) {
        let j = choose|j: int| 0 <= j < s.take(i).len() && s.take(i)[j].0@ == s[i].0@;
        assert(s[j].0@ != s[i].0@);
    }
    assert forall|a: int, b: int| 0 <= a < b < s.take(i).len() implies s.take(i)[a].0@ != s.take(
        i,
    )[b].0@ by {
        assert(s[a].0@ != s[b].0@);
    }
}

/// Appending an entry with a new key adds that key and its value.
proof fn lemma_key_map_push<I>(s: Seq<(String, I)>, e: (String, I))
    requires
        unique_keys(s),
        !has_key(s, e.0@),
    ensures
        unique_keys(s.push(e)),
        key_map(s.push(e)) == key_map(s).insert(e.0@, e.1),
        listed_keys(s.push(e)) == listed_keys(s).insert(e.0@),
{
    let t = s.push(e);
    assert forall|i: int, j: int| 0 <= i < j < t.len() implies t[i].0@ != t[j].0@ by {
        if j == s.len() {
            assert(t[i] == s[i]);
            if s[i].0@ == e.0@ {
                assert(has_key(s, e.0@));
            }
        } else {
            assert(s[i].0@ != s[j].0@);
        }
    }
    let m = key_map(s).insert(e.0@, e.1);
    assert forall|q: Seq<char>| has_key(t, q) <==> m.dom().contains(q) by {
        if has_key(t, q) {
            let i = choose|i: int| 0 <= i < t.len() && t[i].0@ == q;
            if i < s.len() {
                assert(s[i].0@ == q);
                assert(has_key(s, q));
            }
        }
        if has_key(s, q) {
            let i = choose|i: int| 0 <= i < s.len() && s[i].0@ == q;
            assert(t[i].0@ == q);
        }
        if q == e.0@ {
            assert(t[s.len() as int].0@ == q);
        }
    }
    assert forall|i: int| 0 <= i < t.len() implies m[#[trigger] t[i].0@] == t[i].1 by {
        if i < s.len() {
            lemma_key_map_at(s, i);
            assert(t[i] == s[i]);
            if s[i].0@ == e.0@ {
                assert(has_key(s, e.0@));
            }
        }
    }
    lemma_key_map_equal(t, m);
    assert(listed_keys(t) =~= listed_keys(s).insert(e.0@));
}


/// A GID whose removal has begun stays pending, and its rows stay hidden,
/// for as long as the engine still lists it.
pub proof fn law_removal_stays_hidden<I>(pending: Set<Seq<char>>, gid: Seq<char>, listed: Seq<(String, I)>)
    ensures
        pending.insert(gid).intersect(listed_keys(listed)).contains(gid) == has_key(listed, gid),
{
}

/// After recording `id` under `gid`, looking `gid` up gives `id`.
pub proof fn law_lookup_after_record<I>(ids: Map<Seq<char>, I>, gid: Seq<char>, id: I)
    ensures
        ids.insert(gid, id).dom().contains(gid),
        ids.insert(gid, id)[gid] == id,
{
}

/// After a reconcile, every shown download can be looked up by its GID,
/// and gives the id it was listed with (its last listing, if listed more
/// than once).
pub proof fn law_shown_downloads_resolve<I>(
    m: Map<Seq<char>, I>,
    listed: Seq<(String, I)>,
    hidden: Set<Seq<char>>,
    k: int,
)
    requires
        0 <= k < listed.len(),
        !hidden.contains(listed[k].0@),
        forall|j: int| k < j < listed.len() ==> listed[j].0@ != listed[k].0@,
    ensures
        insert_visible(m, listed, hidden).dom().contains(listed[k].0@),
        insert_visible(m, listed, hidden)[listed[k].0@] == listed[k].1,
    decreases listed.len(),
{
    if k < listed.len() - 1 {
        let l = listed.drop_last();
        assert forall|j: int| k < j < l.len() implies l[j].0@ != l[k].0@ by {
            assert(l[j] == listed[j]);
        }
        law_shown_downloads_resolve(m, l, hidden, k);
        assert(listed.last().0@ != listed[k].0@);
    }
}

/// After a reconcile, the registry knows only GIDs that the engine
/// listed.
pub proof fn law_only_listed_downloads_known<I>(
    m: Map<Seq<char>, I>,
    listed: Seq<(String, I)>,
    hidden: Set<Seq<char>>,
)
    ensures
        insert_visible(m.restrict(listed_keys(listed)), listed, hidden).dom().subset_of(
            listed_keys(listed),
        ),
{
    lemma_insert_visible_within(m.restrict(listed_keys(listed)), listed, hidden, listed_keys(listed));
}

proof fn lemma_insert_visible_within<I>(
    m: Map<Seq<char>, I>,
    listed: Seq<(String, I)>,
    hidden: Set<Seq<char>>,
    keys: Set<Seq<char>>,
)
    requires
        m.dom().subset_of(keys),
        listed_keys(listed).subset_of(keys),
    ensures
        insert_visible(m, listed, hidden).dom().subset_of(keys),
    decreases listed.len(),
{
    if listed.len() > 0 {
        let l = listed.drop_last();
        assert forall|q: Seq<char>| listed_keys(l).contains(q) implies keys.contains(q) by {
            let i = choose|i: int| 0 <= i < l.len() && l[i].0@ == q;
            assert(listed[i].0@ == q);
            assert(listed_keys(listed).contains(q));
        }
        lemma_insert_visible_within(m, l, hidden, keys);
        assert(listed_keys(listed).contains(listed.last().0@)) by {
            assert(listed[listed.len() - 1].0@ == listed.last().0@);
        }
    }
}

/// The error for a GID that the engine does not know.
#[derive(Clone, Debug)]
pub struct UnknownDownload {
    pub id: String,
}

impl UnknownDownload {
    /// The message shown for this error.
    pub fn message(&self) -> (m: String)
        ensures
            m@ == "unknown download id: "@ + self.id@,
    {
        concat("unknown download id: ", self.id.as_str())
    }
}

/// The GID-to-id table and the set of downloads being removed.
pub struct DownloadRegistry<I> {
    ids: Vec<(String, I)>,
    pending_removals: Vec<String>,
}

impl<I: Copy> DownloadRegistry<I> {
    /// The engine id that each known GID stands for.
    pub closed spec fn ids_map(&self) -> Map<Seq<char>, I> {
        key_map(self.ids@)
    }

    /// The GIDs whose removal is still under way.
    pub closed spec fn pending(&self) -> Set<Seq<char>> {
        text_set(self.pending_removals@)
    }

    /// The table holds each GID once, and each pending GID once.
    pub closed spec fn wf(&self) -> bool {
        unique_keys(self.ids@) && unique_texts(self.pending_removals@)
    }

    /// An empty registry.
    pub fn new() -> (r: Self)
        ensures
            r.wf(),
            r.ids_map() == Map::<Seq<char>, I>::empty(),
            r.pending() == Set::<Seq<char>>::empty(),
    {
        let r = DownloadRegistry { ids: Vec::new(), pending_removals: Vec::new() };
        assert(r.ids_map() =~= Map::<Seq<char>, I>::empty());
        assert(r.pending() =~= Set::<Seq<char>>::empty());
        r
    }

    fn find(&self, gid: &str) -> (r: Option<usize>)
        requires
            self.wf(),
        ensures
            match r {
                Some(k) => k < self.ids@.len() && self.ids@[k as int].0@ == gid@,
                None => !has_key(self.ids@, gid@),
            },
    {
        let mut k: usize = 0;
        while k < self.ids.len()
            invariant
                k <= self.ids@.len(),
                forall|j: int| 0 <= j < k ==> self.ids@[j].0@ != gid@,
            decreases self.ids@.len() - k,
        {
            if str_equal(self.ids[k].0.as_str(), gid) {
                return Some(k);
            }
            k = k + 1;
        }
        None
    }

    /// The engine id of `gid`, or the error that names it.
    pub fn lookup(&self, gid: &str) -> (r: Result<I, UnknownDownload>)
        requires
            self.wf(),
        ensures
            match r {
                Ok(id) => self.ids_map().dom().contains(gid@) && self.ids_map()[gid@] == id,
                Err(e) => !self.ids_map().dom().contains(gid@) && e.id@ == gid@,
            },
    {
        match self.find(gid) {
            Some(k) => {
                proof {
                    lemma_key_map_at(self.ids@, k as int);
                }
                Ok(self.ids[k].1)
            },
            None => {
                let id = crate::text::owned(gid);
                Err(UnknownDownload { id })
            },
        }
    }

    /// Remembers that `gid` stands for `id`.
    pub fn record(&mut self, gid: String, id: I)
        requires
            old(self).wf(),
        ensures
            final(self).wf(),
            final(self).ids_map() == old(self).ids_map().insert(gid@, id),
            final(self).pending() == old(self).pending(),
    {
        let ghost old_ids = self.ids@;
        let ghost key = gid@;
        match self.find(gid.as_str()) {
            Some(k) => {
                self.ids.set(k, (gid, id));
                proof {
                    let s = self.ids@;
                    assert(s == old_ids.update(k as int, (s[k as int].0, id)));
                    assert forall|i: int, j: int| 0 <= i < j < s.len() implies s[i].0@
                        != s[j].0@ by {
                        assert(old_ids[i].0@ != old_ids[j].0@);
                        if i == k {
                            assert(s[i].0@ == old_ids[i].0@);
                        }
                        if j == k {
                            assert(s[j].0@ == old_ids[j].0@);
                        }
                    }
                    let m = key_map(old_ids).insert(key, id);
                    assert forall|q: Seq<char>| has_key(s, q) <==> m.dom().contains(q) by {
                        if has_key(s, q) {
                            let i = choose|i: int| 0 <= i < s.len() && s[i].0@ == q;
                            if i != k {
                                assert(old_ids[i].0@ == q);
                                assert(has_key(old_ids, q));
                            }
                        }
                        if m.dom().contains(q) && q != key {
                            let i = choose|i: int| 0 <= i < old_ids.len() && old_ids[i].0@ == q;
                            assert(s[i].0@ == q);
                        }
                        if q == key {
                            assert(s[k as int].0@ == q);
                        }
                    }
                    assert forall|i: int| 0 <= i < s.len() implies m[#[trigger] s[i].0@]
                        == s[i].1 by {
                        if i != k {
                            lemma_key_map_at(old_ids, i);
                            assert(old_ids[i].0@ != old_ids[k as int].0@ || i == k);
                        }
                    }
                    lemma_key_map_equal(s, m);
                }
            },
            None => {
                proof {
                    lemma_key_map_push(old_ids, (gid, id));
                }
                self.ids.push((gid, id));
            },
        }
    }

    fn is_pending(&self, gid: &str) -> (r: bool)
        ensures
            r == self.pending().contains(gid@),
    {
        let mut k: usize = 0;
        while k < self.pending_removals.len()
            invariant
                k <= self.pending_removals@.len(),
                forall|j: int| 0 <= j < k ==> self.pending_removals@[j]@ != gid@,
            decreases self.pending_removals@.len() - k,
        {
            if str_equal(self.pending_removals[k].as_str(), gid) {
                assert(self.pending().contains(gid@));
                return true;
            }
            k = k + 1;
        }
        false
    }

    /// Starts the removal of `gid`: its engine id, and from now on its row
    /// stays hidden until the engine stops listing it. An unknown GID
    /// changes nothing.
    pub fn begin_removal(&mut self, gid: &str) -> (r: Result<I, UnknownDownload>)
        requires
            old(self).wf(),
        ensures
            final(self).wf(),
            final(self).ids_map() == old(self).ids_map(),
            match r {
                Ok(id) => {
                    &&& old(self).ids_map().dom().contains(gid@)
                    &&& old(self).ids_map()[gid@] == id
                    &&& final(self).pending() == old(self).pending().insert(gid@)
                },
                Err(e) => {
                    &&& !old(self).ids_map().dom().contains(gid@)
                    &&& e.id@ == gid@
                    &&& final(self).pending() == old(self).pending()
                },
            },
    {
        let found = self.lookup(gid);
        match found {
            Ok(id) => {
                if !self.is_pending(gid) {
                    let ghost before = self.pending_removals@;
                    self.pending_removals.push(crate::text::owned(gid));
                    proof {
                        let s = self.pending_removals@;
                        assert(s == before.push(s[s.len() - 1]));
                        assert forall|i: int, j: int| 0 <= i < j < s.len() implies s[i]@
                            != s[j]@ by {
                            if j == s.len() - 1 {
                                assert(!text_set(before).contains(gid@));
                                assert(before[i]@ != gid@);
                            } else {
                                assert(before[i]@ != before[j]@);
                            }
                        }
                        assert forall|q: Seq<char>| text_set(s).contains(q) <==> text_set(
                            before,
                        ).insert(gid@).contains(q) by {
                            if text_set(s).contains(q) {
                                let i = choose|i: int| 0 <= i < s.len() && s[i]@ == q;
                                if i < before.len() {
                                    assert(before[i]@ == q);
                                }
                            }
                            if text_set(before).contains(q) {
                                let i = choose|i: int| 0 <= i < before.len() && before[i]@ == q;
                                assert(s[i]@ == q);
                            }
                            if q == gid@ {
                                assert(s[s.len() - 1]@ == q);
                            }
                        }
                        assert(text_set(s) =~= text_set(before).insert(gid@));
                    }
                } else {
                    assert(self.pending() =~= self.pending().insert(gid@));
                }
                Ok(id)
            },
            Err(e) => Err(e),
        }
    }

    /// Brings the table in line with the downloads the engine lists now:
    /// removals that the engine has finished are forgotten, GIDs the engine
    /// no longer lists are dropped, and every listed download that is not
    /// being removed is recorded. Returns, for each listed download, whether
    /// its row is shown.
    pub fn reconcile(&mut self, listed: &Vec<(String, I)>) -> (visible: Vec<bool>)
        requires
            old(self).wf(),
        ensures
            final(self).wf(),
            final(self).pending() == old(self).pending().intersect(listed_keys(listed@)),
            final(self).ids_map() == insert_visible(
                old(self).ids_map().restrict(listed_keys(listed@)),
                listed@,
                final(self).pending(),
            ),
            visible@.len() == listed@.len(),
            forall|k: int|
                0 <= k < listed@.len() ==> #[trigger] visible@[k] == !final(self).pending().contains(
                    listed@[k].0@,
                ),
    {
        let ghost old_pending = self.pending();
        let ghost old_map = self.ids_map();
        let ghost active = listed_keys(listed@);
        // removals that are still listed stay pending
        let mut pending: Vec<String> = Vec::new();
        let mut i: usize = 0;
        proof {
            assert(self.pending_removals@.take(0) =~= Seq::<String>::empty());
            assert(text_set(pending@) =~= text_set(self.pending_removals@.take(0)).intersect(
                active,
            ));
        }
        while i < self.pending_removals.len()
            invariant
                i <= self.pending_removals@.len(),
                unique_texts(self.pending_removals@),
                active == listed_keys(listed@),
                unique_texts(pending@),
                text_set(pending@) == text_set(self.pending_removals@.take(i as int)).intersect(
                    active,
                ),
            decreases self.pending_removals@.len() - i,
        {
            let g = self.pending_removals[i].clone();
            let ghost pr = self.pending_removals@;
            proof {
                assert(pr.take(i + 1) =~= pr.take(i as int).push(pr[i as int]));
                lemma_text_set_push(pr.take(i as int), pr[i as int]);
                lemma_unique_texts_prefix(pr, i as int);
            }
            if Self::listed_contains(listed, g.as_str()) {
                let ghost before = pending@;
                proof {
                    assert(!text_set(before).contains(g@));
                    lemma_unique_texts_push(before, g);
                    lemma_text_set_push(before, g);
                }
                pending.push(g);
                proof {
                    assert(text_set(pending@) =~= text_set(pr.take(i + 1)).intersect(active));
                }
            } else {
                proof {
                    assert(text_set(pending@) =~= text_set(pr.take(i + 1)).intersect(active));
                }
            }
            i = i + 1;
        }
        proof {
            assert(self.pending_removals@.take(i as int) =~= self.pending_removals@);
            assert(text_set(pending@) =~= old_pending.intersect(active));
        }
        // GIDs that are still listed keep their ids
        let mut ids: Vec<(String, I)> = Vec::new();
        let mut i: usize = 0;
        proof {
            assert(self.ids@.take(0) =~= Seq::<(String, I)>::empty());
            assert(key_map(ids@) =~= key_map(self.ids@.take(0)).restrict(active));
            assert(listed_keys(ids@) =~= listed_keys(self.ids@.take(0)).intersect(active));
        }
        while i < self.ids.len()
            invariant
                i <= self.ids@.len(),
                unique_keys(self.ids@),
                old_map == key_map(self.ids@),
                active == listed_keys(listed@),
                unique_keys(ids@),
                key_map(ids@) == key_map(self.ids@.take(i as int)).restrict(active),
                listed_keys(ids@) == listed_keys(self.ids@.take(i as int)).intersect(active),
            decreases self.ids@.len() - i,
        {
            let g = self.ids[i].0.clone();
            let id = self.ids[i].1;
            let ghost all = self.ids@;
            let ghost e = all[i as int];
            proof {
                assert(all.take(i + 1) =~= all.take(i as int).push(e));
                lemma_unique_keys_prefix(all, i as int);
                lemma_key_map_push(all.take(i as int), e);
            }
            if Self::listed_contains(listed, g.as_str()) {
                let ghost before = ids@;
                proof {
                    assert(!has_key(before, e.0@)) by {
                        if has_key(before, e.0@) {
                            assert(listed_keys(before).contains(e.0@));
                        }
                    }
                    lemma_key_map_push(before, (g, id));
                }
                ids.push((g, id));
                proof {
                    assert(key_map(ids@) =~= key_map(all.take(i + 1)).restrict(active));
                    assert(listed_keys(ids@) =~= listed_keys(all.take(i + 1)).intersect(active));
                }
            } else {
                proof {
                    assert(key_map(ids@) =~= key_map(all.take(i + 1)).restrict(active));
                    assert(listed_keys(ids@) =~= listed_keys(all.take(i + 1)).intersect(active));
                }
            }
            i = i + 1;
        }
        proof {
            assert(self.ids@.take(i as int) =~= self.ids@);
        }
        self.pending_removals = pending;
        self.ids = ids;
        // listed downloads that are not being removed are recorded and shown
        let mut visible: Vec<bool> = Vec::new();
        let mut k: usize = 0;
        while k < listed.len()
            invariant
                k <= listed@.len(),
                self.wf(),
                self.pending() == old_pending.intersect(active),
                active == listed_keys(listed@),
                self.ids_map() == insert_visible(
                    old_map.restrict(active),
                    listed@.take(k as int),
                    self.pending(),
                ),
                visible@.len() == k,
                forall|j: int|
                    0 <= j < k ==> #[trigger] visible@[j] == !self.pending().contains(
                        listed@[j].0@,
                    ),
            decreases listed@.len() - k,
        {
            let g = listed[k].0.as_str();
            let show = !self.is_pending(g);
            proof {
                assert(listed@.take(k + 1).drop_last() =~= listed@.take(k as int));
                assert(listed@.take(k + 1).last() == listed@[k as int]);
            }
            if show {
                self.record(listed[k].0.clone(), listed[k].1);
            }
            visible.push(show);
            k = k + 1;
        }
        assert(listed@.take(listed@.len() as int) =~= listed@);
        visible
    }

    fn listed_contains(listed: &Vec<(String, I)>, gid: &str) -> (r: bool)
        ensures
            r == listed_keys(listed@).contains(gid@),
    {
        let mut k: usize = 0;
        while k < listed.len()
            invariant
                k <= listed@.len(),
                forall|j: int| 0 <= j < k ==> listed@[j].0@ != gid@,
            decreases listed@.len() - k,
        {
            if str_equal(listed[k].0.as_str(), gid) {
                assert(has_key(listed@, gid@));
                return true;
            }
            k = k + 1;
        }
        false
    }
}

} // verus!
