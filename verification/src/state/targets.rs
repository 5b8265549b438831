//! Reply routing memory: which pane a bot message (chat, message id)
//! speaks for, so a reply to it reaches that pane. Least-recently used
//! entries fall out past a fixed capacity; a refreshed entry moves to
//! the back.
use crate::text::lemma_filter_all;
use vstd::prelude::*;

verus! {

/// Reply targets remembered at most.
pub const TARGETS_CAP: usize = 512;

/// Only messages posted in the forum chat feed the topic-reset copy
/// list: DM cards (same panes, another chat) must never enter it.
pub fn should_record_msg(forum: Option<i64>, chat: i64) -> (r: bool)
    ensures
        r == (forum == Some(chat)),
{
    match forum {
        Some(f) => f == chat,
        None => false,
    }
}

/// Message address: (chat id, message id).
pub type MsgKey = (i64, i64);

/// Keys of a route list, oldest first.
pub open spec fn keys_of(s: Seq<(MsgKey, String)>) -> Seq<MsgKey> {
    s.map_values(|e: (MsgKey, String)| e.0)
}

/// The routes a list stands for.
pub open spec fn routes_of(s: Seq<(MsgKey, String)>) -> Map<MsgKey, Seq<char>> {
    Map::new(
        |k: MsgKey| keys_of(s).contains(k),
        |k: MsgKey| s[keys_of(s).index_of(k)].1@,
    )
}

/// Everything but `k`, order kept.
pub open spec fn without(order: Seq<MsgKey>, k: MsgKey) -> Seq<MsgKey> {
    order.filter(not_key(k))
}

/// Predicate "is not `k`".
pub open spec fn not_key(k: MsgKey) -> spec_fn(MsgKey) -> bool {
    |x: MsgKey| x != k
}

proof fn lemma_remove_is_without(s: Seq<MsgKey>, i: int)
    requires
        s.no_duplicates(),
        0 <= i < s.len(),
    ensures
        s.remove(i) == without(s, s[i]),
    decreases s.len(),
{
    let k = s[i];
    let p = not_key(k);
    reveal(Seq::filter);
    if i == s.len() - 1 {
        assert(s.remove(i) =~= s.drop_last());
        lemma_filter_all(s.drop_last(), p);
        assert(s.filter(p) == s.drop_last().filter(p));
    } else {
        let t = s.drop_last();
        assert(t.no_duplicates());
        lemma_remove_is_without(t, i);
        assert(t[i] == k);
        assert(s.remove(i) =~= t.remove(i).push(s.last()));
        assert(s.last() != k);
        assert(s.filter(p) == t.filter(p).push(s.last()));
    }
}

proof fn lemma_without_absent(s: Seq<MsgKey>, k: MsgKey)
    requires
        !s.contains(k),
    ensures
        without(s, k) == s,
{
    lemma_filter_all(s, not_key(k));
}

proof fn lemma_routes_at(s: Seq<(MsgKey, String)>, i: int)
    requires
        keys_of(s).no_duplicates(),
        0 <= i < s.len(),
    ensures
        routes_of(s).contains_key(s[i].0),
        routes_of(s)[s[i].0] == s[i].1@,
{
    let ks = keys_of(s);
    assert(ks[i] == s[i].0);
    assert(ks.contains(s[i].0));
    let j = ks.index_of(s[i].0);
    assert(ks[j] == s[i].0);
}

proof fn lemma_routes_push(s: Seq<(MsgKey, String)>, e: (MsgKey, String))
    requires
        keys_of(s).no_duplicates(),
        !keys_of(s).contains(e.0),
    ensures
        keys_of(s.push(e)) == keys_of(s).push(e.0),
        keys_of(s.push(e)).no_duplicates(),
        routes_of(s.push(e)) == routes_of(s).insert(e.0, e.1@),
{
    let t = s.push(e);
    assert(keys_of(t) =~= keys_of(s).push(e.0));
    assert forall|k: MsgKey| #[trigger]
        routes_of(t).contains_key(k) implies routes_of(t)[k] == routes_of(s).insert(e.0, e.1@)[k] by {
        let j = choose|j: int| 0 <= j < keys_of(t).len() && keys_of(t)[j] == k;
        lemma_routes_at(t, j);
        if j < s.len() {
            assert(t[j] == s[j]);
            lemma_routes_at(s, j);
        }
    }
    assert forall|k: MsgKey| #[trigger] keys_of(t).contains(k) == (keys_of(s).contains(k) || k == e.0) by {
        if keys_of(s).contains(k) {
            let j = choose|j: int| 0 <= j < keys_of(s).len() && keys_of(s)[j] == k;
            assert(keys_of(t)[j] == k);
        }
        if k == e.0 {
            assert(keys_of(t)[s.len() as int] == k);
        }
    }
    assert(routes_of(t) =~= routes_of(s).insert(e.0, e.1@));
}

proof fn lemma_routes_remove(s: Seq<(MsgKey, String)>, i: int)
    requires
        keys_of(s).no_duplicates(),
        0 <= i < s.len(),
    ensures
        keys_of(s.remove(i)) == keys_of(s).remove(i),
        keys_of(s.remove(i)) == without(keys_of(s), s[i].0),
        keys_of(s.remove(i)).no_duplicates(),
        routes_of(s.remove(i)) == routes_of(s).remove(s[i].0),
{
    let t = s.remove(i);
    let k0 = s[i].0;
    assert(keys_of(t) =~= keys_of(s).remove(i));
    assert(keys_of(s)[i] == k0);
    lemma_remove_is_without(keys_of(s), i);
    assert(keys_of(t).no_duplicates()) by {
        assert forall|a: int, b: int|
            0 <= a < keys_of(t).len() && 0 <= b < keys_of(t).len() && a != b implies keys_of(t)[a]
            != keys_of(t)[b] by {
            let sa = if a < i {
                a
            } else {
                a + 1
            };
            let sb = if b < i {
                b
            } else {
                b + 1
            };
            assert(keys_of(t)[a] == keys_of(s)[sa]);
            assert(keys_of(t)[b] == keys_of(s)[sb]);
        }
    }
    assert forall|k: MsgKey| #[trigger] keys_of(t).contains(k) == (keys_of(s).contains(k) && k != k0) by {
        if keys_of(s).contains(k) && k != k0 {
            let j = choose|j: int| 0 <= j < keys_of(s).len() && keys_of(s)[j] == k;
            if j < i {
                assert(keys_of(t)[j] == k);
            } else {
                assert(keys_of(t)[j - 1] == k);
            }
        }
        if keys_of(t).contains(k) {
            let j = choose|j: int| 0 <= j < keys_of(t).len() && keys_of(t)[j] == k;
            let sj = if j < i {
                j
            } else {
                j + 1
            };
            assert(keys_of(t)[j] == keys_of(s)[sj]);
        }
    }
    assert forall|k: MsgKey| #[trigger]
        routes_of(t).contains_key(k) implies routes_of(t)[k] == routes_of(s)[k] by {
        let j = choose|j: int| 0 <= j < keys_of(t).len() && keys_of(t)[j] == k;
        let sj = if j < i {
            j
        } else {
            j + 1
        };
        assert(t[j] == s[sj]);
        lemma_routes_at(t, j);
        lemma_routes_at(s, sj);
    }
    assert(routes_of(t) =~= routes_of(s).remove(k0));
}

/// Reply targets, oldest first, each address once, never more than
/// [`TARGETS_CAP`].
pub struct ReplyTargets {
    entries: Vec<(MsgKey, String)>,
}

impl View for ReplyTargets {
    type V = Map<MsgKey, Seq<char>>;

    closed spec fn view(&self) -> Map<MsgKey, Seq<char>> {
        routes_of(self.entries@)
    }
}

impl ReplyTargets {
    #[verifier::type_invariant]
    closed spec fn inv(&self) -> bool {
        &&& keys_of(self.entries@).no_duplicates()
        &&& self.entries@.len() <= TARGETS_CAP
    }

    /// Addresses oldest first (eviction order).
    pub closed spec fn order(&self) -> Seq<MsgKey> {
        keys_of(self.entries@)
    }

    /// Routes after remembering `k` → `pane`: a known address keeps its
    /// place in the map, a new one first evicts the oldest at capacity.
    pub open spec fn routes_after(&self, k: MsgKey, pane: Seq<char>) -> Map<MsgKey, Seq<char>> {
        (if self@.contains_key(k) || self.order().len() < TARGETS_CAP {
            self@
        } else {
            self@.remove(self.order()[0])
        }).insert(k, pane)
    }

    /// Eviction order after remembering `k`: `k` moves (or joins) at the
    /// back; at capacity a new address pushes the oldest out.
    pub open spec fn order_after(&self, k: MsgKey) -> Seq<MsgKey> {
        (if self@.contains_key(k) {
            without(self.order(), k)
        } else if self.order().len() < TARGETS_CAP {
            self.order()
        } else {
            self.order().drop_first()
        }).push(k)
    }

    /// No routes.
    pub fn new() -> (t: Self)
        ensures
            t@ == Map::<MsgKey, Seq<char>>::empty(),
            t.order() == Seq::<MsgKey>::empty(),
    {
        let t = ReplyTargets { entries: Vec::new() };
        assert(keys_of(t.entries@) =~= Seq::<MsgKey>::empty());
        assert(t@ =~= Map::<MsgKey, Seq<char>>::empty());
        t
    }

    /// Number of routes.
    pub fn len(&self) -> (n: usize)
        ensures
            n == self.order().len(),
            n <= TARGETS_CAP,
    {
        proof {
            use_type_invariant(self);
        }
        self.entries.len()
    }

    fn find(&self, key: MsgKey) -> (r: Option<usize>)
        ensures
            match r {
                Some(i) => i < self.entries@.len() && self.entries@[i as int].0 == key,
                None => !self.order().contains(key),
            },
    {
        let mut i: usize = 0;
        while i < self.entries.len()
            invariant
                i <= self.entries@.len(),
                forall|j: int| 0 <= j < i ==> (#[trigger] self.entries@[j]).0 != key,
            decreases self.entries@.len() - i,
        {
            if self.entries[i].0.0 == key.0 && self.entries[i].0.1 == key.1 {
                return Some(i);
            }
            i = i + 1;
        }
        proof {
            if self.order().contains(key) {
                let j = choose|j: int| 0 <= j < self.order().len() && self.order()[j] == key;
                assert(self.entries@[j].0 == key);
            }
        }
        None
    }

    /// Pane the message at (`chat`, `msg_id`) speaks for.
    pub fn get(&self, chat: i64, msg_id: i64) -> (r: Option<&String>)
        ensures
            match r {
                Some(p) => self@.contains_key((chat, msg_id)) && p@ == self@[(chat, msg_id)],
                None => !self@.contains_key((chat, msg_id)),
            },
    {
        proof {
            use_type_invariant(self);
        }
        match self.find((chat, msg_id)) {
            Some(i) => {
                proof {
                    let ks = keys_of(self.entries@);
                    assert(ks[i as int] == (chat, msg_id));
                    assert(ks.contains((chat, msg_id)));
                    assert(ks.index_of((chat, msg_id)) == i) by {
                        ks.index_of_first_ensures((chat, msg_id));
                    }
                }
                Some(&self.entries[i].1)
            },
            None => None,
        }
    }

    /// Remember a posted message (`msg_id`, when the send returned one) as
    /// a reply route to `pane`. Returns the id when it is also owed to the
    /// topic store's reset copies: only messages posted in the forum chat
    /// itself.
    pub fn remember(&mut self, forum: Option<i64>, chat: i64, msg_id: Option<i64>, pane: &str) -> (record: Option<i64>)
        ensures
            match msg_id {
                None => record is None && final(self)@ == old(self)@ && final(self).order() == old(
                    self,
                ).order(),
                Some(m) => {
                    &&& record == (if forum == Some(chat) {
                        Some(m)
                    } else {
                        None
                    })
                    &&& final(self)@ == old(self).routes_after((chat, m), pane@)
                    &&& final(self).order() == old(self).order_after((chat, m))
                },
            },
    {
        match msg_id {
            None => None,
            Some(m) => {
                let rec = should_record_msg(forum, chat);
                self.remember_reply(chat, m, pane);
                if rec {
                    Some(m)
                } else {
                    None
                }
            },
        }
    }

    /// Route (`chat`, `msg_id`) to `pane`. A known address is refreshed
    /// (moved to the back, pane replaced); a new one first evicts the
    /// oldest routes down to below capacity.
    pub fn remember_reply(&mut self, chat: i64, msg_id: i64, pane: &str)
        ensures
            final(self)@ == old(self).routes_after((chat, msg_id), pane@),
            final(self).order() == old(self).order_after((chat, msg_id)),
            final(self).order().len() <= TARGETS_CAP,
    {
        proof {
            use_type_invariant(&*self);
        }
        let key: MsgKey = (chat, msg_id);
        let found = self.find(key);
        let mut es: Vec<(MsgKey, String)> = Vec::new();
        std::mem::swap(&mut es, &mut self.entries);
        let ghost s0 = es@;
        proof {
            assert forall|k: MsgKey| #[trigger] routes_of(s0).contains_key(k) == keys_of(s0).contains(k) by {}
        }
        match found {
            Some(i) => {
                proof {
                    lemma_routes_remove(s0, i as int);
                    assert(keys_of(s0)[i as int] == key);
                    assert(keys_of(s0).contains(key));
                }
                es.remove(i);
                let ghost s1 = es@;
                let owned = pane.to_owned();
                proof {
                    assert(!keys_of(s1).contains(key));
                    lemma_routes_push(s1, (key, owned));
                    assert(routes_of(s0).remove(key).insert(key, pane@) =~= routes_of(s0).insert(key, pane@));
                }
                es.push((key, owned));
                proof {
                    assert(es@ == s1.push((key, owned)));
                    assert(routes_of(es@) == routes_of(s0).insert(key, pane@));
                    assert(keys_of(es@) == without(keys_of(s0), key).push(key));
                }
            },
            None => {
                if es.len() >= TARGETS_CAP {
                    proof {
                        assert(keys_of(s0)[0] == s0[0].0);
                        lemma_routes_remove(s0, 0);
                        assert(keys_of(s0).remove(0) =~= keys_of(s0).drop_first());
                    }
                    es.remove(0);
                }
                let ghost s1 = es@;
                proof {
                    if s0.len() >= TARGETS_CAP {
                        assert(!keys_of(s0).remove(0).contains(key)) by {
                            if keys_of(s0).remove(0).contains(key) {
                                let j = choose|j: int| 0 <= j < keys_of(s0).remove(0).len() && keys_of(s0).remove(0)[j] == key;
                                assert(keys_of(s0)[j + 1] == key);
                            }
                        }
                    }
                }
                let owned = pane.to_owned();
                proof {
                    if s0.len() < TARGETS_CAP {
                        assert(s1 == s0);
                    }
                    lemma_routes_push(s1, (key, owned));
                }
                es.push((key, owned));
                proof {
                    assert(es@ == s1.push((key, owned)));
                }
            },
        }
        self.entries = es;
        proof {
            use_type_invariant(&*self);
        }
    }

    /// Forget one route (a retired card).
    pub fn forget_target(&mut self, chat: i64, msg_id: i64)
        ensures
            final(self)@ == old(self)@.remove((chat, msg_id)),
            final(self).order() == without(old(self).order(), (chat, msg_id)),
    {
        proof {
            use_type_invariant(&*self);
        }
        let key: MsgKey = (chat, msg_id);
        match self.find(key) {
            Some(i) => {
                let mut es: Vec<(MsgKey, String)> = Vec::new();
                std::mem::swap(&mut es, &mut self.entries);
                proof {
                    lemma_routes_remove(es@, i as int);
                }
                es.remove(i);
                self.entries = es;
            },
            None => {
                proof {
                    lemma_without_absent(self.order(), key);
                    assert(!self@.contains_key(key));
                    assert(self@.remove(key) =~= self@);
                }
            },
        }
    }
}

/// Remembering routes the address to the pane, and the refreshed (or new)
/// address is the last to be evicted.
pub proof fn law_remember_routes_and_refreshes(t: ReplyTargets, k: MsgKey, pane: Seq<char>)
    ensures
        t.routes_after(k, pane).contains_key(k),
        t.routes_after(k, pane)[k] == pane,
        t.order_after(k).last() == k,
{
}

/// A forgotten address no longer routes, and no other route changes.
pub proof fn law_forget_drops_only_that_route(t: ReplyTargets, k: MsgKey, other: MsgKey)
    requires
        other != k,
    ensures
        !t@.remove(k).contains_key(k),
        t@.remove(k).contains_key(other) == t@.contains_key(other),
        t@.contains_key(other) ==> t@.remove(k)[other] == t@[other],
{
}

} // verus!
