//! The order pane lists are shown in: texts sorted by code point, the
//! order `String` sorts in (UTF-8 byte order agrees with code-point
//! order), each text once.
use crate::text::str_eq;
use vstd::prelude::*;

verus! {

/// `a` and `b` agree on their first `i` characters.
pub open spec fn agree_upto(a: Seq<char>, b: Seq<char>, i: int) -> bool {
    0 <= i <= a.len() && i <= b.len() && forall|j: int| 0 <= j < i ==> a[j] == b[j]
}

/// `a` comes strictly before `b`: after a common prefix either `a` ends
/// while `b` goes on, or `a` has the smaller character.
pub open spec fn lex_lt(a: Seq<char>, b: Seq<char>) -> bool {
    exists|i: int|
        #[trigger] agree_upto(a, b, i) && ((i == a.len() && i < b.len()) || (i < a.len() && i
            < b.len() && (a[i] as int) < (b[i] as int)))
}

/// Every text comes strictly before the ones after it.
pub open spec fn strictly_sorted(s: Seq<Seq<char>>) -> bool {
    forall|i: int, j: int| 0 <= i < j < s.len() ==> lex_lt(#[trigger] s[i], #[trigger] s[j])
}

/// The texts of a list of strings.
pub open spec fn texts(v: Seq<String>) -> Seq<Seq<char>> {
    v.map_values(|s: String| s@)
}

/// The texts of `s`, each once, in order (for a finite `s`).
pub open spec fn sorted_texts(s: Set<Seq<char>>) -> Seq<Seq<char>> {
    choose|r: Seq<Seq<char>>| strictly_sorted(r) && forall|k: Seq<char>| #[trigger] r.contains(k) == s.contains(k)
}

/// No text comes before itself.
pub proof fn lemma_lex_irreflexive(a: Seq<char>)
    ensures
        !lex_lt(a, a),
{
}

/// The order is transitive.
pub proof fn lemma_lex_transitive(a: Seq<char>, b: Seq<char>, c: Seq<char>)
    requires
        lex_lt(a, b),
        lex_lt(b, c),
    ensures
        lex_lt(a, c),
{
    let i = choose|i: int|
        #[trigger] agree_upto(a, b, i) && ((i == a.len() && i < b.len()) || (i < a.len() && i
            < b.len() && (a[i] as int) < (b[i] as int)));
    let j = choose|j: int|
        #[trigger] agree_upto(b, c, j) && ((j == b.len() && j < c.len()) || (j < b.len() && j
            < c.len() && (b[j] as int) < (c[j] as int)));
    if i <= j {
        assert(agree_upto(a, c, i));
        if i < j {
            assert(b[i] == c[i]);
        }
    } else {
        assert(agree_upto(a, c, j));
        assert(a[j] == b[j]);
    }
}

/// Two different texts are ordered one way or the other.
pub proof fn lemma_lex_total(a: Seq<char>, b: Seq<char>)
    requires
        a != b,
    ensures
        lex_lt(a, b) || lex_lt(b, a),
{
    lemma_lex_total_from(a, b, 0);
}

proof fn lemma_lex_total_from(a: Seq<char>, b: Seq<char>, i: int)
    requires
        a != b,
        agree_upto(a, b, i),
    ensures
        lex_lt(a, b) || lex_lt(b, a),
    decreases a.len() - i,
{
    if i == a.len() && i == b.len() {
        assert(a =~= b);
    } else if i == a.len() || i == b.len() {
        assert(agree_upto(b, a, i));
    } else if a[i] != b[i] {
        assert(agree_upto(b, a, i));
        assert((a[i] as int) != (b[i] as int));
    } else {
        assert(agree_upto(a, b, i + 1));
        lemma_lex_total_from(a, b, i + 1);
    }
}

/// A text comes strictly before another.
pub fn str_lt(a: &str, b: &str) -> (r: bool)
    ensures
        r == lex_lt(a@, b@),
{
    let na = a.unicode_len();
    let nb = b.unicode_len();
    let mut i: usize = 0;
    while i < na && i < nb
        invariant
            na == a@.len(),
            nb == b@.len(),
            agree_upto(a@, b@, i as int),
        decreases na - i,
    {
        let ca = a.get_char(i);
        let cb = b.get_char(i);
        if ca != cb {
            let r = (ca as u32) < (cb as u32);
            proof {
                if r {
                    assert(agree_upto(a@, b@, i as int));
                } else {
                    assert((ca as int) != (cb as int));
                    if lex_lt(a@, b@) {
                        let k = choose|k: int|
                            #[trigger] agree_upto(a@, b@, k) && ((k == a@.len() && k < b@.len()) || (k
                                < a@.len() && k < b@.len() && (a@[k] as int) < (b@[k] as int)));
                        if k > i {
                            assert(a@[i as int] == b@[i as int]);
                        }
                    }
                }
            }
            return r;
        }
        i = i + 1;
        assert(agree_upto(a@, b@, i as int));
    }
    let r = i == na && i < nb;
    proof {
        if r {
            assert(agree_upto(a@, b@, i as int));
        } else if lex_lt(a@, b@) {
            let k = choose|k: int|
                #[trigger] agree_upto(a@, b@, k) && ((k == a@.len() && k < b@.len()) || (k < a@.len()
                    && k < b@.len() && (a@[k] as int) < (b@[k] as int)));
        }
    }
    r
}

/// Two strictly sorted lists of the same texts are the same list.
pub proof fn lemma_sorted_unique(r1: Seq<Seq<char>>, r2: Seq<Seq<char>>)
    requires
        strictly_sorted(r1),
        strictly_sorted(r2),
        forall|k: Seq<char>| #[trigger] r1.contains(k) == r2.contains(k),
    ensures
        r1 == r2,
    decreases r1.len(),
{
    if r1.len() == 0 {
        if r2.len() > 0 {
            assert(r2.contains(r2[0]));
            assert(r1.contains(r2[0]));
        }
        assert(r1 =~= r2);
    } else {
        assert(r1.contains(r1[0]));
        assert(r2.contains(r1[0]));
        assert(r2.len() > 0);
        assert(r2.contains(r2[0]));
        assert(r1.contains(r2[0]));
        let j = choose|j: int| 0 <= j < r2.len() && r2[j] == r1[0];
        let i = choose|i: int| 0 <= i < r1.len() && r1[i] == r2[0];
        if j > 0 && i > 0 {
            assert(lex_lt(r2[0], r2[j]));
            assert(lex_lt(r1[0], r1[i]));
            lemma_lex_transitive(r2[0], r1[0], r2[0]);
            lemma_lex_irreflexive(r2[0]);
        } else if j > 0 {
            assert(lex_lt(r2[0], r2[j]));
            lemma_lex_irreflexive(r2[0]);
        }
        assert(r1[0] == r2[0]);
        let t1 = r1.drop_first();
        let t2 = r2.drop_first();
        assert forall|k: Seq<char>| #[trigger] t1.contains(k) == t2.contains(k) by {
            if t1.contains(k) {
                let a = choose|a: int| 0 <= a < t1.len() && t1[a] == k;
                assert(r1[a + 1] == k);
                assert(lex_lt(r1[0], r1[a + 1]));
                lemma_lex_irreflexive(k);
                assert(r1.contains(k));
                let b = choose|b: int| 0 <= b < r2.len() && r2[b] == k;
                assert(b != 0);
                assert(t2[b - 1] == k);
            }
            if t2.contains(k) {
                let a = choose|a: int| 0 <= a < t2.len() && t2[a] == k;
                assert(r2[a + 1] == k);
                assert(lex_lt(r2[0], r2[a + 1]));
                lemma_lex_irreflexive(k);
                assert(r2.contains(k));
                assert(r1.contains(k));
                let b = choose|b: int| 0 <= b < r1.len() && r1[b] == k;
                assert(b != 0);
                assert(t1[b - 1] == k);
            }
        }
        assert(strictly_sorted(t1)) by {
            assert forall|x: int, y: int| 0 <= x < y < t1.len() implies lex_lt(
                #[trigger] t1[x],
                #[trigger] t1[y],
            ) by {
                assert(t1[x] == r1[x + 1] && t1[y] == r1[y + 1]);
            }
        }
        assert(strictly_sorted(t2)) by {
            assert forall|x: int, y: int| 0 <= x < y < t2.len() implies lex_lt(
                #[trigger] t2[x],
                #[trigger] t2[y],
            ) by {
                assert(t2[x] == r2[x + 1] && t2[y] == r2[y + 1]);
            }
        }
        lemma_sorted_unique(t1, t2);
        assert(r1 =~= r2) by {
            assert forall|x: int| 0 <= x < r1.len() implies r1[x] == r2[x] by {
                if x > 0 {
                    assert(r1[x] == t1[x - 1] && r2[x] == t2[x - 1]);
                }
            }
        }
    }
}

/// A strictly sorted list is the sorted list of its own texts.
pub proof fn lemma_is_sorted_texts(r: Seq<Seq<char>>, s: Set<Seq<char>>)
    requires
        strictly_sorted(r),
        forall|k: Seq<char>| #[trigger] r.contains(k) == s.contains(k),
    ensures
        sorted_texts(s) == r,
{
    let c = sorted_texts(s);
    assert(strictly_sorted(c) && forall|k: Seq<char>| #[trigger] c.contains(k) == s.contains(k));
    lemma_sorted_unique(c, r);
}

/// Insert `p` into the strictly sorted `v` unless it is already there.
pub fn insert_sorted(v: &mut Vec<String>, p: &str)
    requires
        strictly_sorted(texts(old(v)@)),
    ensures
        strictly_sorted(texts(final(v)@)),
        forall|k: Seq<char>|
            #[trigger] texts(final(v)@).contains(k) == (texts(old(v)@).contains(k) || k == p@),
{
    let ghost t0 = texts(v@);
    let mut i: usize = 0;
    while i < v.len() && str_lt(v[i].as_str(), p)
        invariant
            i <= v@.len(),
            v@ == old(v)@,
            t0 == texts(v@),
            forall|j: int| 0 <= j < i ==> lex_lt(#[trigger] t0[j], p@),
        decreases v@.len() - i,
    {
        assert(t0[i as int] == v@[i as int]@);
        i = i + 1;
    }
    if i < v.len() && str_eq(v[i].as_str(), p) {
        proof {
            assert(t0[i as int] == p@);
            assert forall|k: Seq<char>| #[trigger] t0.contains(k) == (t0.contains(k) || k == p@) by {
                if k == p@ {
                    assert(t0[i as int] == k);
                }
            }
        }
        return;
    }
    proof {
        if i < t0.len() {
            assert(t0[i as int] == v@[i as int]@);
            lemma_lex_total(t0[i as int], p@);
        }
    }
    v.insert(i, p.to_string());
    proof {
        let t1 = texts(v@);
        assert(t1 =~= t0.insert(i as int, p@));
        t0.insert_ensures(i as int, p@);
        assert forall|x: int, y: int| 0 <= x < y < t1.len() implies lex_lt(
            #[trigger] t1[x],
            #[trigger] t1[y],
        ) by {
            if y < i {
                assert(t1[x] == t0[x] && t1[y] == t0[y]);
            } else if y == i {
                assert(t1[x] == t0[x]);
            } else if x < i {
                assert(t1[x] == t0[x] && t1[y] == t0[y - 1]);
                assert(lex_lt(t0[x], p@));
                lemma_lex_transitive(t0[x], p@, t0[i as int]);
                if y - 1 > i {
                    lemma_lex_transitive(t0[x], t0[i as int], t0[y - 1]);
                }
            } else if x == i {
                assert(t1[y] == t0[y - 1]);
                if y - 1 > i {
                    lemma_lex_transitive(p@, t0[i as int], t0[y - 1]);
                }
            } else {
                assert(t1[x] == t0[x - 1] && t1[y] == t0[y - 1]);
            }
        }
        assert forall|k: Seq<char>| #[trigger] t1.contains(k) == (t0.contains(k) || k == p@) by {
            if t1.contains(k) {
                let a = choose|a: int| 0 <= a < t1.len() && t1[a] == k;
                if a < i {
                    assert(t0[a] == k);
                } else if a > i {
                    assert(t0[a - 1] == k);
                }
            }
            if t0.contains(k) {
                let a = choose|a: int| 0 <= a < t0.len() && t0[a] == k;
                if a < i {
                    assert(t1[a] == k);
                } else {
                    assert(t1[a + 1] == k);
                }
            }
            if k == p@ {
                assert(t1[i as int] == k);
            }
        }
    }
}

} // verus!
