//! Ordering text as `str`'s `Ord` does, and stable sorting by text keys.
use vstd::prelude::*;
use crate::text::chars_of;

verus! {

/// `a` sorts strictly before `b`: character codes compared from the left,
/// a proper prefix first. (UTF-8 keeps the order of character codes, so
/// this is the byte order in which `str` compares.)
pub open spec fn text_lt(a: Seq<char>, b: Seq<char>) -> bool
    decreases a.len(),
{
    if a.len() == 0 {
        b.len() > 0
    } else if b.len() == 0 {
        false
    } else if a[0] != b[0] {
        a[0] < b[0]
    } else {
        text_lt(a.drop_first(), b.drop_first())
    }
}

/// No text sorts before itself.
pub proof fn lemma_text_lt_irreflexive(a: Seq<char>)
    ensures
        !text_lt(a, a),
    decreases a.len(),
{
    if a.len() > 0 {
        lemma_text_lt_irreflexive(a.drop_first());
    }
}

/// Of two different texts, one sorts before the other.
pub proof fn lemma_text_lt_total(a: Seq<char>, b: Seq<char>)
    requires
        a != b,
    ensures
        text_lt(a, b) || text_lt(b, a),
    decreases a.len(),
{
    if a.len() > 0 && b.len() > 0 {
        if a[0] == b[0] {
            if a.drop_first() == b.drop_first() {
                assert(a == seq![a[0]] + a.drop_first());
                assert(b == seq![b[0]] + b.drop_first());
            }
            lemma_text_lt_total(a.drop_first(), b.drop_first());
        }
    } else if a.len() == 0 && b.len() == 0 {
        assert(a == b);
    }
}

/// Sorting before is transitive.
pub proof fn lemma_text_lt_transitive(a: Seq<char>, b: Seq<char>, c: Seq<char>)
    requires
        text_lt(a, b),
        text_lt(b, c),
    ensures
        text_lt(a, c),
    decreases a.len(),
{
    if a.len() > 0 && b.len() > 0 && c.len() > 0 {
        if a[0] == b[0] && b[0] == c[0] {
            lemma_text_lt_transitive(a.drop_first(), b.drop_first(), c.drop_first());
        }
    }
}

/// Sorting before excludes sorting after.
pub proof fn lemma_text_lt_asymmetric(a: Seq<char>, b: Seq<char>)
    requires
        text_lt(a, b),
    ensures
        !text_lt(b, a),
{
    if text_lt(b, a) {
        lemma_text_lt_transitive(a, b, a);
        lemma_text_lt_irreflexive(a);
    }
}

/// Whether `a` sorts strictly before `b`.
pub fn text_less(a: &str, b: &str) -> (r: bool)
    ensures
        r == text_lt(a@, b@),
{
    let x = chars_of(a);
    let y = chars_of(b);
    let mut i: usize = 0;
    assert(x@.skip(0) == x@);
    assert(y@.skip(0) == y@);
    while i < x.len() && i < y.len() && x[i] == y[i]
        invariant
            i <= x@.len(),
            i <= y@.len(),
            text_lt(x@, y@) == text_lt(x@.skip(i as int), y@.skip(i as int)),
        decreases x.len() - i,
    {
        assert(x@.skip(i as int).drop_first() == x@.skip(i + 1));
        assert(y@.skip(i as int).drop_first() == y@.skip(i + 1));
        i = i + 1;
    }
    if i == x.len() {
        i < y.len()
    } else if i == y.len() {
        false
    } else {
        assert(x@.skip(i as int)[0] == x@[i as int]);
        assert(y@.skip(i as int)[0] == y@[i as int]);
        x[i] < y[i]
    }
}

/// Position `a` comes before position `b` when `keys` are sorted stably,
/// ascending or (with `descending`) descending.
pub open spec fn key_before(keys: Seq<Seq<char>>, descending: bool, a: int, b: int) -> bool {
    if keys[a] == keys[b] {
        a < b
    } else if descending {
        text_lt(keys[b], keys[a])
    } else {
        text_lt(keys[a], keys[b])
    }
}

/// `order` lists every position of `keys` once, in the order in which a
/// stable sort by key (ascending, or descending) puts them.
pub open spec fn is_key_order(keys: Seq<Seq<char>>, descending: bool, order: Seq<usize>) -> bool {
    &&& order.len() == keys.len()
    &&& forall|t: int| 0 <= t < order.len() ==> #[trigger] order[t] < keys.len()
    &&& forall|p: int| 0 <= p < keys.len() ==> #[trigger] order.contains(p as usize)
    &&& forall|s: int, t: int|
        0 <= s < t < order.len() ==> key_before(keys, descending, #[trigger] order[s] as int, #[trigger] order[t] as int)
}

/// `key_before` is transitive.
proof fn lemma_key_before_transitive(keys: Seq<Seq<char>>, descending: bool, a: int, b: int, c: int)
    requires
        key_before(keys, descending, a, b),
        key_before(keys, descending, b, c),
    ensures
        key_before(keys, descending, a, c),
{
    if keys[a] == keys[c] {
        if keys[a] != keys[b] {
            if descending {
                lemma_text_lt_asymmetric(keys[b], keys[a]);
            } else {
                lemma_text_lt_asymmetric(keys[a], keys[b]);
            }
        }
    } else if keys[a] != keys[b] && keys[b] != keys[c] {
        if descending {
            lemma_text_lt_transitive(keys[c], keys[b], keys[a]);
        } else {
            lemma_text_lt_transitive(keys[a], keys[b], keys[c]);
        }
    }
}

/// The views of some strings.
pub open spec fn views_of(v: Seq<String>) -> Seq<Seq<char>> {
    v.map_values(|s: String| s@)
}

/// The positions of `keys` in stably sorted order, ascending or descending.
pub fn key_order(keys: &Vec<String>, descending: bool) -> (order: Vec<usize>)
    ensures
        is_key_order(views_of(keys@), descending, order@),
{
    let ghost ks = views_of(keys@);
    let mut order: Vec<usize> = Vec::new();
    let mut p: usize = 0;
    while p < keys.len()
        invariant
            ks == views_of(keys@),
            p <= keys@.len(),
            order@.len() == p,
            forall|t: int| 0 <= t < order@.len() ==> #[trigger] order@[t] < p,
            forall|q: int| 0 <= q < p ==> #[trigger] order@.contains(q as usize),
            forall|s: int, t: int|
                0 <= s < t < order@.len() ==> key_before(ks, descending, #[trigger] order@[s] as int, #[trigger] order@[t] as int),
        decreases keys.len() - p,
    {
        let mut j: usize = 0;
        while j < order.len() && key_before_exec(keys, descending, order[j], p)
            invariant
                ks == views_of(keys@),
                j <= order@.len(),
                forall|t: int| 0 <= t < order@.len() ==> #[trigger] order@[t] < p,
                p < keys@.len(),
                forall|t: int| 0 <= t < j ==> key_before(ks, descending, #[trigger] order@[t] as int, p as int),
            decreases order.len() - j,
        {
            j = j + 1;
        }
        let ghost before = order@;
        proof {
            assert forall|t: int| j <= t < before.len() implies key_before(
                ks,
                descending,
                p as int,
                #[trigger] before[t] as int,
            ) by {
                lemma_key_before_flip(ks, descending, before[j as int] as int, p as int);
                if t > j {
                    lemma_key_before_transitive(ks, descending, p as int, before[j as int] as int, before[t] as int);
                }
            }
        }
        order.insert(j, p);
        proof {
            assert forall|t: int| 0 <= t < order@.len() implies #[trigger] order@[t] < p + 1 by {
                if t < j {
                    assert(order@[t] == before[t]);
                } else if t > j {
                    assert(order@[t] == before[t - 1]);
                }
            }
            assert forall|q: int| 0 <= q < p + 1 implies #[trigger] order@.contains(q as usize) by {
                if q == p {
                    assert(order@[j as int] == p);
                } else {
                    assert(before.contains(q as usize));
                    let t = choose|t: int| 0 <= t < before.len() && before[t] == q as usize;
                    if t < j {
                        assert(order@[t] == before[t]);
                    } else {
                        assert(order@[t + 1] == before[t]);
                    }
                }
            }
            assert forall|s: int, t: int| 0 <= s < t < order@.len() implies key_before(
                ks,
                descending,
                #[trigger] order@[s] as int,
                #[trigger] order@[t] as int,
            ) by {
                let os = if s < j { s } else { s - 1 };
                let ot = if t < j { t } else { t - 1 };
                if s == j {
                    assert(order@[t] == before[ot]);
                } else if t == j {
                    assert(order@[s] == before[os]);
                } else {
                    assert(order@[s] == before[os]);
                    assert(order@[t] == before[ot]);
                }
            }
        }
        p = p + 1;
    }
    order
}

/// When `q` is not placed before the later position `p`, `p` goes before `q`.
proof fn lemma_key_before_flip(keys: Seq<Seq<char>>, descending: bool, q: int, p: int)
    requires
        q < p,
        !key_before(keys, descending, q, p),
    ensures
        key_before(keys, descending, p, q),
{
    if keys[q] != keys[p] {
        lemma_text_lt_total(keys[q], keys[p]);
    }
}

/// Whether position `a` goes before position `b` (see `key_before`).
fn key_before_exec(keys: &Vec<String>, descending: bool, a: usize, b: usize) -> (r: bool)
    requires
        a < keys@.len(),
        b < keys@.len(),
    ensures
        r == key_before(views_of(keys@), descending, a as int, b as int),
{
    let ka = keys[a].as_str();
    let kb = keys[b].as_str();
    assert(views_of(keys@)[a as int] == keys@[a as int]@);
    assert(views_of(keys@)[b as int] == keys@[b as int]@);
    let ghost ks = views_of(keys@);
    assert(ka@ == ks[a as int]);
    assert(kb@ == ks[b as int]);
    if text_less(ka, kb) {
        proof {
            lemma_text_lt_irreflexive(ks[a as int]);
            assert(ks[a as int] != ks[b as int]);
            lemma_text_lt_asymmetric(ks[a as int], ks[b as int]);
        }
        !descending
    } else if text_less(kb, ka) {
        proof {
            lemma_text_lt_irreflexive(ks[a as int]);
            assert(ks[a as int] != ks[b as int]);
        }
        descending
    } else {
        proof {
            if ks[a as int] != ks[b as int] {
                lemma_text_lt_total(ks[a as int], ks[b as int]);
            }
            assert(ks[a as int] == ks[b as int]);
        }
        a < b
    }
}

} // verus!
