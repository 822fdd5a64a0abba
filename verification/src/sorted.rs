//! Sets of strings kept as strictly ascending vectors (the order of `BTreeSet<String>`).
use vstd::prelude::*;
use vstd::string::*;
use crate::text::{
    chars_lt, eq_str, lemma_chars_lt_irrefl, lemma_chars_lt_total, lemma_chars_lt_trans, owned, str_less,
};

verus! {

pub open spec fn views(v: Seq<String>) -> Seq<Seq<char>> {
    v.map_values(|x: String| x@)
}

pub open spec fn strictly_sorted(v: Seq<Seq<char>>) -> bool {
    forall|i: int, j: int| 0 <= i < j < v.len() ==> chars_lt(#[trigger] v[i], #[trigger] v[j])
}

/// Adds `s` to an ascending set of strings.
pub fn sorted_insert(v: &mut Vec<String>, s: &str)
    requires
        strictly_sorted(views(old(v)@)),
    ensures
        strictly_sorted(views(final(v)@)),
        views(final(v)@).to_set() == views(old(v)@).to_set().insert(s@),
{
    let ghost before = views(v@);
    let mut p: usize = 0;
    while p < v.len() && str_less(v[p].as_str(), s)
        invariant
            p <= v.len(),
            before == views(v@),
            forall|k: int| 0 <= k < p ==> chars_lt(#[trigger] before[k], s@),
        decreases v.len() - p,
    {
        p = p + 1;
    }
    if p < v.len() && eq_str(v[p].as_str(), s) {
        proof {
            assert(before[p as int] == s@);
            assert(before.to_set().insert(s@) =~= before.to_set());
        }
        return;
    }
    proof {
        if p < v.len() {
            assert(before[p as int] != s@);
            lemma_chars_lt_total(before[p as int], s@);
        }
    }
    v.insert(p, owned(s));
    proof {
        let after = views(v@);
        assert(after =~= before.insert(p as int, s@));
        assert forall|i: int, j: int| 0 <= i < j < after.len() implies chars_lt(
            #[trigger] after[i],
            #[trigger] after[j],
        ) by {
            if j < p {
            } else if j == p {
            } else if i < p {
                // before[i] < s < before[p] <= before[j - 1]
                if p < j - 1 {
                    lemma_chars_lt_trans(s@, before[p as int], before[j - 1]);
                }
                lemma_chars_lt_trans(before[i], s@, before[j - 1]);
            } else if i == p {
                if p < j - 1 {
                    lemma_chars_lt_trans(s@, before[p as int], before[j - 1]);
                }
            } else {
            }
        }
        assert forall|x: Seq<char>| after.to_set().contains(x) <==> before.to_set().insert(
            s@,
        ).contains(x) by {
            if after.to_set().contains(x) {
                let k = choose|k: int| 0 <= k < after.len() && after[k] == x;
                if k < p {
                    assert(before[k] == x);
                } else if k > p {
                    assert(before[k - 1] == x);
                }
            }
            if before.to_set().contains(x) {
                let k = choose|k: int| 0 <= k < before.len() && before[k] == x;
                if k < p {
                    assert(after[k] == x);
                } else {
                    assert(after[k + 1] == x);
                }
            }
            if x == s@ {
                assert(after[p as int] == x);
            }
        }
        assert(after.to_set() =~= before.to_set().insert(s@));
    }
}

/// Joins strings with a separator.
pub open spec fn joined(list: Seq<Seq<char>>, sep: Seq<char>) -> Seq<char>
    decreases list.len(),
{
    if list.len() == 0 {
        Seq::empty()
    } else if list.len() == 1 {
        list[0]
    } else {
        joined(list.drop_last(), sep) + sep + list.last()
    }
}

pub fn join(list: &Vec<String>, sep: &str) -> (r: String)
    ensures
        r@ == joined(views(list@), sep@),
{
    let mut out = String::new();
    let mut i: usize = 0;
    while i < list.len()
        invariant
            i <= list.len(),
            out@ == joined(views(list@).take(i as int), sep@),
        decreases list.len() - i,
    {
        proof {
            let t = views(list@).take(i + 1);
            assert(t.drop_last() =~= views(list@).take(i as int));
        }
        if i > 0 {
            out.append(sep);
        } else {
            assert(views(list@).take(0) =~= Seq::<Seq<char>>::empty());
        }
        out.append(list[i].as_str());
        i = i + 1;
    }
    assert(views(list@).take(list.len() as int) =~= views(list@));
    out
}


/// Dropping the first string of an ascending list drops exactly that string.
proof fn lemma_sorted_tail_set(a: Seq<Seq<char>>)
    requires
        strictly_sorted(a),
        a.len() > 0,
    ensures
        strictly_sorted(a.drop_first()),
        a.drop_first().to_set() == a.to_set().remove(a[0]),
{
    let t = a.drop_first();
    assert forall|i: int, j: int| 0 <= i < j < t.len() implies chars_lt(#[trigger] t[i], #[trigger] t[j]) by {
        assert(t[i] == a[i + 1] && t[j] == a[j + 1]);
    }
    assert forall|x: Seq<char>| t.to_set().contains(x) <==> a.to_set().remove(a[0]).contains(x) by {
        if t.to_set().contains(x) {
            let k = choose|k: int| 0 <= k < t.len() && t[k] == x;
            assert(a[k + 1] == x);
            assert(chars_lt(a[0], a[k + 1]));
            lemma_chars_lt_irrefl(a[0]);
        }
        if a.to_set().remove(a[0]).contains(x) {
            let k = choose|k: int| 0 <= k < a.len() && a[k] == x;
            assert(k != 0);
            assert(t[k - 1] == x);
        }
    }
    assert(t.to_set() =~= a.to_set().remove(a[0]));
}

/// Two ascending lists of the same strings are the same list.
pub proof fn lemma_sorted_unique(a: Seq<Seq<char>>, b: Seq<Seq<char>>)
    requires
        strictly_sorted(a),
        strictly_sorted(b),
        a.to_set() == b.to_set(),
    ensures
        a == b,
    decreases a.len(),
{
    if a.len() == 0 {
        if b.len() > 0 {
            assert(b.to_set().contains(b[0]));
            assert(a.to_set().contains(b[0]));
        }
        assert(a =~= b);
    } else {
        assert(a.to_set().contains(a[0]));
        if b.len() == 0 {
            assert(b.to_set().contains(a[0]));
        }
        assert(b.to_set().contains(b[0]));
        if a[0] != b[0] {
            assert(b.to_set().contains(a[0]));
            let k = choose|k: int| 0 <= k < b.len() && b[k] == a[0];
            assert(a.to_set().contains(b[0]));
            let m = choose|m: int| 0 <= m < a.len() && a[m] == b[0];
            assert(k != 0 && m != 0);
            assert(chars_lt(b[0], b[k]));
            assert(chars_lt(a[0], a[m]));
            lemma_chars_lt_trans(b[0], a[0], b[0]);
            lemma_chars_lt_irrefl(b[0]);
        }
        lemma_sorted_tail_set(a);
        lemma_sorted_tail_set(b);
        lemma_sorted_unique(a.drop_first(), b.drop_first());
        assert(a =~= b) by {
            assert(a.len() == b.len());
            assert forall|i: int| 0 <= i < a.len() implies a[i] == b[i] by {
                if i > 0 {
                    assert(a[i] == a.drop_first()[i - 1]);
                    assert(b[i] == b.drop_first()[i - 1]);
                }
            }
        }
    }
}

/// Keeping the strings of an ascending list that pass a test keeps it ascending,
/// and keeps exactly the listed strings that pass.
pub proof fn lemma_sorted_filter(g: Seq<Seq<char>>, pred: spec_fn(Seq<char>) -> bool)
    requires
        strictly_sorted(g),
    ensures
        strictly_sorted(g.filter(pred)),
        g.filter(pred).to_set() == g.to_set().filter(pred),
    decreases g.len(),
{
    reveal(Seq::filter);
    if g.len() == 0 {
        assert(g.to_set().filter(pred) =~= g.to_set());
    } else {
        let r = g.drop_last();
        assert forall|i: int, j: int| 0 <= i < j < r.len() implies chars_lt(#[trigger] r[i], #[trigger] r[j]) by {
            assert(r[i] == g[i] && r[j] == g[j]);
        }
        lemma_sorted_filter(r, pred);
        let fr = r.filter(pred);
        let f = g.filter(pred);
        if pred(g.last()) {
            assert(f == fr.push(g.last()));
            assert forall|i: int, j: int| 0 <= i < j < f.len() implies chars_lt(#[trigger] f[i], #[trigger] f[j]) by {
                if j == fr.len() {
                    assert(f[i] == fr[i]);
                    assert(fr.to_set().contains(fr[i]));
                    assert(r.to_set().contains(fr[i]));
                    let k = choose|k: int| 0 <= k < r.len() && r[k] == fr[i];
                    assert(g[k] == fr[i]);
                    assert(f[j] == g[g.len() - 1]);
                } else {
                    assert(f[i] == fr[i] && f[j] == fr[j]);
                }
            }
        } else {
            assert(f == fr);
        }
        assert forall|x: Seq<char>| f.to_set().contains(x) <==> g.to_set().filter(pred).contains(x) by {
            if f.to_set().contains(x) {
                if pred(g.last()) && x == g.last() {
                    assert(g[g.len() - 1] == x);
                } else {
                    let k = choose|k: int| 0 <= k < f.len() && f[k] == x;
                    if pred(g.last()) {
                        assert(k < fr.len() ==> fr[k] == x);
                    }
                    assert(fr.to_set().contains(x));
                    assert(r.to_set().filter(pred).contains(x));
                    let m = choose|m: int| 0 <= m < r.len() && r[m] == x;
                    assert(g[m] == x);
                }
            }
            if g.to_set().filter(pred).contains(x) {
                let k = choose|k: int| 0 <= k < g.len() && g[k] == x;
                if k == g.len() - 1 {
                    assert(f[f.len() - 1] == x);
                } else {
                    assert(r[k] == x);
                    assert(r.to_set().filter(pred).contains(x));
                    assert(fr.to_set().contains(x));
                    let m = choose|m: int| 0 <= m < fr.len() && fr[m] == x;
                    assert(f[m] == x);
                }
            }
        }
        assert(f.to_set() =~= g.to_set().filter(pred));
    }
}

} // verus!
