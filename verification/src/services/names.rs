//! Directory names as sets, and their order.

use vstd::prelude::*;
use vstd::string::StrSliceExecFns;

verus! {

/// `a` comes before `b` in the order of `String`'s `Ord`: lexicographic by
/// character (for UTF-8, the byte order and the code point order agree).
pub open spec fn name_lt(a: Seq<char>, b: Seq<char>) -> bool
    decreases a.len(),
{
    if a.len() == 0 {
        b.len() > 0
    } else if b.len() == 0 {
        false
    } else if a[0] != b[0] {
        (a[0] as int) < (b[0] as int)
    } else {
        name_lt(a.drop_first(), b.drop_first())
    }
}

/// Whether the names are in ascending order.
pub open spec fn names_sorted(s: Seq<Seq<char>>) -> bool {
    forall|i: int, j: int| 0 <= i < j < s.len() ==> name_lt(#[trigger] s[i], #[trigger] s[j])
}

/// No name comes before itself.
pub proof fn lemma_name_lt_irreflexive(a: Seq<char>)
    ensures
        !name_lt(a, a),
    decreases a.len(),
{
    if a.len() > 0 {
        lemma_name_lt_irreflexive(a.drop_first());
    }
}

/// Of two different names, one comes before the other.
pub proof fn lemma_name_lt_total(a: Seq<char>, b: Seq<char>)
    ensures
        a == b || name_lt(a, b) || name_lt(b, a),
    decreases a.len(),
{
    if a.len() > 0 && b.len() > 0 && a[0] == b[0] {
        lemma_name_lt_total(a.drop_first(), b.drop_first());
        if a.drop_first() == b.drop_first() {
            assert(a =~= seq![a[0]] + a.drop_first());
            assert(b =~= seq![b[0]] + b.drop_first());
        }
    } else if a.len() > 0 && b.len() > 0 {
        assert((a[0] as int) != (b[0] as int));
    } else if a.len() == 0 && b.len() == 0 {
        assert(a =~= b);
    }
}

/// Of two names, at most one comes before the other.
pub proof fn lemma_name_lt_asymmetric(a: Seq<char>, b: Seq<char>)
    requires
        name_lt(a, b),
    ensures
        !name_lt(b, a),
    decreases a.len(),
{
    if a.len() > 0 && b.len() > 0 && a[0] == b[0] {
        lemma_name_lt_asymmetric(a.drop_first(), b.drop_first());
    }
}

/// The order is transitive.
pub proof fn lemma_name_lt_transitive(a: Seq<char>, b: Seq<char>, c: Seq<char>)
    requires
        name_lt(a, b),
        name_lt(b, c),
    ensures
        name_lt(a, c),
    decreases a.len(),
{
    if a.len() > 0 && b.len() > 0 && c.len() > 0 && a[0] == b[0] && b[0] == c[0] {
        lemma_name_lt_transitive(a.drop_first(), b.drop_first(), c.drop_first());
    }
}

/// Whether `a` comes before `b`.
pub fn name_less(a: &str, b: &str) -> (res: bool)
    ensures
        res == name_lt(a@, b@),
{
    let la = a.unicode_len();
    let lb = b.unicode_len();
    let mut i: usize = 0;
    assert(a@.skip(0) =~= a@);
    assert(b@.skip(0) =~= b@);
    while i < la && i < lb
        invariant
            la == a@.len(),
            lb == b@.len(),
            i <= la,
            i <= lb,
            forall|k: int| 0 <= k < i ==> a@[k] == b@[k],
            name_lt(a@, b@) == name_lt(a@.skip(i as int), b@.skip(i as int)),
        decreases la - i,
    {
        let ca = a.get_char(i);
        let cb = b.get_char(i);
        assert(a@.skip(i as int)[0] == ca);
        assert(b@.skip(i as int)[0] == cb);
        if ca != cb {
            return (ca as u32) < (cb as u32);
        }
        assert(a@.skip(i as int).drop_first() =~= a@.skip(i + 1));
        assert(b@.skip(i as int).drop_first() =~= b@.skip(i + 1));
        i = i + 1;
    }
    i < lb
}

/// Whether `a` and `b` are the same name.
pub fn name_eq(a: &str, b: &str) -> (res: bool)
    ensures
        res == (a@ == b@),
{
    let la = a.unicode_len();
    let lb = b.unicode_len();
    if la != lb {
        return false;
    }
    let mut i: usize = 0;
    while i < la
        invariant
            la == a@.len(),
            lb == b@.len(),
            la == lb,
            i <= la,
            forall|k: int| 0 <= k < i ==> a@[k] == b@[k],
        decreases la - i,
    {
        if a.get_char(i) != b.get_char(i) {
            return false;
        }
        i = i + 1;
    }
    assert(a@ =~= b@);
    true
}

/// Whether the name `s` is in `v`.
pub fn contains_name(v: &Vec<String>, s: &str) -> (res: bool)
    ensures
        res == v.deep_view().contains(s@),
{
    let mut i: usize = 0;
    while i < v.len()
        invariant
            i <= v.len(),
            forall|k: int| 0 <= k < i ==> v.deep_view()[k] != s@,
        decreases v.len() - i,
    {
        if name_eq(v[i].as_str(), s) {
            assert(v.deep_view()[i as int] == v[i as int]@);
            return true;
        }
        assert(v.deep_view()[i as int] == v[i as int]@);
        i = i + 1;
    }
    proof {
        if v.deep_view().contains(s@) {
            let k = choose|k: int| 0 <= k < v.deep_view().len() && v.deep_view()[k] == s@;
            assert(v.deep_view()[k] != s@);
        }
    }
    false
}

/// Adds `s` to the set `v` unless it is in it already.
pub fn insert_name(v: &mut Vec<String>, s: String)
    ensures
        final(v).deep_view() == (if old(v).deep_view().contains(s@) {
            old(v).deep_view()
        } else {
            old(v).deep_view().push(s@)
        }),
{
    if !contains_name(v, s.as_str()) {
        let ghost before = v.deep_view();
        v.push(s);
        assert(v.deep_view() =~= before.push(s@));
    }
}

/// The names of `v` in ascending order.
pub fn sorted_names(v: &Vec<String>) -> (res: Vec<String>)
    requires
        v.deep_view().no_duplicates(),
    ensures
        names_sorted(res.deep_view()),
        res.len() == v.len(),
        forall|x: Seq<char>| res.deep_view().contains(x) <==> v.deep_view().contains(x),
{
    let mut out: Vec<String> = Vec::new();
    let mut i: usize = 0;
    while i < v.len()
        invariant
            i <= v.len(),
            v.deep_view().no_duplicates(),
            out.len() == i,
            names_sorted(out.deep_view()),
            forall|x: Seq<char>| out.deep_view().contains(x) <==> v.deep_view().take(i as int).contains(x),
        decreases v.len() - i,
    {
        let x = v[i].clone();
        let ghost xv = x@;
        proof {
            assert(v.deep_view()[i as int] == xv);
            if out.deep_view().contains(xv) {
                let vt = v.deep_view().take(i as int);
                let k = choose|k: int| 0 <= k < vt.len() && vt[k] == xv;
                assert(v.deep_view()[k] == v.deep_view()[i as int]);
            }
        }
        let mut p: usize = 0;
        while p < out.len()
            invariant
                p <= out.len(),
                xv == x@,
                forall|k: int| 0 <= k < p ==> !name_lt(xv, #[trigger] out.deep_view()[k]),
            ensures
                p <= out.len(),
                forall|k: int| 0 <= k < p ==> !name_lt(xv, #[trigger] out.deep_view()[k]),
                p < out.len() ==> name_lt(xv, out.deep_view()[p as int]),
            decreases out.len() - p,
        {
            assert(out.deep_view()[p as int] == out[p as int]@);
            if name_less(x.as_str(), out[p].as_str()) {
                break;
            }
            p = p + 1;
        }
        let ghost before = out.deep_view();
        out.insert(p, x);
        proof {
            assert(out.deep_view() =~= before.insert(p as int, xv));
            assert forall|a: int, b: int| 0 <= a < b < out.deep_view().len() implies name_lt(
                #[trigger] out.deep_view()[a],
                #[trigger] out.deep_view()[b],
            ) by {
                let s = out.deep_view();
                if b < p {
                } else if a > p {
                    assert(s[a] == before[a - 1] && s[b] == before[b - 1]);
                } else if a == p {
                    assert(s[b] == before[b - 1]);
                    if p < before.len() {
                        assert(name_lt(xv, before[p as int]));
                        if b - 1 > p {
                            lemma_name_lt_transitive(xv, before[p as int], before[b - 1]);
                        }
                    }
                } else {
                    // a < p == b
                    assert(s[a] == before[a]);
                    assert(!name_lt(xv, before[a]));
                    lemma_name_lt_total(xv, before[a]);
                    assert(!before.contains(xv));
                    if before[a] == xv {
                        assert(before.contains(xv));
                    }
                }
            }
            let ghost vt0 = v.deep_view().take(i as int);
            let ghost vt1 = v.deep_view().take(i + 1);
            assert(vt1 =~= vt0.push(xv));
            assert forall|y: Seq<char>| out.deep_view().contains(y) <==> vt1.contains(y) by {
                if out.deep_view().contains(y) {
                    let k = choose|k: int| 0 <= k < out.deep_view().len() && out.deep_view()[k] == y;
                    if k < p {
                        assert(before[k] == y);
                    } else if k > p {
                        assert(before[k - 1] == y);
                    }
                    if y != xv {
                        assert(before.contains(y));
                        let j = choose|j: int| 0 <= j < vt0.len() && vt0[j] == y;
                        assert(vt1[j] == y);
                    } else {
                        assert(vt1[i as int] == y);
                    }
                }
                if vt1.contains(y) {
                    let j = choose|j: int| 0 <= j < vt1.len() && vt1[j] == y;
                    if j < i {
                        assert(vt0[j] == y);
                        assert(before.contains(y));
                        let k = choose|k: int| 0 <= k < before.len() && before[k] == y;
                        if k < p {
                            assert(out.deep_view()[k] == y);
                        } else {
                            assert(out.deep_view()[k + 1] == y);
                        }
                    } else {
                        assert(out.deep_view()[p as int] == y);
                    }
                }
            }
        }
        i = i + 1;
    }
    assert(v.deep_view().take(v.len() as int) =~= v.deep_view());
    out
}

} // verus!
