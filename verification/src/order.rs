//! Orders used to present lists, and the stable sort that applies them.
use vstd::prelude::*;

verus! {

/// Lexicographic order on character sequences, characters compared by code
/// point. It is the order of `String::cmp`, which compares the UTF-8 bytes:
/// UTF-8 keeps the order of code points.
pub open spec fn lex_le(a: Seq<char>, b: Seq<char>) -> bool
    decreases a.len(),
{
    if a.len() == 0 {
        true
    } else if b.len() == 0 {
        false
    } else if a[0] != b[0] {
        (a[0] as int) < (b[0] as int)
    } else {
        lex_le(a.drop_first(), b.drop_first())
    }
}

/// `lex_le` is total.
pub proof fn lemma_lex_le_total(a: Seq<char>, b: Seq<char>)
    ensures
        lex_le(a, b) || lex_le(b, a),
    decreases a.len(),
{
    if a.len() > 0 && b.len() > 0 {
        if a[0] == b[0] {
            lemma_lex_le_total(a.drop_first(), b.drop_first());
        } else {
            assert((a[0] as int) != (b[0] as int));
        }
    }
}

/// `lex_le` is transitive.
pub proof fn lemma_lex_le_transitive(a: Seq<char>, b: Seq<char>, c: Seq<char>)
    requires
        lex_le(a, b),
        lex_le(b, c),
    ensures
        lex_le(a, c),
    decreases a.len(),
{
    if a.len() > 0 && b.len() > 0 && c.len() > 0 && a[0] == b[0] && b[0] == c[0] {
        lemma_lex_le_transitive(a.drop_first(), b.drop_first(), c.drop_first());
    }
}

/// `lex_le` both ways only between equal sequences.
pub proof fn lemma_lex_le_antisymmetric(a: Seq<char>, b: Seq<char>)
    requires
        lex_le(a, b),
        lex_le(b, a),
    ensures
        a == b,
    decreases a.len(),
{
    if a.len() > 0 && b.len() > 0 {
        lemma_lex_le_antisymmetric(a.drop_first(), b.drop_first());
        assert(a == seq![a[0]] + a.drop_first());
        assert(b == seq![b[0]] + b.drop_first());
    }
}

/// Whether `a` comes before `b` or equals it in `lex_le`.
pub fn lex_le_exec(a: &Vec<char>, b: &Vec<char>) -> (r: bool)
    ensures
        r == lex_le(a@, b@),
{
    let mut i: usize = 0;
    assert(a@.subrange(0, a.len() as int) == a@);
    assert(b@.subrange(0, b.len() as int) == b@);
    while i < a.len() && i < b.len() && a[i] == b[i]
        invariant
            i <= a.len(),
            i <= b.len(),
            lex_le(a@, b@) == lex_le(a@.subrange(i as int, a.len() as int), b@.subrange(
                i as int,
                b.len() as int,
            )),
        decreases a.len() - i,
    {
        let ghost sa = a@.subrange(i as int, a.len() as int);
        let ghost sb = b@.subrange(i as int, b.len() as int);
        assert(sa.drop_first() == a@.subrange(i + 1, a.len() as int));
        assert(sb.drop_first() == b@.subrange(i + 1, b.len() as int));
        i = i + 1;
    }
    let ghost sa = a@.subrange(i as int, a.len() as int);
    let ghost sb = b@.subrange(i as int, b.len() as int);
    if i == a.len() {
        true
    } else if i == b.len() {
        false
    } else {
        assert(sa[0] == a@[i as int]);
        assert(sb[0] == b@[i as int]);
        a[i] < b[i]
    }
}

/// A total preorder on the items of a list, by which the list is sorted.
pub trait KeyOrder: Sized {
    /// `a` may stand before `b`.
    spec fn key_le(a: Self, b: Self) -> bool;

    proof fn lemma_key_le_total(a: Self, b: Self)
        ensures
            Self::key_le(a, b) || Self::key_le(b, a),
    ;

    proof fn lemma_key_le_transitive(a: Self, b: Self, c: Self)
        requires
            Self::key_le(a, b),
            Self::key_le(b, c),
        ensures
            Self::key_le(a, c),
    ;

    fn key_le_exec(&self, other: &Self) -> (r: bool)
        ensures
            r == Self::key_le(*self, *other),
    ;
}

/// `r` is `v` stably sorted: `perm` says which item of `v` stands at each
/// place of `r`; each item of `v` appears once; `r` is in `key_le` order;
/// items of equal rank keep their order in `v`.
pub open spec fn is_stable_sort<T: KeyOrder>(v: Seq<T>, r: Seq<T>, perm: Seq<int>) -> bool {
    &&& r.len() == v.len()
    &&& perm.len() == v.len()
    &&& forall|i: int| 0 <= i < r.len() ==> 0 <= #[trigger] perm[i] < v.len()
    &&& forall|i: int, j: int| 0 <= i < j < r.len() ==> perm[i] != perm[j]
    &&& forall|i: int| 0 <= i < r.len() ==> #[trigger] r[i] == v[perm[i]]
    &&& forall|i: int, j: int| 0 <= i < j < r.len() ==> T::key_le(r[i], r[j])
    &&& forall|i: int, j: int|
        0 <= i < j < r.len() && T::key_le(r[j], r[i]) ==> perm[i] < perm[j]
}

/// `r` is `v` stably sorted by `key_le`.
pub open spec fn stably_sorted<T: KeyOrder>(v: Seq<T>, r: Seq<T>) -> bool {
    exists|perm: Seq<int>| is_stable_sort(v, r, perm)
}

/// In a stably sorted list, each item may stand before every later one.
pub proof fn lemma_stably_sorted_in_order<T: KeyOrder>(v: Seq<T>, r: Seq<T>, i: int, j: int)
    requires
        stably_sorted(v, r),
        0 <= i < j < r.len(),
    ensures
        T::key_le(r[i], r[j]),
{
    let perm = choose|perm: Seq<int>| is_stable_sort(v, r, perm);
}

/// Sorts `v` by `key_le`, keeping the order of items of equal rank (as
/// `slice::sort_by` does).
pub fn stable_sort<T: KeyOrder>(v: Vec<T>) -> (r: Vec<T>)
    ensures
        stably_sorted(v@, r@),
{
    let ghost v0 = v@;
    let mut rest = v;
    let total: usize = rest.len();
    let mut r: Vec<T> = Vec::new();
    let mut n: usize = 0;
    let ghost mut perm: Seq<int> = Seq::empty();
    while rest.len() > 0
        invariant
            n + rest.len() == v0.len(),
            v0.len() == total,
            rest@ == v0.subrange(n as int, v0.len() as int),
            is_stable_sort(v0.subrange(0, n as int), r@, perm),
        decreases rest.len(),
    {
        let x = rest.remove(0);
        let ghost done = v0.subrange(0, n as int);
        let ghost old_r = r@;
        let ghost old_perm = perm;
        let mut pos: usize = 0;
        while pos < r.len() && r[pos].key_le_exec(&x)
            invariant
                pos <= r.len(),
                r@ == old_r,
                forall|j: int| 0 <= j < pos ==> T::key_le(#[trigger] old_r[j], x),
            decreases r.len() - pos,
        {
            pos = pos + 1;
        }
        proof {
            if pos < old_r.len() {
                T::lemma_key_le_total(old_r[pos as int], x);
            }
        }
        r.insert(pos, x);
        proof {
            perm = old_perm.insert(pos as int, n as int);
            let nd = v0.subrange(0, n + 1);
            assert(x == v0[n as int]);
            assert forall|i: int| 0 <= i < r@.len() implies #[trigger] r@[i] == nd[perm[i]] by {
                if i < pos {
                    assert(r@[i] == old_r[i]);
                    assert(old_r[i] == done[old_perm[i]]);
                } else if i > pos {
                    assert(r@[i] == old_r[i - 1]);
                    assert(old_r[i - 1] == done[old_perm[i - 1]]);
                }
            }
            assert forall|i: int, j: int| 0 <= i < j < r@.len() implies T::key_le(
                r@[i],
                r@[j],
            ) by {
                if j < pos {
                } else if j == pos {
                    assert(r@[i] == old_r[i]);
                } else if i < pos {
                    assert(r@[i] == old_r[i]);
                    assert(r@[j] == old_r[j - 1]);
                } else if i == pos {
                    assert(r@[j] == old_r[j - 1]);
                    if j - 1 > pos {
                        T::lemma_key_le_transitive(x, old_r[pos as int], old_r[j - 1]);
                    }
                } else {
                    assert(r@[i] == old_r[i - 1]);
                    assert(r@[j] == old_r[j - 1]);
                }
            }
            assert forall|i: int, j: int|
                0 <= i < j < r@.len() && T::key_le(r@[j], r@[i]) implies perm[i] < perm[j] by {
                if j < pos {
                } else if j == pos {
                } else if i < pos {
                } else if i == pos {
                    assert(r@[j] == old_r[j - 1]);
                    if j - 1 > pos {
                        T::lemma_key_le_transitive(old_r[pos as int], old_r[j - 1], x);
                    }
                } else {
                }
            }
        }
        n = n + 1;
        assert(rest@ == v0.subrange(n as int, v0.len() as int));
    }
    assert(v0.subrange(0, n as int) == v0);
    r
}

} // verus!
