//! Ordes e permutacións: a orde lexicográfica das cadeas (a de `str`, byte a
//! byte en UTF-8, que coincide coa dos puntos de código) e a descrición dunha
//! reordenación dunha secuencia.

use vstd::prelude::*;

verus! {

/// `a` vai antes ou é igual ca `b` na orde lexicográfica por puntos de código.
pub open spec fn lex_le(a: Seq<char>, b: Seq<char>) -> bool
    decreases a.len(),
{
    if a.len() == 0 {
        true
    } else if b.len() == 0 {
        false
    } else if a[0] < b[0] {
        true
    } else if a[0] == b[0] {
        lex_le(a.subrange(1, a.len() as int), b.subrange(1, b.len() as int))
    } else {
        false
    }
}

/// A orde lexicográfica é total.
pub proof fn lemma_lex_total(a: Seq<char>, b: Seq<char>)
    ensures
        lex_le(a, b) || lex_le(b, a),
    decreases a.len(),
{
    if a.len() > 0 && b.len() > 0 && a[0] == b[0] {
        lemma_lex_total(a.subrange(1, a.len() as int), b.subrange(1, b.len() as int));
    }
}

/// A orde lexicográfica é reflexiva.
pub proof fn lemma_lex_refl(a: Seq<char>)
    ensures
        lex_le(a, a),
    decreases a.len(),
{
    if a.len() > 0 {
        lemma_lex_refl(a.subrange(1, a.len() as int));
    }
}

/// A orde lexicográfica é transitiva.
pub proof fn lemma_lex_trans(a: Seq<char>, b: Seq<char>, c: Seq<char>)
    requires
        lex_le(a, b),
        lex_le(b, c),
    ensures
        lex_le(a, c),
    decreases a.len(),
{
    if a.len() > 0 && b.len() > 0 && c.len() > 0 && a[0] == b[0] && b[0] == c[0] {
        lemma_lex_trans(
            a.subrange(1, a.len() as int),
            b.subrange(1, b.len() as int),
            c.subrange(1, c.len() as int),
        );
    }
}

/// Compara dúas cadeas de caracteres na orde lexicográfica: `a <= b`.
pub fn lex_le_exec(a: &Vec<char>, b: &Vec<char>) -> (r: bool)
    ensures
        r == lex_le(a@, b@),
{
    let mut i: usize = 0;
    proof {
        assert(a@.subrange(0, a@.len() as int) =~= a@);
        assert(b@.subrange(0, b@.len() as int) =~= b@);
    }
    while i < a.len() && i < b.len()
        invariant
            i <= a@.len(),
            i <= b@.len(),
            forall|m: int| 0 <= m < i ==> a@[m] == b@[m],
            lex_le(a@, b@) == lex_le(a@.subrange(i as int, a@.len() as int), b@.subrange(i as int, b@.len() as int)),
        decreases a.len() - i,
    {
        let ca = a[i];
        let cb = b[i];
        let ghost sa = a@.subrange(i as int, a@.len() as int);
        let ghost sb = b@.subrange(i as int, b@.len() as int);
        if ca < cb {
            assert(sa[0] == ca && sb[0] == cb);
            return true;
        }
        if ca != cb {
            assert(sa[0] == ca && sb[0] == cb);
            return false;
        }
        proof {
            assert(sa.subrange(1, sa.len() as int) =~= a@.subrange(i + 1, a@.len() as int));
            assert(sb.subrange(1, sb.len() as int) =~= b@.subrange(i + 1, b@.len() as int));
        }
        i = i + 1;
    }
    i == a.len()
}

/// `out` é unha reordenación de `orig`: a posición `k` de `out` ten o elemento
/// `p[k]` de `orig`, `p` é inxectiva e `q` é a súa inversa.
pub open spec fn perm_of<T>(out: Seq<T>, orig: Seq<T>, p: Seq<int>, q: Seq<int>) -> bool {
    &&& out.len() == orig.len()
    &&& p.len() == out.len()
    &&& q.len() == out.len()
    &&& forall|k: int| 0 <= k < out.len() ==> 0 <= #[trigger] p[k] < orig.len() && out[k] == orig[p[k]]
    &&& forall|k1: int, k2: int| 0 <= k1 < out.len() && 0 <= k2 < out.len() && k1 != k2 ==> #[trigger] p[k1] != #[trigger] p[k2]
    &&& forall|i: int| 0 <= i < orig.len() ==> 0 <= #[trigger] q[i] < out.len() && p[q[i]] == i
}

/// Reordenación parcial: `out` recolle, reordenados, os elementos de `orig`
/// desde a posición `m`.
pub open spec fn perm_tail<T>(out: Seq<T>, orig: Seq<T>, m: int, p: Seq<int>, q: Seq<int>) -> bool {
    &&& 0 <= m <= orig.len()
    &&& out.len() == orig.len() - m
    &&& p.len() == out.len()
    &&& q.len() == orig.len()
    &&& forall|k: int| 0 <= k < out.len() ==> m <= #[trigger] p[k] < orig.len() && out[k] == orig[p[k]]
    &&& forall|k1: int, k2: int| 0 <= k1 < out.len() && 0 <= k2 < out.len() && k1 != k2 ==> #[trigger] p[k1] != #[trigger] p[k2]
    &&& forall|i: int| m <= i < orig.len() ==> 0 <= #[trigger] q[i] < out.len() && p[q[i]] == i
}

/// Inserir en `out` o elemento `m - 1` de `orig` estende a reordenación parcial.
pub proof fn lemma_perm_tail_insert<T>(out: Seq<T>, orig: Seq<T>, m: int, p: Seq<int>, q: Seq<int>, pos: int) -> (pq: (Seq<int>, Seq<int>))
    requires
        perm_tail(out, orig, m, p, q),
        0 < m,
        0 <= pos <= out.len(),
    ensures
        perm_tail(out.insert(pos, orig[m - 1]), orig, m - 1, pq.0, pq.1),
        pq.0 == p.insert(pos, m - 1),
{
    let p2 = p.insert(pos, m - 1);
    let q2 = Seq::new(orig.len(), |i: int| if i == m - 1 { pos } else if q[i] >= pos { q[i] + 1 } else { q[i] });
    let o2 = out.insert(pos, orig[m - 1]);
    assert forall|k: int| 0 <= k < o2.len() implies m - 1 <= #[trigger] p2[k] < orig.len() && o2[k] == orig[p2[k]] by {
        if k < pos {
            assert(p2[k] == p[k]);
        } else if k > pos {
            assert(p2[k] == p[k - 1]);
        }
    }
    assert forall|k1: int, k2: int| 0 <= k1 < o2.len() && 0 <= k2 < o2.len() && k1 != k2 implies #[trigger] p2[k1] != #[trigger] p2[k2] by {
        if k1 != pos && k2 != pos {
            let a = if k1 < pos { k1 } else { k1 - 1 };
            let b = if k2 < pos { k2 } else { k2 - 1 };
            assert(p2[k1] == p[a]);
            assert(p2[k2] == p[b]);
        } else if k1 == pos {
            let b = if k2 < pos { k2 } else { k2 - 1 };
            assert(p2[k2] == p[b]);
        } else {
            let a = if k1 < pos { k1 } else { k1 - 1 };
            assert(p2[k1] == p[a]);
        }
    }
    assert forall|i: int| m - 1 <= i < orig.len() implies 0 <= #[trigger] q2[i] < o2.len() && p2[q2[i]] == i by {
        if i != m - 1 {
            if q[i] >= pos {
                assert(p2[q[i] + 1] == p[q[i]]);
            } else {
                assert(p2[q[i]] == p[q[i]]);
            }
        }
    }
    (p2, q2)
}

/// Unha reordenación parcial completa é unha reordenación.
pub proof fn lemma_perm_tail_done<T>(out: Seq<T>, orig: Seq<T>, p: Seq<int>, q: Seq<int>)
    requires
        perm_tail(out, orig, 0, p, q),
    ensures
        perm_of(out, orig, p, q),
{
}

} // verus!
