//! Order statistics over order keys.
//!
//! Numeric columns are handed to this module as order keys: unsigned
//! integers whose order is the order of the values they stand for. Medians,
//! quartiles, the binary target and the clipping of outliers are decided
//! here on those keys.
use vstd::prelude::*;
use vstd::relations::{sorted_by, total_ordering};
use vstd::seq_lib::{group_to_multiset_ensures, lemma_sorted_unique};

verus! {

/// The order of the keys.
pub open spec fn ordem_chaves() -> spec_fn(u64, u64) -> bool {
    |a: u64, b: u64| a <= b
}

/// The keys of `s` in ascending order.
pub open spec fn ordenada(s: Seq<u64>) -> Seq<u64> {
    s.sort_by(ordem_chaves())
}

/// The `k`-th smallest key of `s` (counting from 0).
pub open spec fn k_esima(s: Seq<u64>, k: int) -> u64 {
    ordenada(s)[k]
}

proof fn lemma_ordem_total()
    ensures
        total_ordering(ordem_chaves()),
{
}

/// What is known of the sorted keys: a permutation of the keys, in ascending order.
pub proof fn lemma_ordenada(s: Seq<u64>)
    ensures
        ordenada(s).to_multiset() == s.to_multiset(),
        ordenada(s).len() == s.len(),
        forall|i: int, j: int|
            0 <= i <= j < s.len() ==> #[trigger] ordenada(s)[i] <= #[trigger] ordenada(s)[j],
{
    broadcast use group_to_multiset_ensures;

    lemma_ordem_total();
    s.lemma_sort_by_ensures(ordem_chaves());
    assert(ordenada(s).to_multiset().len() == s.to_multiset().len());
    assert forall|i: int, j: int| 0 <= i <= j < s.len() implies #[trigger] ordenada(s)[i]
        <= #[trigger] ordenada(s)[j] by {
        if i < j {
            assert(ordem_chaves()(ordenada(s)[i], ordenada(s)[j]));
        }
    }
}

/// Order statistics depend only on the keys, not on the order of the rows:
/// two sequences holding the same keys (one a permutation of the other)
/// have the same sorted keys, hence the same medians and quartiles.
pub proof fn lei_estatisticas_independem_da_ordem(a: Seq<u64>, b: Seq<u64>, k: int)
    requires
        a.to_multiset() == b.to_multiset(),
    ensures
        ordenada(a) == ordenada(b),
        0 <= k < a.len() ==> k_esima(a, k) == k_esima(b, k),
        a.len() == b.len(),
{
    broadcast use group_to_multiset_ensures;

    lemma_ordem_total();
    a.lemma_sort_by_ensures(ordem_chaves());
    b.lemma_sort_by_ensures(ordem_chaves());
    lemma_sorted_unique(ordenada(a), ordenada(b), ordem_chaves());
    a.to_multiset_ensures();
    b.to_multiset_ensures();
}

/// Sorts the keys in ascending order.
pub fn ordenar(valores: &[u64]) -> (r: Vec<u64>)
    ensures
        r@ == ordenada(valores@),
{
    broadcast use group_to_multiset_ensures;

    let mut r: Vec<u64> = Vec::new();
    let n = valores.len();
    let mut i: usize = 0;
    while i < n
        invariant
            i <= n,
            n == valores@.len(),
            sorted_by(r@, ordem_chaves()),
            r@.to_multiset() == valores@.subrange(0, i as int).to_multiset(),
        decreases n - i,
    {
        let x = valores[i];
        let mut j: usize = 0;
        while j < r.len() && r[j] <= x
            invariant
                j <= r@.len(),
                forall|k: int| 0 <= k < j ==> r@[k] <= x,
            decreases r@.len() - j,
        {
            j = j + 1;
        }
        let ghost antes = r@;
        r.insert(j, x);
        proof {
            assert(forall|k: int| j <= k < antes.len() ==> antes[k] > x) by {
                assert forall|k: int| j <= k < antes.len() implies antes[k] > x by {
                    if j < antes.len() {
                        assert(antes[j as int] > x);
                        assert(ordem_chaves()(antes[j as int], antes[k]) || k == j);
                    }
                }
            }
            assert forall|a: int, b: int| 0 <= a < b < r@.len() implies #[trigger] ordem_chaves()(
                r@[a],
                r@[b],
            ) by {
                if b < j {
                    assert(ordem_chaves()(antes[a], antes[b]));
                } else if b == j {
                } else if a < j {
                    assert(r@[a] <= x);
                } else if a == j {
                    assert(r@[b] == antes[b - 1]);
                } else {
                    assert(ordem_chaves()(antes[a - 1], antes[b - 1]));
                }
            }
            assert(valores@.subrange(0, i as int + 1) =~= valores@.subrange(0, i as int).push(x));
            vstd::seq_lib::to_multiset_insert(antes, j as int, x);
            assert(r@ == antes.insert(j as int, x));
            assert(r@.to_multiset() == antes.to_multiset().insert(x));
            assert(antes.to_multiset() == valores@.subrange(0, i as int).to_multiset());
            valores@.subrange(0, i as int).to_multiset_ensures();
            assert(valores@.subrange(0, i as int).push(x).to_multiset()
                == valores@.subrange(0, i as int).to_multiset().insert(x));
        }
        i = i + 1;
    }
    proof {
        assert(valores@.subrange(0, n as int) =~= valores@);
        lemma_ordem_total();
        valores@.lemma_sort_by_ensures(ordem_chaves());
        lemma_sorted_unique(r@, ordenada(valores@), ordem_chaves());
    }
    r
}

/// The `k`-th smallest key (counting from 0).
pub fn estatistica_de_ordem(valores: &[u64], k: usize) -> (r: u64)
    requires
        k < valores@.len(),
    ensures
        r == k_esima(valores@, k as int),
{
    let ordenados = ordenar(valores);
    proof {
        lemma_ordenada(valores@);
    }
    ordenados[k]
}

/// Median of the keys: the key at position `len / 2` of the sorted keys,
/// or `None` when there is no key.
pub fn mediana(valores: &[u64]) -> (r: Option<u64>)
    ensures
        valores@.len() == 0 ==> r is None,
        valores@.len() > 0 ==> r == Some(k_esima(valores@, (valores@.len() / 2) as int)),
{
    if valores.len() == 0 {
        None
    } else {
        Some(estatistica_de_ordem(valores, valores.len() / 2))
    }
}

/// Position of the third quartile among `n` sorted keys: `n * 3 / 4`.
pub fn posicao_terceiro_quartil(n: usize) -> (r: usize)
    ensures
        r == n * 3 / 4,
        n > 0 ==> r < n,
{
    let q = n / 4;
    let resto = n % 4;
    proof {
        assert(n * 3 / 4 == q * 3 + resto * 3 / 4) by (nonlinear_arith)
            requires
                q == n / 4,
                resto == n % 4,
        ;
    }
    q * 3 + resto * 3 / 4
}

/// First and third quartiles of the keys: the keys at positions `len / 4`
/// and `len * 3 / 4` of the sorted keys.
pub fn quartis(valores: &[u64]) -> (r: (u64, u64))
    requires
        valores@.len() > 0,
    ensures
        r.0 == k_esima(valores@, (valores@.len() / 4) as int),
        r.1 == k_esima(valores@, (valores@.len() * 3 / 4) as int),
{
    let ordenados = ordenar(valores);
    proof {
        lemma_ordenada(valores@);
    }
    let p3 = posicao_terceiro_quartil(valores.len());
    (ordenados[valores.len() / 4], ordenados[p3])
}

/// Order statistics grow with their position: the first quartile is at most
/// the median, which is at most the third quartile, and every order
/// statistic is one of the keys.
pub proof fn lei_estatisticas_monotonas(s: Seq<u64>, j: int, k: int)
    requires
        0 <= j <= k < s.len(),
    ensures
        k_esima(s, j) <= k_esima(s, k),
        s.contains(k_esima(s, j)),
{
    broadcast use group_to_multiset_ensures;

    lemma_ordenada(s);
    assert(ordenada(s).contains(k_esima(s, j)));
    assert(ordenada(s).to_multiset().count(k_esima(s, j)) > 0);
}

/// Binary target of the classifiers: label 1 (high impact) for each loss
/// whose key is above the median key, label 0 otherwise; the median key is
/// returned with the labels.
pub fn rotular_por_mediana(perdas: &[u64]) -> (r: (Vec<u32>, u64))
    requires
        perdas@.len() > 0,
    ensures
        r.1 == k_esima(perdas@, (perdas@.len() / 2) as int),
        r.0@.len() == perdas@.len(),
        forall|i: int|
            0 <= i < perdas@.len() ==> #[trigger] r.0@[i] == if perdas@[i] > r.1 {
                1u32
            } else {
                0u32
            },
{
    let m = estatistica_de_ordem(perdas, perdas.len() / 2);
    let mut y: Vec<u32> = Vec::new();
    let mut i: usize = 0;
    while i < perdas.len()
        invariant
            i <= perdas@.len(),
            y@.len() == i,
            forall|j: int|
                0 <= j < i ==> #[trigger] y@[j] == if perdas@[j] > m {
                    1u32
                } else {
                    0u32
                },
        decreases perdas@.len() - i,
    {
        if perdas[i] > m {
            y.push(1);
        } else {
            y.push(0);
        }
        i = i + 1;
    }
    (y, m)
}

/// Keys strictly above `m`.
pub open spec fn acima_de(m: u64) -> spec_fn(u64) -> bool {
    |x: u64| x > m
}

proof fn lemma_filtro_multiconjunto(s: Seq<u64>, f: spec_fn(u64) -> bool)
    ensures
        s.filter(f).to_multiset() =~= s.to_multiset().filter(f),
    decreases s.len(),
{
    broadcast use group_to_multiset_ensures;
    broadcast use vstd::multiset::group_multiset_axioms;

    if s.len() == 0 {
        reveal(Seq::filter);
        assert(s.filter(f) =~= s);
        assert(s =~= Seq::<u64>::empty());
    } else {
        let r = s.drop_last();
        let x = s.last();
        lemma_filtro_multiconjunto(r, f);
        assert(r.push(x) =~= s);
        r.lemma_filter_push(x, f);
        r.to_multiset_ensures();
        r.filter(f).to_multiset_ensures();
        assert(s.to_multiset() =~= r.to_multiset().insert(x));
    }
}

/// Sequences with the same keys have as many keys above any bound.
proof fn lemma_filtro_permutacao(a: Seq<u64>, b: Seq<u64>, f: spec_fn(u64) -> bool)
    requires
        a.to_multiset() == b.to_multiset(),
    ensures
        a.filter(f).len() == b.filter(f).len(),
{
    broadcast use group_to_multiset_ensures;

    lemma_filtro_multiconjunto(a, f);
    lemma_filtro_multiconjunto(b, f);
    a.filter(f).to_multiset_ensures();
    b.filter(f).to_multiset_ensures();
}

/// The binary target leaves the high-impact class as the minority: fewer
/// than half of the losses lie strictly above the median, at most
/// `(len - 1) / 2` of them.
pub proof fn lei_alvo_minoria(perdas: Seq<u64>)
    requires
        perdas.len() > 0,
    ensures
        perdas.filter(acima_de(k_esima(perdas, (perdas.len() / 2) as int))).len() <= (
        perdas.len() - 1) / 2,
{
    let n = perdas.len() as int;
    let k = n / 2;
    let t = ordenada(perdas);
    let m = t[k];
    let f = acima_de(m);
    lemma_ordenada(perdas);
    lemma_filtro_permutacao(perdas, t, f);
    let ini = t.subrange(0, k + 1);
    let fim = t.subrange(k + 1, n);
    assert(t =~= ini + fim);
    Seq::filter_distributes_over_add(ini, fim, f);
    assert forall|i: int| 0 <= i < ini.len() implies !f(#[trigger] ini[i]) by {
        assert(ini[i] == t[i]);
        assert(t[i] <= t[k]);
    }
    assert(ini.all(|x: u64| !f(x)));
    ini.lemma_all_neg_filter_empty(f);
    fim.lemma_filter_len(f);
}

} // verus!
