//! What the gold layer learns, learned on the training rows alone: the
//! one-hot pairs, the medians and the quartiles of the loss come from the
//! first `floor(0.8 * total)` rows, and the rows after them (the test
//! part) have no say in them.
use vstd::prelude::*;
use crate::ordem::{k_esima, mediana, quartis};
use crate::ouro::{especificacoes_de, especificacoes_one_hot, indice_divisao, pares_da_coluna, pares_das_colunas, tamanho_treino, vistas_pares};

verus! {

/// The present keys of a column, in order.
pub open spec fn presentes(s: Seq<Option<u64>>) -> Seq<u64>
    decreases s.len(),
{
    if s.len() == 0 {
        Seq::empty()
    } else {
        let ant = presentes(s.drop_last());
        match s.last() {
            Some(x) => ant.push(x),
            None => ant,
        }
    }
}

/// Keeping the present keys keeps every one of them, repetitions
/// included, in order: a present entry adds its key at the end, a missing
/// one adds nothing, two blocks of rows give their present keys one after
/// the other, and there are as many keys as present entries.
pub proof fn lei_presentes_mantem_todos(s: Seq<Option<u64>>, t: Seq<Option<u64>>, x: u64)
    ensures
        presentes(Seq::<Option<u64>>::empty()) == Seq::<u64>::empty(),
        presentes(s.push(Some(x))) == presentes(s).push(x),
        presentes(s.push(None)) == presentes(s),
        presentes(s + t) == presentes(s) + presentes(t),
        presentes(s).len() == s.filter(|v: Option<u64>| v is Some).len(),
    decreases t.len(),
{
    assert(s.push(Some(x)).drop_last() =~= s);
    assert(s.push(None).drop_last() =~= s);
    lemma_presentes_conta(s);
    if t.len() == 0 {
        assert(s + t =~= s);
        assert(presentes(t) =~= Seq::<u64>::empty());
        assert(presentes(s) + presentes(t) =~= presentes(s));
    } else {
        let t0 = t.drop_last();
        lei_presentes_mantem_todos(s, t0, x);
        assert((s + t).drop_last() =~= s + t0);
        assert((s + t).last() == t.last());
        match t.last() {
            Some(y) => {
                assert(presentes(s) + presentes(t0).push(y) =~= (presentes(s) + presentes(t0)).push(y));
            },
            None => {},
        }
    }
}

proof fn lemma_presentes_conta(s: Seq<Option<u64>>)
    ensures
        presentes(s).len() == s.filter(|v: Option<u64>| v is Some).len(),
    decreases s.len(),
{
    if s.len() > 0 {
        let s0 = s.drop_last();
        lemma_presentes_conta(s0);
        assert(s0.push(s.last()) =~= s);
        s0.lemma_filter_push(s.last(), |v: Option<u64>| v is Some);
    } else {
        reveal(Seq::filter);
    }
}

/// Median of the keys (position `len / 2` of the sorted keys), none when
/// there is no key.
pub open spec fn mediana_de(s: Seq<u64>) -> Option<u64> {
    if s.len() == 0 {
        None
    } else {
        Some(k_esima(s, (s.len() / 2) as int))
    }
}

/// First and third quartiles of the keys, none when there is no key.
pub open spec fn quartis_de(s: Seq<u64>) -> Option<(u64, u64)> {
    if s.len() == 0 {
        None
    } else {
        Some((k_esima(s, (s.len() / 4) as int), k_esima(s, (s.len() * 3 / 4) as int)))
    }
}

/// `t` holds the first `n` rows of the nominal columns `c`: the same
/// columns, each cut to its first `n` values.
pub open spec fn colunas_cortadas(
    c: Seq<(String, Vec<Option<String>>)>,
    t: Seq<(String, Vec<Option<String>>)>,
    n: int,
) -> bool {
    &&& t.len() == c.len()
    &&& forall|j: int|
        0 <= j < c.len() ==> (#[trigger] t[j]).0@ == c[j].0@ && t[j].1@ == c[j].1@.subrange(0, n)
}

/// Columns `c1` and `c2` agree on their first `n` rows.
pub open spec fn concordam_nas_primeiras(
    c1: Seq<(String, Vec<Option<String>>)>,
    c2: Seq<(String, Vec<Option<String>>)>,
    n: int,
) -> bool {
    &&& c1.len() == c2.len()
    &&& forall|j: int|
        0 <= j < c1.len() ==> (#[trigger] c1[j]).0@ == c2[j].0@ && c1[j].1@.subrange(0, n)
            == c2[j].1@.subrange(0, n)
}

/// The keys learned on the training rows.
pub struct ParametrosDeTreino {
    /// The one-hot pairs (column, category).
    pub onehot: Vec<(String, String)>,
    /// The median key of each numeric column.
    pub medianas: Vec<Option<u64>>,
    /// First and third quartile keys of the loss.
    pub quartis: Option<(u64, u64)>,
}

/// The present keys of a column.
pub fn valores_presentes(valores: &[Option<u64>]) -> (r: Vec<u64>)
    ensures
        r@ == presentes(valores@),
{
    let mut r: Vec<u64> = Vec::new();
    let mut i: usize = 0;
    while i < valores.len()
        invariant
            i <= valores@.len(),
            r@ == presentes(valores@.subrange(0, i as int)),
        decreases valores@.len() - i,
    {
        assert(valores@.subrange(0, i as int + 1).drop_last() =~= valores@.subrange(0, i as int));
        match valores[i] {
            Some(x) => {
                r.push(x);
            },
            None => {},
        }
        i = i + 1;
    }
    assert(valores@.subrange(0, valores@.len() as int) =~= valores@);
    r
}

fn cortar<T: Copy>(valores: &[T], n: usize) -> (r: Vec<T>)
    requires
        n <= valores@.len(),
    ensures
        r@ == valores@.subrange(0, n as int),
{
    let mut r: Vec<T> = Vec::new();
    let mut i: usize = 0;
    while i < n
        invariant
            i <= n <= valores@.len(),
            r@ == valores@.subrange(0, i as int),
        decreases n - i,
    {
        r.push(valores[i]);
        assert(r@ =~= valores@.subrange(0, i as int + 1));
        i = i + 1;
    }
    r
}

fn cortar_textos(valores: &[Option<String>], n: usize) -> (r: Vec<Option<String>>)
    requires
        n <= valores@.len(),
    ensures
        r@ == valores@.subrange(0, n as int),
{
    let mut r: Vec<Option<String>> = Vec::new();
    let mut i: usize = 0;
    while i < n
        invariant
            i <= n <= valores@.len(),
            r@ == valores@.subrange(0, i as int),
        decreases n - i,
    {
        let v = match &valores[i] {
            Some(s) => Some(s.clone()),
            None => None,
        };
        r.push(v);
        assert(r@ =~= valores@.subrange(0, i as int + 1));
        i = i + 1;
    }
    r
}

/// Learns the keys of the transform on the training rows of a frame of
/// `total` rows: the one-hot pairs of the nominal columns, the median of
/// each numeric column and the quartiles of the loss, all on the first
/// `floor(0.8 * total)` rows (the split index) and on nothing after them.
pub fn aprender_no_treino(
    nominais: &[(String, Vec<Option<String>>)],
    numericas: &[Vec<Option<u64>>],
    perdas: &[Option<u64>],
    total: usize,
) -> (r: ParametrosDeTreino)
    requires
        forall|j: int| 0 <= j < nominais@.len() ==> (#[trigger] nominais@[j]).1@.len() == total,
        forall|j: int| 0 <= j < numericas@.len() ==> (#[trigger] numericas@[j])@.len() == total,
        perdas@.len() == total,
    ensures
        exists|t: Seq<(String, Vec<Option<String>>)>|
            colunas_cortadas(nominais@, t, tamanho_treino(total as nat) as int) && vistas_pares(
                r.onehot@,
            ) == especificacoes_de(t),
        r.medianas@.len() == numericas@.len(),
        forall|j: int|
            0 <= j < numericas@.len() ==> #[trigger] r.medianas@[j] == mediana_de(
                presentes(numericas@[j]@.subrange(0, tamanho_treino(total as nat) as int)),
            ),
        r.quartis == quartis_de(presentes(perdas@.subrange(0, tamanho_treino(total as nat) as int))),
{
    let n = indice_divisao(total);
    let mut cortadas: Vec<(String, Vec<Option<String>>)> = Vec::new();
    let mut j: usize = 0;
    while j < nominais.len()
        invariant
            j <= nominais@.len(),
            n == tamanho_treino(total as nat),
            n <= total,
            forall|q: int| 0 <= q < nominais@.len() ==> (#[trigger] nominais@[q]).1@.len() == total,
            cortadas@.len() == j,
            forall|q: int|
                0 <= q < j ==> (#[trigger] cortadas@[q]).0@ == nominais@[q].0@ && cortadas@[q].1@
                    == nominais@[q].1@.subrange(0, n as int),
        decreases nominais@.len() - j,
    {
        let valores = cortar_textos(nominais[j].1.as_slice(), n);
        cortadas.push((nominais[j].0.clone(), valores));
        j = j + 1;
    }
    let onehot = especificacoes_one_hot(cortadas.as_slice());
    let mut medianas: Vec<Option<u64>> = Vec::new();
    let mut k: usize = 0;
    while k < numericas.len()
        invariant
            k <= numericas@.len(),
            n == tamanho_treino(total as nat),
            n <= total,
            forall|q: int| 0 <= q < numericas@.len() ==> (#[trigger] numericas@[q])@.len() == total,
            medianas@.len() == k,
            forall|q: int|
                0 <= q < k ==> #[trigger] medianas@[q] == mediana_de(
                    presentes(numericas@[q]@.subrange(0, n as int)),
                ),
        decreases numericas@.len() - k,
    {
        let treino = cortar(numericas[k].as_slice(), n);
        let chaves = valores_presentes(treino.as_slice());
        medianas.push(mediana(chaves.as_slice()));
        k = k + 1;
    }
    let perdas_treino = cortar(perdas, n);
    let chaves_perda = valores_presentes(perdas_treino.as_slice());
    let q = if chaves_perda.len() > 0 {
        Some(quartis(chaves_perda.as_slice()))
    } else {
        None
    };
    proof {
        assert(colunas_cortadas(nominais@, cortadas@, n as int));
    }
    ParametrosDeTreino { onehot, medianas, quartis: q }
}

proof fn lemma_pares_pelos_textos(
    a: Seq<(String, Vec<Option<String>>)>,
    b: Seq<(String, Vec<Option<String>>)>,
)
    requires
        a.len() == b.len(),
        forall|j: int| 0 <= j < a.len() ==> (#[trigger] a[j]).0@ == b[j].0@ && a[j].1@ == b[j].1@,
    ensures
        pares_das_colunas(a) == pares_das_colunas(b),
    decreases a.len(),
{
    if a.len() > 0 {
        let a0 = a.drop_last();
        let b0 = b.drop_last();
        assert forall|j: int| 0 <= j < a0.len() implies (#[trigger] a0[j]).0@ == b0[j].0@ && a0[j].1@
            == b0[j].1@ by {
            assert(a0[j] == a[j]);
            assert(b0[j] == b[j]);
        }
        lemma_pares_pelos_textos(a0, b0);
        assert(a.last() == a[a.len() - 1]);
        assert(b.last() == b[b.len() - 1]);
        assert(pares_da_coluna(a.last().0@, a.last().1@) == pares_da_coluna(b.last().0@, b.last().1@));
    }
}

/// What the gold layer learns depends on the training rows alone: two
/// frames of `total` rows that agree on their first `floor(0.8 * total)`
/// rows (whatever their test rows hold) give the same one-hot pairs, the
/// same medians and the same quartiles.
pub proof fn lei_aprende_so_no_treino(
    c1: Seq<(String, Vec<Option<String>>)>,
    c2: Seq<(String, Vec<Option<String>>)>,
    t1: Seq<(String, Vec<Option<String>>)>,
    t2: Seq<(String, Vec<Option<String>>)>,
    num1: Seq<Option<u64>>,
    num2: Seq<Option<u64>>,
    total: nat,
)
    requires
        concordam_nas_primeiras(c1, c2, tamanho_treino(total) as int),
        colunas_cortadas(c1, t1, tamanho_treino(total) as int),
        colunas_cortadas(c2, t2, tamanho_treino(total) as int),
        num1.len() == total,
        num2.len() == total,
        num1.subrange(0, tamanho_treino(total) as int) == num2.subrange(0, tamanho_treino(total) as int),
    ensures
        especificacoes_de(t1) == especificacoes_de(t2),
        mediana_de(presentes(num1.subrange(0, tamanho_treino(total) as int))) == mediana_de(
            presentes(num2.subrange(0, tamanho_treino(total) as int)),
        ),
        quartis_de(presentes(num1.subrange(0, tamanho_treino(total) as int))) == quartis_de(
            presentes(num2.subrange(0, tamanho_treino(total) as int)),
        ),
{
    assert forall|j: int| 0 <= j < t1.len() implies (#[trigger] t1[j]).0@ == t2[j].0@ && t1[j].1@
        == t2[j].1@ by {
        assert(c1[j].0@ == c2[j].0@);
    }
    lemma_pares_pelos_textos(t1, t2);
}

} // verus!
