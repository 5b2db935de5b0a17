//! The gold layer: train/test split, learned encodings and the handling of
//! missing values and outliers, over text values and order keys.
use vstd::prelude::*;

verus! {

/// Size of the training part of `total` records: 80% of them, rounded down.
pub open spec fn tamanho_treino(total: nat) -> nat {
    total * 4 / 5
}

/// Index at which the records are split into training (before it) and test
/// (from it on): `floor(total * 0.8)`.
pub fn indice_divisao(total: usize) -> (r: usize)
    ensures
        r == tamanho_treino(total as nat),
        r <= total,
{
    let q = total / 5;
    let resto = total % 5;
    proof {
        assert(total * 4 / 5 == q * 4 + resto * 4 / 5) by (nonlinear_arith)
            requires
                q == total / 5,
                resto == total % 5,
        ;
    }
    q * 4 + resto * 4 / 5
}

/// The split is 80/20: the training part holds `floor(0.8 * total)`
/// records, at most 80% of them and fewer than one record short of it, and
/// the test part holds the rest.
pub proof fn lei_divisao_80_20(total: nat)
    ensures
        5 * tamanho_treino(total) <= 4 * total < 5 * tamanho_treino(total) + 5,
        tamanho_treino(total) <= total,
        tamanho_treino(total) + (total - tamanho_treino(total)) == total,
{
}

/// A value limited from above: kept when at most `sup`, else `sup`; a
/// missing value stays missing.
pub open spec fn limitado_acima(v: Option<u64>, sup: u64) -> Option<u64> {
    match v {
        Some(x) => Some(if x > sup { sup } else { x }),
        None => None,
    }
}

/// A value limited to `[inf, sup]`: `sup` when above it, else `inf` when
/// below it, else kept; a missing value stays missing.
pub open spec fn limitado_intervalo(v: Option<u64>, inf: u64, sup: u64) -> Option<u64> {
    match v {
        Some(x) => Some(
            if x > sup {
                sup
            } else if x < inf {
                inf
            } else {
                x
            },
        ),
        None => None,
    }
}

/// A column limited from above, entry by entry.
pub open spec fn coluna_limitada_acima(valores: Seq<Option<u64>>, sup: u64) -> Seq<Option<u64>> {
    valores.map_values(|v: Option<u64>| limitado_acima(v, sup))
}

/// A column limited to `[inf, sup]`, entry by entry.
pub open spec fn coluna_limitada_intervalo(valores: Seq<Option<u64>>, inf: u64, sup: u64) -> Seq<
    Option<u64>,
> {
    valores.map_values(|v: Option<u64>| limitado_intervalo(v, inf, sup))
}

/// An entry with its missing value filled.
pub open spec fn preenchido(v: Option<u64>, preenchimento: u64) -> u64 {
    match v {
        Some(x) => x,
        None => preenchimento,
    }
}

/// A column with its missing values filled, entry by entry.
pub open spec fn coluna_preenchida(valores: Seq<Option<u64>>, preenchimento: u64) -> Seq<u64> {
    valores.map_values(|v: Option<u64>| preenchido(v, preenchimento))
}

/// Clips the outliers above a bound (the upper IQR fence learned on the
/// training part).
pub fn limitar_superior(valores: &[Option<u64>], sup: u64) -> (r: Vec<Option<u64>>)
    ensures
        r@.len() == valores@.len(),
        forall|i: int| 0 <= i < valores@.len() ==> #[trigger] r@[i] == limitado_acima(valores@[i], sup),
        r@ == coluna_limitada_acima(valores@, sup),
{
    let mut r: Vec<Option<u64>> = Vec::new();
    let mut i: usize = 0;
    while i < valores.len()
        invariant
            i <= valores@.len(),
            r@.len() == i,
            forall|j: int| 0 <= j < i ==> #[trigger] r@[j] == limitado_acima(valores@[j], sup),
        decreases valores@.len() - i,
    {
        let v = match valores[i] {
            Some(x) => Some(if x > sup { sup } else { x }),
            None => None,
        };
        r.push(v);
        i = i + 1;
    }
    assert(r@ =~= coluna_limitada_acima(valores@, sup));
    r
}

/// Clips the values to the bounds learned on the training part (mean plus
/// or minus three deviations).
pub fn limitar_intervalo(valores: &[Option<u64>], inf: u64, sup: u64) -> (r: Vec<Option<u64>>)
    ensures
        r@.len() == valores@.len(),
        forall|i: int|
            0 <= i < valores@.len() ==> #[trigger] r@[i] == limitado_intervalo(valores@[i], inf, sup),
        r@ == coluna_limitada_intervalo(valores@, inf, sup),
{
    let mut r: Vec<Option<u64>> = Vec::new();
    let mut i: usize = 0;
    while i < valores.len()
        invariant
            i <= valores@.len(),
            r@.len() == i,
            forall|j: int|
                0 <= j < i ==> #[trigger] r@[j] == limitado_intervalo(valores@[j], inf, sup),
        decreases valores@.len() - i,
    {
        let v = match valores[i] {
            Some(x) => Some(
                if x > sup {
                    sup
                } else if x < inf {
                    inf
                } else {
                    x
                },
            ),
            None => None,
        };
        r.push(v);
        i = i + 1;
    }
    assert(r@ =~= coluna_limitada_intervalo(valores@, inf, sup));
    r
}

/// Fills the missing values with a fixed value (the median learned on the
/// training part); present values are kept.
pub fn preencher_nulos(valores: &[Option<u64>], preenchimento: u64) -> (r: Vec<u64>)
    ensures
        r@.len() == valores@.len(),
        forall|i: int|
            0 <= i < valores@.len() ==> #[trigger] r@[i] == match valores@[i] {
                Some(x) => x,
                None => preenchimento,
            },
        r@ == coluna_preenchida(valores@, preenchimento),
{
    let mut r: Vec<u64> = Vec::new();
    let mut i: usize = 0;
    while i < valores.len()
        invariant
            i <= valores@.len(),
            r@.len() == i,
            forall|j: int|
                0 <= j < i ==> #[trigger] r@[j] == match valores@[j] {
                    Some(x) => x,
                    None => preenchimento,
                },
        decreases valores@.len() - i,
    {
        let v = match valores[i] {
            Some(x) => x,
            None => preenchimento,
        };
        r.push(v);
        i = i + 1;
    }
    assert(r@ =~= coluna_preenchida(valores@, preenchimento));
    r
}

/// Label encoding of an ordinal entry already read as an `i32` (missing
/// when the text is not a number): a missing entry becomes 0, a
/// non-negative level is kept, and a negative one, which has no unsigned
/// code, becomes missing.
pub open spec fn nivel_ordinal(v: Option<i32>) -> Option<u32> {
    match v {
        None => Some(0u32),
        Some(x) => if x >= 0 {
            Some(x as u32)
        } else {
            None
        },
    }
}

/// An ordinal column label-encoded, entry by entry.
pub open spec fn coluna_ordinal(valores: Seq<Option<i32>>) -> Seq<Option<u32>> {
    valores.map_values(|v: Option<i32>| nivel_ordinal(v))
}

/// Label-encodes an ordinal column (the confidence tier) from its entries
/// read as `i32`: missing entries become level 0, the order of the levels
/// is kept, and negative levels become missing.
pub fn codificar_ordinal(valores: &[Option<i32>]) -> (r: Vec<Option<u32>>)
    ensures
        r@ == coluna_ordinal(valores@),
{
    let mut r: Vec<Option<u32>> = Vec::new();
    let mut i: usize = 0;
    while i < valores.len()
        invariant
            i <= valores@.len(),
            r@.len() == i,
            forall|j: int| 0 <= j < i ==> #[trigger] r@[j] == nivel_ordinal(valores@[j]),
        decreases valores@.len() - i,
    {
        let v: Option<u32> = match valores[i] {
            None => Some(0),
            Some(x) => if x >= 0 {
                Some(x as u32)
            } else {
                None
            },
        };
        r.push(v);
        i = i + 1;
    }
    assert(r@ =~= coluna_ordinal(valores@));
    r
}

/// The label encoding keeps the order of the levels: a higher level never
/// gets a lower code.
pub proof fn lei_ordinal_preserva_ordem(a: i32, b: i32)
    requires
        0 <= a <= b,
    ensures
        nivel_ordinal(Some(a)) matches Some(x) && nivel_ordinal(Some(b)) matches Some(y) && x <= y,
{
}

/// Clipping is idempotent and bounded: a clipped value never exceeds the
/// bound (nor, for an interval with `inf <= sup`, leaves `[inf, sup]`),
/// values already inside are kept, and clipping twice is clipping once.
pub proof fn lei_limites(v: Option<u64>, inf: u64, sup: u64)
    ensures
        limitado_acima(limitado_acima(v, sup), sup) == limitado_acima(v, sup),
        limitado_acima(v, sup) matches Some(y) ==> y <= sup,
        v matches Some(x) && x <= sup ==> limitado_acima(v, sup) == v,
        inf <= sup ==> limitado_intervalo(limitado_intervalo(v, inf, sup), inf, sup) == limitado_intervalo(
            v,
            inf,
            sup,
        ),
        inf <= sup ==> (limitado_intervalo(v, inf, sup) matches Some(y) ==> inf <= y <= sup),
        v matches Some(x) && inf <= x <= sup ==> limitado_intervalo(v, inf, sup) == v,
        v is None ==> limitado_acima(v, sup) is None && limitado_intervalo(v, inf, sup) is None,
{
}

/// Clipping from above brings every value over the bound to the bound
/// itself and keeps the others: the clipped value exceeds neither the
/// original nor the bound and is one of the two (so it is the smaller of
/// them), and clipping keeps the order of the values.
pub proof fn lei_corte_superior(x: u64, y: u64, sup: u64)
    ensures
        x > sup ==> limitado_acima(Some(x), sup) == Some(sup),
        x <= sup ==> limitado_acima(Some(x), sup) == Some(x),
        limitado_acima(Some(x), sup) matches Some(c) && c <= x && c <= sup && (c == x || c == sup),
        x <= y ==> (limitado_acima(Some(x), sup) matches Some(cx) && limitado_acima(Some(y), sup) matches Some(
            cy,
        ) && cx <= cy),
{
}

/// Clipping to an interval brings a value over the upper bound to that
/// bound, a value under the lower bound (and not over the upper one) to the
/// lower bound, and keeps the others; for `inf <= sup` the clipped value is
/// the point of `[inf, sup]` nearest the original, and clipping keeps the
/// order of the values.
pub proof fn lei_corte_intervalo(x: u64, y: u64, inf: u64, sup: u64)
    ensures
        x > sup ==> limitado_intervalo(Some(x), inf, sup) == Some(sup),
        x <= sup && x < inf ==> limitado_intervalo(Some(x), inf, sup) == Some(inf),
        inf <= x <= sup ==> limitado_intervalo(Some(x), inf, sup) == Some(x),
        inf <= sup ==> (limitado_intervalo(Some(x), inf, sup) matches Some(c) && inf <= c <= sup && (
        forall|z: int|
            inf <= z <= sup ==> distancia(c as int, x as int) <= #[trigger] distancia(z, x as int))),
        inf <= sup && x <= y ==> (limitado_intervalo(Some(x), inf, sup) matches Some(cx)
            && limitado_intervalo(Some(y), inf, sup) matches Some(cy) && cx <= cy),
{
}

/// Distance between two integers.
pub open spec fn distancia(a: int, b: int) -> int {
    if a >= b {
        a - b
    } else {
        b - a
    }
}

/// The label encoding keeps the level itself: a non-negative level is its
/// own code, a missing level gets the code of level 0, a negative level
/// gets none, and distinct non-negative levels get distinct codes in the
/// same order.
pub proof fn lei_ordinal_mantem_nivel(a: i32, b: i32)
    ensures
        a >= 0 ==> (nivel_ordinal(Some(a)) matches Some(c) && c == a),
        nivel_ordinal(None) == nivel_ordinal(Some(0i32)),
        a < 0 ==> nivel_ordinal(Some(a)) is None,
        0 <= a < b ==> (nivel_ordinal(Some(a)) matches Some(x) && nivel_ordinal(Some(b)) matches Some(y)
            && x < y),
{
}

/// One-hot indicator of a category for one entry: 1 when the entry is
/// present and equal to the category, else 0.
pub open spec fn indicador(v: Option<String>, categoria: Seq<char>) -> u32 {
    match v {
        Some(s) => if s@ == categoria {
            1u32
        } else {
            0u32
        },
        None => 0u32,
    }
}

/// The dummy column of a category, entry by entry.
pub open spec fn coluna_one_hot(valores: Seq<Option<String>>, categoria: Seq<char>) -> Seq<u32> {
    valores.map_values(|v: Option<String>| indicador(v, categoria))
}

/// One-hot encodes a nominal column for one category: the dummy column of
/// that category.
pub fn codificar_one_hot(valores: &[Option<String>], categoria: &String) -> (r: Vec<u32>)
    ensures
        r@.len() == valores@.len(),
        forall|i: int| 0 <= i < valores@.len() ==> #[trigger] r@[i] == indicador(valores@[i], categoria@),
        r@ == coluna_one_hot(valores@, categoria@),
{
    let mut r: Vec<u32> = Vec::new();
    let mut i: usize = 0;
    while i < valores.len()
        invariant
            i <= valores@.len(),
            r@.len() == i,
            forall|j: int| 0 <= j < i ==> #[trigger] r@[j] == indicador(valores@[j], categoria@),
        decreases valores@.len() - i,
    {
        let b: u32 = match &valores[i] {
            Some(s) => if *s == *categoria {
                1
            } else {
                0
            },
            None => 0,
        };
        r.push(b);
        i = i + 1;
    }
    assert(r@ =~= coluna_one_hot(valores@, categoria@));
    r
}

/// Every step of the transform works row by row with the learned
/// parameters alone: transforming two blocks of rows stacked one on the
/// other gives the two transformed blocks stacked, so no statistic of the
/// frame being transformed (the test part) enters its result.
pub proof fn lei_transformacao_por_linha(
    oa: Seq<Option<i32>>,
    ob: Seq<Option<i32>>,
    ca: Seq<Option<String>>,
    cb: Seq<Option<String>>,
    categoria: Seq<char>,
    na: Seq<Option<u64>>,
    nb: Seq<Option<u64>>,
    preenchimento: u64,
    inf: u64,
    sup: u64,
)
    ensures
        coluna_ordinal(oa + ob) == coluna_ordinal(oa) + coluna_ordinal(ob),
        coluna_one_hot(ca + cb, categoria) == coluna_one_hot(ca, categoria) + coluna_one_hot(
            cb,
            categoria,
        ),
        coluna_preenchida(na + nb, preenchimento) == coluna_preenchida(na, preenchimento)
            + coluna_preenchida(nb, preenchimento),
        coluna_limitada_acima(na + nb, sup) == coluna_limitada_acima(na, sup) + coluna_limitada_acima(
            nb,
            sup,
        ),
        coluna_limitada_intervalo(na + nb, inf, sup) == coluna_limitada_intervalo(na, inf, sup)
            + coluna_limitada_intervalo(nb, inf, sup),
{
    assert(coluna_ordinal(oa + ob) =~= coluna_ordinal(oa) + coluna_ordinal(ob));
    assert(coluna_one_hot(ca + cb, categoria) =~= coluna_one_hot(ca, categoria) + coluna_one_hot(
        cb,
        categoria,
    ));
    assert(coluna_preenchida(na + nb, preenchimento) =~= coluna_preenchida(na, preenchimento)
        + coluna_preenchida(nb, preenchimento));
    assert(coluna_limitada_acima(na + nb, sup) =~= coluna_limitada_acima(na, sup)
        + coluna_limitada_acima(nb, sup));
    assert(coluna_limitada_intervalo(na + nb, inf, sup) =~= coluna_limitada_intervalo(na, inf, sup)
        + coluna_limitada_intervalo(nb, inf, sup));
}

/// Name of the dummy column of a category: `"{coluna}_{categoria}"`.
pub fn nome_coluna_one_hot(coluna: &String, categoria: &String) -> (r: String)
    ensures
        r@ == coluna@ + "_"@ + categoria@,
{
    let mut r = coluna.clone();
    r.append("_");
    r.append(categoria.as_str());
    r
}

/// The (column, category) pairs met in one column, in row order, missing
/// entries skipped.
pub open spec fn pares_da_coluna(nome: Seq<char>, valores: Seq<Option<String>>) -> Seq<
    (Seq<char>, Seq<char>),
>
    decreases valores.len(),
{
    if valores.len() == 0 {
        Seq::empty()
    } else {
        let anteriores = pares_da_coluna(nome, valores.drop_last());
        match valores.last() {
            Some(v) => anteriores.push((nome, v@)),
            None => anteriores,
        }
    }
}

/// The (column, category) pairs met in the columns, column after column.
pub open spec fn pares_das_colunas(colunas: Seq<(String, Vec<Option<String>>)>) -> Seq<
    (Seq<char>, Seq<char>),
>
    decreases colunas.len(),
{
    if colunas.len() == 0 {
        Seq::empty()
    } else {
        pares_das_colunas(colunas.drop_last()) + pares_da_coluna(
            colunas.last().0@,
            colunas.last().1@,
        )
    }
}

/// The texts of a list of (column, category) pairs.
pub open spec fn vistas_pares(pares: Seq<(String, String)>) -> Seq<(Seq<char>, Seq<char>)> {
    pares.map_values(|p: (String, String)| (p.0@, p.1@))
}

/// The one-hot specification learned from the nominal columns: each
/// (column, category) pair met, once, in order of first appearance.
pub open spec fn especificacoes_de(colunas: Seq<(String, Vec<Option<String>>)>) -> Seq<
    (Seq<char>, Seq<char>),
> {
    pares_das_colunas(colunas).remove_duplicates(Seq::empty())
}

fn contem_par(pares: &Vec<(String, String)>, nome: &String, valor: &String) -> (r: bool)
    ensures
        r == vistas_pares(pares@).contains((nome@, valor@)),
{
    let mut i: usize = 0;
    while i < pares.len()
        invariant
            i <= pares@.len(),
            forall|j: int| 0 <= j < i ==> #[trigger] vistas_pares(pares@)[j] != (nome@, valor@),
        decreases pares@.len() - i,
    {
        if pares[i].0 == *nome && pares[i].1 == *valor {
            assert(vistas_pares(pares@)[i as int] == (nome@, valor@));
            return true;
        }
        i = i + 1;
    }
    false
}

/// Adding one pair to the pairs seen keeps the learned specification in
/// step with the deduplicated pairs.
proof fn lemma_acrescenta_par(vistos: Seq<(Seq<char>, Seq<char>)>, x: (Seq<char>, Seq<char>))
    ensures
        vistos.remove_duplicates(Seq::empty()).contains(x) <==> vistos.contains(x),
        vistos.contains(x) ==> vistos.push(x).remove_duplicates(Seq::empty())
            == vistos.remove_duplicates(Seq::empty()),
        !vistos.contains(x) ==> vistos.push(x).remove_duplicates(Seq::empty())
            == vistos.remove_duplicates(Seq::empty()).push(x),
{
    let vazio = Seq::<(Seq<char>, Seq<char>)>::empty();
    vistos.lemma_remove_duplicates_properties(vazio);
    vistos.lemma_remove_duplicates_append(x, vazio);
    assert(vistos + vazio =~= vistos);
    assert(vistos + seq![x] =~= vistos.push(x));
    assert(vistos.remove_duplicates(vazio) + seq![x] =~= vistos.remove_duplicates(vazio).push(x));
}

/// Learns the one-hot specification from the training values of the nominal
/// columns (name and values of each column).
pub fn especificacoes_one_hot(colunas: &[(String, Vec<Option<String>>)]) -> (r: Vec<(String, String)>)
    ensures
        vistas_pares(r@) == especificacoes_de(colunas@),
{
    let mut r: Vec<(String, String)> = Vec::new();
    let mut j: usize = 0;
    assert(pares_das_colunas(colunas@.subrange(0, 0)).remove_duplicates(Seq::empty()) =~= Seq::<
        (Seq<char>, Seq<char>),
    >::empty());
    while j < colunas.len()
        invariant
            j <= colunas@.len(),
            vistas_pares(r@) == pares_das_colunas(colunas@.subrange(0, j as int)).remove_duplicates(
                Seq::empty(),
            ),
        decreases colunas@.len() - j,
    {
        let nome = &colunas[j].0;
        let valores = &colunas[j].1;
        let ghost base = pares_das_colunas(colunas@.subrange(0, j as int));
        let mut k: usize = 0;
        assert(base + pares_da_coluna(nome@, valores@.subrange(0, 0)) =~= base);
        while k < valores.len()
            invariant
                k <= valores@.len(),
                nome == &colunas@[j as int].0,
                valores == &colunas@[j as int].1,
                vistas_pares(r@) == (base + pares_da_coluna(
                    nome@,
                    valores@.subrange(0, k as int),
                )).remove_duplicates(Seq::empty()),
            decreases valores@.len() - k,
        {
            let ghost vistos = base + pares_da_coluna(nome@, valores@.subrange(0, k as int));
            assert(valores@.subrange(0, k as int + 1).drop_last() =~= valores@.subrange(0, k as int));
            match &valores[k] {
                Some(v) => {
                    let ghost x = (nome@, v@);
                    assert(base + pares_da_coluna(nome@, valores@.subrange(0, k as int + 1))
                        =~= vistos.push(x));
                    proof {
                        lemma_acrescenta_par(vistos, x);
                    }
                    let ja = contem_par(&r, nome, v);
                    if !ja {
                        let ghost antes = r@;
                        r.push((nome.clone(), v.clone()));
                        assert(vistas_pares(r@) =~= vistas_pares(antes).push(x));
                    }
                },
                None => {
                    assert(base + pares_da_coluna(nome@, valores@.subrange(0, k as int + 1))
                        =~= vistos);
                },
            }
            k = k + 1;
        }
        proof {
            assert(valores@.subrange(0, valores@.len() as int) =~= valores@);
            assert(colunas@.subrange(0, j as int + 1).drop_last() =~= colunas@.subrange(0, j as int));
        }
        j = j + 1;
    }
    assert(colunas@.subrange(0, colunas@.len() as int) =~= colunas@);
    r
}

proof fn lemma_sem_repeticoes(s: Seq<(Seq<char>, Seq<char>)>)
    ensures
        s.remove_duplicates(Seq::empty()).no_duplicates(),
    decreases s.len(),
{
    if s.len() > 0 {
        let ant = s.drop_last();
        let x = s.last();
        lemma_sem_repeticoes(ant);
        lemma_acrescenta_par(ant, x);
        assert(ant.push(x) =~= s);
    }
}

proof fn lemma_um_so(s: Seq<(Seq<char>, Seq<char>)>, x: (Seq<char>, Seq<char>))
    requires
        s.no_duplicates(),
        s.contains(x),
    ensures
        s.filter(|e: (Seq<char>, Seq<char>)| e == x).len() == 1,
    decreases s.len(),
{
    let f = |e: (Seq<char>, Seq<char>)| e == x;
    let ant = s.drop_last();
    assert(ant.push(s.last()) =~= s);
    ant.lemma_filter_push(s.last(), f);
    if s.last() == x {
        assert forall|i: int| 0 <= i < ant.len() implies !f(#[trigger] ant[i]) by {
            assert(s[i] == ant[i]);
            assert(s[i] != s[s.len() - 1]);
        }
        assert(ant.all(|e: (Seq<char>, Seq<char>)| !f(e)));
        ant.lemma_all_neg_filter_empty(f);
    } else {
        let i = choose|i: int| 0 <= i < s.len() && s[i] == x;
        assert(ant[i] == x);
        lemma_um_so(ant, x);
    }
}

proof fn lemma_par_da_coluna(nome: Seq<char>, valores: Seq<Option<String>>, i: int, v: String)
    requires
        0 <= i < valores.len(),
        valores[i] == Some(v),
    ensures
        pares_da_coluna(nome, valores).contains((nome, v@)),
    decreases valores.len(),
{
    let ant = valores.drop_last();
    if i < valores.len() - 1 {
        assert(ant[i] == valores[i]);
        lemma_par_da_coluna(nome, ant, i, v);
        let p = pares_da_coluna(nome, ant);
        let k = choose|k: int| 0 <= k < p.len() && p[k] == (nome, v@);
        match valores.last() {
            Some(w) => {
                assert(pares_da_coluna(nome, valores)[k] == (nome, v@));
            },
            None => {},
        }
    } else {
        let p = pares_da_coluna(nome, valores);
        assert(p[p.len() - 1] == (nome, v@));
    }
}

proof fn lemma_par_das_colunas(
    colunas: Seq<(String, Vec<Option<String>>)>,
    j: int,
    i: int,
    v: String,
)
    requires
        0 <= j < colunas.len(),
        0 <= i < colunas[j].1@.len(),
        colunas[j].1@[i] == Some(v),
    ensures
        pares_das_colunas(colunas).contains((colunas[j].0@, v@)),
    decreases colunas.len(),
{
    let ant = colunas.drop_last();
    let a = pares_das_colunas(ant);
    let b = pares_da_coluna(colunas.last().0@, colunas.last().1@);
    assert(pares_das_colunas(colunas) == a + b);
    if j < colunas.len() - 1 {
        assert(ant[j] == colunas[j]);
        lemma_par_das_colunas(ant, j, i, v);
        let k = choose|k: int| 0 <= k < a.len() && a[k] == (colunas[j].0@, v@);
        assert((a + b)[k] == (colunas[j].0@, v@));
    } else {
        lemma_par_da_coluna(colunas.last().0@, colunas.last().1@, i, v);
        let k = choose|k: int| 0 <= k < b.len() && b[k] == (colunas[j].0@, v@);
        assert((a + b)[a.len() + k] == (colunas[j].0@, v@));
    }
}

/// A value of a column, as text.
pub open spec fn tem_valor(valores: Seq<Option<String>>, v: Seq<char>) -> bool {
    exists|i: int| 0 <= i < valores.len() && (#[trigger] valores[i] matches Some(w) && w@ == v)
}

proof fn lemma_contem_par_coluna(
    nome: Seq<char>,
    valores: Seq<Option<String>>,
    x: (Seq<char>, Seq<char>),
)
    ensures
        pares_da_coluna(nome, valores).contains(x) <==> (x.0 == nome && tem_valor(valores, x.1)),
    decreases valores.len(),
{
    if valores.len() > 0 {
        let ant = valores.drop_last();
        lemma_contem_par_coluna(nome, ant, x);
        let p = pares_da_coluna(nome, ant);
        if tem_valor(ant, x.1) {
            let i = choose|i: int| 0 <= i < ant.len() && (#[trigger] ant[i] matches Some(w) && w@ == x.1);
            assert(valores[i] == ant[i]);
        }
        if tem_valor(valores, x.1) {
            let i = choose|i: int|
                0 <= i < valores.len() && (#[trigger] valores[i] matches Some(w) && w@ == x.1);
            if i < valores.len() - 1 {
                assert(ant[i] == valores[i]);
            }
        }
        match valores.last() {
            Some(w) => {
                let q = p.push((nome, w@));
                if q.contains(x) {
                    let k = choose|k: int| 0 <= k < q.len() && q[k] == x;
                    if k < p.len() {
                        assert(p[k] == x);
                    }
                }
                if p.contains(x) {
                    let k = choose|k: int| 0 <= k < p.len() && p[k] == x;
                    assert(q[k] == x);
                }
                if x == (nome, w@) {
                    assert(q[q.len() - 1] == x);
                }
            },
            None => {},
        }
    } else {
        assert(pares_da_coluna(nome, valores) =~= Seq::empty());
    }
}

proof fn lemma_contem_par_colunas(
    colunas: Seq<(String, Vec<Option<String>>)>,
    x: (Seq<char>, Seq<char>),
)
    ensures
        pares_das_colunas(colunas).contains(x) <==> exists|j: int|
            0 <= j < colunas.len() && #[trigger] pares_da_coluna(colunas[j].0@, colunas[j].1@).contains(x),
    decreases colunas.len(),
{
    if colunas.len() > 0 {
        let ant = colunas.drop_last();
        lemma_contem_par_colunas(ant, x);
        let a = pares_das_colunas(ant);
        let b = pares_da_coluna(colunas.last().0@, colunas.last().1@);
        assert(pares_das_colunas(colunas) == a + b);
        if (a + b).contains(x) {
            let k = choose|k: int| 0 <= k < (a + b).len() && (a + b)[k] == x;
            if k < a.len() {
                assert(a[k] == x);
                let j = choose|j: int|
                    0 <= j < ant.len() && #[trigger] pares_da_coluna(ant[j].0@, ant[j].1@).contains(x);
                assert(colunas[j] == ant[j]);
                assert(pares_da_coluna(colunas[j].0@, colunas[j].1@).contains(x));
            } else {
                assert(b[k - a.len()] == x);
                let u = colunas.len() - 1;
                assert(colunas[u] == colunas.last());
                assert(pares_da_coluna(colunas[u].0@, colunas[u].1@).contains(x));
            }
        }
        if exists|j: int|
            0 <= j < colunas.len() && #[trigger] pares_da_coluna(colunas[j].0@, colunas[j].1@).contains(
                x,
            ) {
            let j = choose|j: int|
                0 <= j < colunas.len() && #[trigger] pares_da_coluna(colunas[j].0@, colunas[j].1@).contains(
                    x,
                );
            if j < colunas.len() - 1 {
                assert(ant[j] == colunas[j]);
                let k = choose|k: int| 0 <= k < a.len() && a[k] == x;
                assert((a + b)[k] == x);
            } else {
                let k = choose|k: int| 0 <= k < b.len() && b[k] == x;
                assert((a + b)[a.len() + k] == x);
            }
        }
    } else {
        assert(pares_das_colunas(colunas) =~= Seq::empty());
    }
}

proof fn lemma_mesmos_valores(a: Seq<Option<String>>, b: Seq<Option<String>>, v: Seq<char>)
    requires
        a.to_multiset() == b.to_multiset(),
    ensures
        tem_valor(a, v) ==> tem_valor(b, v),
{
    broadcast use vstd::seq_lib::group_to_multiset_ensures;

    if tem_valor(a, v) {
        let i = choose|i: int| 0 <= i < a.len() && (#[trigger] a[i] matches Some(w) && w@ == v);
        assert(a.contains(a[i]));
        assert(a.to_multiset().count(a[i]) > 0);
        assert(b.contains(a[i]));
        let k = choose|k: int| 0 <= k < b.len() && b[k] == a[i];
        assert(b[k] matches Some(w) && w@ == v);
    }
}

/// The learned one-hot specification does not depend on the order of the
/// rows: columns with the same names holding the same values (each one a
/// permutation of the other) give the same (column, category) pairs, each
/// once, so one specification is a permutation of the other.
pub proof fn lei_one_hot_independe_da_ordem(
    c1: Seq<(String, Vec<Option<String>>)>,
    c2: Seq<(String, Vec<Option<String>>)>,
)
    requires
        c1.len() == c2.len(),
        forall|j: int|
            0 <= j < c1.len() ==> (#[trigger] c1[j]).0@ == c2[j].0@ && c1[j].1@.to_multiset()
                == c2[j].1@.to_multiset(),
    ensures
        forall|x: (Seq<char>, Seq<char>)|
            #[trigger] especificacoes_de(c1).contains(x) <==> especificacoes_de(c2).contains(x),
        especificacoes_de(c1).no_duplicates(),
        especificacoes_de(c2).no_duplicates(),
        especificacoes_de(c1).to_multiset() == especificacoes_de(c2).to_multiset(),
{
    let e1 = especificacoes_de(c1);
    let e2 = especificacoes_de(c2);
    assert forall|x: (Seq<char>, Seq<char>)| #[trigger] e1.contains(x) <==> e2.contains(x) by {
        lemma_acrescenta_par(pares_das_colunas(c1), x);
        lemma_acrescenta_par(pares_das_colunas(c2), x);
        lemma_contem_par_colunas(c1, x);
        lemma_contem_par_colunas(c2, x);
        if pares_das_colunas(c1).contains(x) {
            let j = choose|j: int|
                0 <= j < c1.len() && #[trigger] pares_da_coluna(c1[j].0@, c1[j].1@).contains(x);
            lemma_contem_par_coluna(c1[j].0@, c1[j].1@, x);
            lemma_contem_par_coluna(c2[j].0@, c2[j].1@, x);
            lemma_mesmos_valores(c1[j].1@, c2[j].1@, x.1);
            assert(pares_da_coluna(c2[j].0@, c2[j].1@).contains(x));
        }
        if pares_das_colunas(c2).contains(x) {
            let j = choose|j: int|
                0 <= j < c2.len() && #[trigger] pares_da_coluna(c2[j].0@, c2[j].1@).contains(x);
            assert(c1[j].0@ == c2[j].0@);
            lemma_contem_par_coluna(c1[j].0@, c1[j].1@, x);
            lemma_contem_par_coluna(c2[j].0@, c2[j].1@, x);
            lemma_mesmos_valores(c2[j].1@, c1[j].1@, x.1);
            assert(pares_da_coluna(c1[j].0@, c1[j].1@).contains(x));
        }
    }
    lemma_sem_repeticoes(pares_das_colunas(c1));
    lemma_sem_repeticoes(pares_das_colunas(c2));
    e1.lemma_multiset_has_no_duplicates();
    e2.lemma_multiset_has_no_duplicates();
    assert forall|x: (Seq<char>, Seq<char>)| e1.to_multiset().count(x) == e2.to_multiset().count(x) by {
        broadcast use vstd::seq_lib::group_to_multiset_ensures;

        if e1.contains(x) {
            assert(e1.to_multiset().contains(x));
            assert(e2.to_multiset().contains(x));
        } else {
            assert(!e2.contains(x));
        }
    }
    assert(e1.to_multiset() =~= e2.to_multiset());
}

/// One-hot encoding with the specification learned on some columns gives
/// every present entry of those columns exactly one dummy column with
/// indicator 1 among the dummy columns of its own column.
pub proof fn lei_one_hot_um_indicador(
    colunas: Seq<(String, Vec<Option<String>>)>,
    j: int,
    i: int,
    v: String,
)
    requires
        0 <= j < colunas.len(),
        0 <= i < colunas[j].1@.len(),
        colunas[j].1@[i] == Some(v),
    ensures
        especificacoes_de(colunas).filter(
            |e: (Seq<char>, Seq<char>)|
                e.0 == colunas[j].0@ && indicador(Some(v), e.1) == 1,
        ).len() == 1,
{
    let x = (colunas[j].0@, v@);
    let todos = pares_das_colunas(colunas);
    lemma_par_das_colunas(colunas, j, i, v);
    lemma_acrescenta_par(todos, x);
    lemma_sem_repeticoes(todos);
    lemma_um_so(especificacoes_de(colunas), x);
    let f = |e: (Seq<char>, Seq<char>)| e == x;
    let g = |e: (Seq<char>, Seq<char>)| e.0 == colunas[j].0@ && indicador(Some(v), e.1) == 1;
    assert(f =~= g);
}

} // verus!
