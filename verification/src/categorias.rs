//! Category frequencies of the exploratory analysis: how many incidents
//! each category (industry, kind of data stolen) has, and the most frequent
//! ones for the charts.
use vstd::prelude::*;

verus! {

/// Text of an optional category.
pub open spec fn vista_categoria(c: Option<String>) -> Option<Seq<char>> {
    match c {
        Some(s) => Some(s@),
        None => None,
    }
}

/// Texts of a column of optional categories.
pub open spec fn vistas_categorias(s: Seq<Option<String>>) -> Seq<Option<Seq<char>>> {
    s.map_values(|c: Option<String>| vista_categoria(c))
}

/// Being the category `c`.
pub open spec fn igual_a(c: Option<Seq<char>>) -> spec_fn(Option<Seq<char>>) -> bool {
    |x: Option<Seq<char>>| x == c
}

/// Number of entries of `s` equal to `c` (the missing category counts as one
/// category of its own).
pub open spec fn ocorrencias(s: Seq<Option<Seq<char>>>, c: Option<Seq<char>>) -> nat {
    s.filter(igual_a(c)).len()
}

/// The categories of a list of (category, count) entries.
pub open spec fn categorias_de(r: Seq<(Option<String>, usize)>) -> Seq<Option<Seq<char>>> {
    r.map_values(|p: (Option<String>, usize)| vista_categoria(p.0))
}

/// Category `a` appears in `s` before category `b` first appears.
pub open spec fn antes_em(s: Seq<Option<Seq<char>>>, a: Option<Seq<char>>, b: Option<Seq<char>>) -> bool {
    exists|i: int| 0 <= i < s.len() && #[trigger] s[i] == a && forall|j: int| 0 <= j <= i ==> s[j] != b
}

/// A ranking of the most frequent categories of `s`, at most `limite` of
/// them: each category once with its number of entries, from the most
/// frequent down, equally frequent ones in order of first appearance in
/// `s`, and no category left out unless the ranking is full and that
/// category comes after the last one ranked in that order.
pub open spec fn ranking_valido(s: Seq<Option<Seq<char>>>, r: Seq<(Option<String>, usize)>, limite: nat) -> bool {
    &&& r.len() <= limite
    &&& forall|i: int|
        0 <= i < r.len() ==> (#[trigger] r[i]).1 == ocorrencias(s, vista_categoria(r[i].0))
            && r[i].1 > 0
    &&& categorias_de(r).no_duplicates()
    &&& forall|i: int, j: int| 0 <= i <= j < r.len() ==> (#[trigger] r[i]).1 >= (#[trigger] r[j]).1
    &&& forall|i: int, j: int|
        0 <= i < j < r.len() && (#[trigger] r[i]).1 == (#[trigger] r[j]).1 ==> antes_em(
            s,
            vista_categoria(r[i].0),
            vista_categoria(r[j].0),
        )
    &&& forall|c: Option<Seq<char>>|
        #[trigger] s.contains(c) && !categorias_de(r).contains(c) ==> r.len() == limite && (limite > 0
            ==> (ocorrencias(s, c) < r[limite - 1].1 || (ocorrencias(s, c) == r[limite - 1].1
            && antes_em(s, vista_categoria(r[limite - 1].0), c))))
}

fn mesma_categoria(a: &Option<String>, b: &Option<String>) -> (r: bool)
    ensures
        r == (vista_categoria(*a) == vista_categoria(*b)),
{
    match (a, b) {
        (Some(x), Some(y)) => *x == *y,
        (None, None) => true,
        _ => false,
    }
}

fn copia_categoria(a: &Option<String>) -> (r: Option<String>)
    ensures
        vista_categoria(r) == vista_categoria(*a),
{
    match a {
        Some(x) => Some(x.clone()),
        None => None,
    }
}

proof fn lemma_antes_push(
    s: Seq<Option<Seq<char>>>,
    x: Option<Seq<char>>,
    a: Option<Seq<char>>,
    b: Option<Seq<char>>,
)
    requires
        antes_em(s, a, b),
    ensures
        antes_em(s.push(x), a, b),
{
    let i = choose|i: int| 0 <= i < s.len() && #[trigger] s[i] == a && forall|j: int| 0 <= j <= i ==> s[j] != b;
    assert(s.push(x)[i] == a);
    assert forall|j: int| 0 <= j <= i implies s.push(x)[j] != b by {
        assert(s.push(x)[j] == s[j]);
    }
}

proof fn lemma_antes_novo(s: Seq<Option<Seq<char>>>, x: Option<Seq<char>>, a: Option<Seq<char>>)
    requires
        s.contains(a),
        !s.contains(x),
    ensures
        antes_em(s.push(x), a, x),
{
    let i = choose|i: int| 0 <= i < s.len() && s[i] == a;
    assert(s.push(x)[i] == a);
    assert forall|j: int| 0 <= j <= i implies s.push(x)[j] != x by {
        assert(s.push(x)[j] == s[j]);
    }
}

proof fn lemma_ocorrencias_push(s: Seq<Option<Seq<char>>>, x: Option<Seq<char>>, c: Option<Seq<char>>)
    ensures
        ocorrencias(s.push(x), c) == ocorrencias(s, c) + if x == c {
            1nat
        } else {
            0nat
        },
        ocorrencias(s, c) <= s.len(),
{
    s.lemma_filter_push(x, igual_a(c));
    s.lemma_filter_len(igual_a(c));
}

/// Each category of the column once, in order of first appearance, with
/// its number of entries.
fn contar_categorias(valores: &[Option<String>]) -> (r: Vec<(Option<String>, usize)>)
    ensures
        categorias_de(r@).no_duplicates(),
        forall|c: Option<Seq<char>>|
            #[trigger] vistas_categorias(valores@).contains(c) <==> categorias_de(r@).contains(c),
        forall|k: int|
            0 <= k < r@.len() ==> (#[trigger] r@[k]).1 == ocorrencias(
                vistas_categorias(valores@),
                vista_categoria(r@[k].0),
            ),
        forall|k1: int, k2: int|
            0 <= k1 < k2 < r@.len() ==> antes_em(
                vistas_categorias(valores@),
                #[trigger] categorias_de(r@)[k1],
                #[trigger] categorias_de(r@)[k2],
            ),
{
    let ghost s = vistas_categorias(valores@);
    let mut r: Vec<(Option<String>, usize)> = Vec::new();
    let mut i: usize = 0;
    while i < valores.len()
        invariant
            i <= valores@.len(),
            s == vistas_categorias(valores@),
            categorias_de(r@).no_duplicates(),
            forall|c: Option<Seq<char>>|
                #[trigger] s.subrange(0, i as int).contains(c) <==> categorias_de(r@).contains(c),
            forall|k: int|
                0 <= k < r@.len() ==> (#[trigger] r@[k]).1 == ocorrencias(
                    s.subrange(0, i as int),
                    vista_categoria(r@[k].0),
                ),
            forall|k1: int, k2: int|
                0 <= k1 < k2 < r@.len() ==> antes_em(
                    s.subrange(0, i as int),
                    #[trigger] categorias_de(r@)[k1],
                    #[trigger] categorias_de(r@)[k2],
                ),
        decreases valores@.len() - i,
    {
        let ghost pre = s.subrange(0, i as int);
        let ghost x = s[i as int];
        assert(x == vista_categoria(valores@[i as int]));
        assert(s.subrange(0, i as int + 1) =~= pre.push(x));
        let mut k: usize = 0;
        let mut achou = false;
        while k < r.len()
            invariant
                k <= r@.len(),
                i < valores@.len(),
                x == vista_categoria(valores@[i as int]),
                !achou ==> forall|m: int| 0 <= m < k ==> categorias_de(r@)[m] != x,
                achou ==> k < r@.len() && categorias_de(r@)[k as int] == x,
            ensures
                !achou ==> k == r@.len() && forall|m: int| 0 <= m < k ==> categorias_de(r@)[m] != x,
                achou ==> k < r@.len() && categorias_de(r@)[k as int] == x,
            decreases r@.len() - k + if achou { 0int } else { 1int },
        {
            if mesma_categoria(&r[k].0, &valores[i]) {
                achou = true;
                break;
            }
            k = k + 1;
        }
        let ghost antes = r@;
        proof {
            assert forall|c: Option<Seq<char>>| true implies ocorrencias(pre.push(x), c)
                == ocorrencias(pre, c) + (if x == c { 1nat } else { 0nat }) && ocorrencias(pre, c)
                <= pre.len() by {
                lemma_ocorrencias_push(pre, x, c);
            }
        }
        if achou {
            let n = r[k].1;
            assert(n == ocorrencias(pre, x));
            assert(n <= i);
            let c = copia_categoria(&r[k].0);
            r.set(k, (c, n + 1));
            proof {
                assert(categorias_de(r@) =~= categorias_de(antes));
                assert forall|k1: int, k2: int| 0 <= k1 < k2 < r@.len() implies antes_em(
                    s.subrange(0, i as int + 1),
                    #[trigger] categorias_de(r@)[k1],
                    #[trigger] categorias_de(r@)[k2],
                ) by {
                    lemma_antes_push(pre, x, categorias_de(antes)[k1], categorias_de(antes)[k2]);
                }
                assert forall|m: int| 0 <= m < r@.len() implies (#[trigger] r@[m]).1 == ocorrencias(
                    s.subrange(0, i as int + 1),
                    vista_categoria(r@[m].0),
                ) by {
                    assert(categorias_de(antes)[m] == vista_categoria(antes[m].0));
                    if m != k {
                        assert(categorias_de(antes)[m] != categorias_de(antes)[k as int]);
                    }
                }
                assert forall|c: Option<Seq<char>>|
                    #[trigger] s.subrange(0, i as int + 1).contains(c) <==> categorias_de(
                        r@,
                    ).contains(c) by {
                    if c == x {
                        assert(pre.push(x)[i as int] == x);
                    } else if pre.push(x).contains(c) {
                        let j = choose|j: int| 0 <= j < pre.push(x).len() && pre.push(x)[j] == c;
                        assert(pre[j] == c);
                    }
                    if pre.contains(c) {
                        let j = choose|j: int| 0 <= j < pre.len() && pre[j] == c;
                        assert(pre.push(x)[j] == c);
                    }
                }
            }
        } else {
            let c = copia_categoria(&valores[i]);
            r.push((c, 1));
            proof {
                assert(categorias_de(r@) =~= categorias_de(antes).push(x));
                assert(!categorias_de(antes).contains(x));
                assert(!pre.contains(x));
                assert forall|k1: int, k2: int| 0 <= k1 < k2 < r@.len() implies antes_em(
                    s.subrange(0, i as int + 1),
                    #[trigger] categorias_de(r@)[k1],
                    #[trigger] categorias_de(r@)[k2],
                ) by {
                    if k2 < antes.len() {
                        lemma_antes_push(pre, x, categorias_de(antes)[k1], categorias_de(antes)[k2]);
                    } else {
                        assert(categorias_de(antes).contains(categorias_de(antes)[k1]));
                        lemma_antes_novo(pre, x, categorias_de(antes)[k1]);
                    }
                }
                assert(pre.filter(igual_a(x)).len() == 0) by {
                    if pre.filter(igual_a(x)).len() > 0 {
                        pre.lemma_filter_pred(igual_a(x), 0);
                        let w = pre.filter(igual_a(x))[0];
                        pre.lemma_filter_contains_rev(igual_a(x), w);
                    }
                }
                assert forall|m: int| 0 <= m < r@.len() implies (#[trigger] r@[m]).1 == ocorrencias(
                    s.subrange(0, i as int + 1),
                    vista_categoria(r@[m].0),
                ) by {
                    if m < antes.len() {
                        assert(categorias_de(antes)[m] == vista_categoria(antes[m].0));
                        assert(categorias_de(antes).contains(categorias_de(antes)[m]));
                    }
                }
                assert forall|c: Option<Seq<char>>|
                    #[trigger] s.subrange(0, i as int + 1).contains(c) <==> categorias_de(
                        r@,
                    ).contains(c) by {
                    if c == x {
                        assert(pre.push(x)[i as int] == x);
                        assert(categorias_de(r@)[antes.len() as int] == x);
                    } else {
                        if pre.push(x).contains(c) {
                            let j = choose|j: int| 0 <= j < pre.push(x).len() && pre.push(x)[j] == c;
                            assert(pre[j] == c);
                        }
                        if pre.contains(c) {
                            let j = choose|j: int| 0 <= j < pre.len() && pre[j] == c;
                            assert(pre.push(x)[j] == c);
                        }
                        if categorias_de(r@).contains(c) {
                            let j = choose|j: int|
                                0 <= j < categorias_de(r@).len() && categorias_de(r@)[j] == c;
                            assert(categorias_de(antes)[j] == c);
                        }
                        if categorias_de(antes).contains(c) {
                            let j = choose|j: int|
                                0 <= j < categorias_de(antes).len() && categorias_de(antes)[j] == c;
                            assert(categorias_de(r@)[j] == c);
                        }
                    }
                }
            }
        }
        i = i + 1;
    }
    assert(s.subrange(0, valores@.len() as int) =~= s);
    r
}

proof fn lemma_presente_conta(s: Seq<Option<Seq<char>>>, c: Option<Seq<char>>)
    requires
        s.contains(c),
    ensures
        ocorrencias(s, c) > 0,
{
    let i = choose|i: int| 0 <= i < s.len() && s[i] == c;
    s.lemma_filter_contains(igual_a(c), i);
}

/// The most frequent categories of a column, at most `limite` of them, with
/// their numbers of entries, from the most frequent down (the first-seen
/// category first among equally frequent ones); the missing category counts
/// as a category of its own.
pub fn contar_top_categorias(valores: &[Option<String>], limite: usize) -> (r: Vec<(Option<String>, usize)>)
    ensures
        ranking_valido(vistas_categorias(valores@), r@, limite as nat),
{
    let ghost s = vistas_categorias(valores@);
    let cont = contar_categorias(valores);
    let n = cont.len();
    let mut usado: Vec<bool> = Vec::new();
    let mut t: usize = 0;
    while t < n
        invariant
            t <= n,
            usado@.len() == t,
            forall|u: int| 0 <= u < t ==> !(#[trigger] usado@[u]),
        decreases n - t,
    {
        usado.push(false);
        t = t + 1;
    }
    let mut r: Vec<(Option<String>, usize)> = Vec::new();
    let ghost mut idx: Seq<int> = Seq::empty();
    let mut esgotado = false;
    while r.len() < limite && !esgotado
        invariant
            n == cont@.len(),
            s == vistas_categorias(valores@),
            categorias_de(cont@).no_duplicates(),
            forall|c: Option<Seq<char>>| #[trigger] s.contains(c) <==> categorias_de(cont@).contains(c),
            forall|k: int|
                0 <= k < cont@.len() ==> (#[trigger] cont@[k]).1 == ocorrencias(s, vista_categoria(cont@[k].0)),
            usado@.len() == n,
            r@.len() == idx.len(),
            r@.len() <= limite,
            forall|k: int|
                0 <= k < r@.len() ==> 0 <= #[trigger] idx[k] < n && usado@[idx[k]] && r@[k].1 == cont@[idx[k]].1
                    && vista_categoria(r@[k].0) == vista_categoria(cont@[idx[k]].0),
            forall|k1: int, k2: int| 0 <= k1 < k2 < r@.len() ==> #[trigger] idx[k1] != #[trigger] idx[k2],
            forall|u: int| 0 <= u < n && #[trigger] usado@[u] ==> idx.contains(u),
            forall|k1: int, k2: int| 0 <= k1 <= k2 < r@.len() ==> (#[trigger] r@[k1]).1 >= (#[trigger] r@[k2]).1,
            forall|k1: int, k2: int|
                0 <= k1 < k2 < r@.len() && (#[trigger] r@[k1]).1 == (#[trigger] r@[k2]).1 ==> idx[k1] < idx[k2],
            forall|k1: int, k2: int|
                0 <= k1 < k2 < cont@.len() ==> antes_em(
                    s,
                    #[trigger] categorias_de(cont@)[k1],
                    #[trigger] categorias_de(cont@)[k2],
                ),
            forall|u: int, k: int|
                0 <= u < n && 0 <= k < r@.len() && !(#[trigger] usado@[u]) ==> cont@[u].1 < (#[trigger] r@[k]).1
                    || (cont@[u].1 == r@[k].1 && idx[k] < u),
            esgotado ==> forall|u: int| 0 <= u < n ==> #[trigger] usado@[u],
        decreases (limite - r@.len()) * 2 + if esgotado { 0int } else { 1int },
    {
        let mut melhor: Option<usize> = None;
        let mut u: usize = 0;
        while u < n
            invariant
                u <= n,
                n == cont@.len(),
                usado@.len() == n,
                melhor matches Some(m) ==> m < u && !usado@[m as int] && forall|v: int|
                    0 <= v < u && !(#[trigger] usado@[v]) ==> cont@[v].1 < cont@[m as int].1 || (
                    cont@[v].1 == cont@[m as int].1 && m <= v),
                melhor is None ==> forall|v: int| 0 <= v < u ==> #[trigger] usado@[v],
            decreases n - u,
        {
            if !usado[u] {
                match melhor {
                    None => {
                        melhor = Some(u);
                    },
                    Some(m) => {
                        if cont[u].1 > cont[m].1 {
                            melhor = Some(u);
                        }
                    },
                }
            }
            u = u + 1;
        }
        match melhor {
            None => {
                esgotado = true;
            },
            Some(m) => {
                let ghost usado_antes = usado@;
                let ghost r_antes = r@;
                let ghost idx_antes = idx;
                usado.set(m, true);
                let c = copia_categoria(&cont[m].0);
                r.push((c, cont[m].1));
                proof {
                    idx = idx.push(m as int);
                    assert forall|k: int| 0 <= k < idx_antes.len() implies idx_antes[k] != m by {
                        assert(usado_antes[idx_antes[k]]);
                    }
                    assert forall|w: int| 0 <= w < n && #[trigger] usado@[w] implies idx.contains(w) by {
                        if w == m {
                            assert(idx[idx.len() - 1] == w);
                        } else {
                            assert(usado_antes[w]);
                            let k = choose|k: int| 0 <= k < idx_antes.len() && idx_antes[k] == w;
                            assert(idx[k] == w);
                        }
                    }
                    assert forall|k1: int, k2: int| 0 <= k1 <= k2 < r@.len() implies (#[trigger] r@[k1]).1
                        >= (#[trigger] r@[k2]).1 by {
                        if k2 == r@.len() - 1 && k1 < k2 {
                            assert(!usado_antes[m as int]);
                            assert(r@[k1] == r_antes[k1]);
                        }
                    }
                    assert forall|k1: int, k2: int|
                        0 <= k1 < k2 < r@.len() && (#[trigger] r@[k1]).1 == (#[trigger] r@[k2]).1
                            implies idx[k1] < idx[k2] by {
                        assert(r@[k1] == r_antes[k1]);
                        assert(idx[k1] == idx_antes[k1]);
                        if k2 < r_antes.len() {
                            assert(r@[k2] == r_antes[k2]);
                            assert(idx[k2] == idx_antes[k2]);
                        } else {
                            assert(!usado_antes[m as int]);
                        }
                    }
                    assert forall|w: int, k: int|
                        0 <= w < n && 0 <= k < r@.len() && !(#[trigger] usado@[w]) implies cont@[w].1 < (
                        #[trigger] r@[k]).1 || (cont@[w].1 == r@[k].1 && idx[k] < w) by {
                        assert(!usado_antes[w]);
                        assert(w != m);
                        if k < r_antes.len() {
                            assert(r@[k] == r_antes[k]);
                            assert(idx[k] == idx_antes[k]);
                        }
                    }
                    assert forall|k1: int, k2: int| 0 <= k1 < k2 < r@.len() implies #[trigger] idx[k1]
                        != #[trigger] idx[k2] by {
                        if k2 < idx_antes.len() {
                            assert(idx[k1] == idx_antes[k1]);
                            assert(idx[k2] == idx_antes[k2]);
                        }
                    }
                    assert forall|k: int| 0 <= k < r@.len() implies 0 <= #[trigger] idx[k] < n
                        && usado@[idx[k]] && r@[k].1 == cont@[idx[k]].1 && vista_categoria(r@[k].0)
                        == vista_categoria(cont@[idx[k]].0) by {
                        if k < r_antes.len() {
                            assert(idx[k] == idx_antes[k]);
                            assert(r@[k] == r_antes[k]);
                        }
                    }
                }
            },
        }
    }
    proof {
        let cats_r = categorias_de(r@);
        let cats_c = categorias_de(cont@);
        assert forall|k: int| 0 <= k < r@.len() implies cats_r[k] == cats_c[idx[k]] by {
            assert(cats_r[k] == vista_categoria(r@[k].0));
        }
        assert forall|k: int| 0 <= k < r@.len() implies (#[trigger] r@[k]).1 == ocorrencias(
            s,
            vista_categoria(r@[k].0),
        ) && r@[k].1 > 0 by {
            assert(cats_c[idx[k]] == vista_categoria(cont@[idx[k]].0));
            assert(cats_c.contains(cats_c[idx[k]]));
            lemma_presente_conta(s, cats_c[idx[k]]);
        }
        assert forall|i: int, j: int|
            0 <= i < j < r@.len() && (#[trigger] r@[i]).1 == (#[trigger] r@[j]).1 implies antes_em(
            s,
            vista_categoria(r@[i].0),
            vista_categoria(r@[j].0),
        ) by {
            assert(cats_r[i] == cats_c[idx[i]]);
            assert(cats_r[j] == cats_c[idx[j]]);
            assert(cats_r[i] == vista_categoria(r@[i].0));
            assert(cats_r[j] == vista_categoria(r@[j].0));
        }
        assert forall|k1: int, k2: int| 0 <= k1 < k2 < cats_r.len() implies cats_r[k1] != cats_r[k2] by {
            assert(cats_r[k1] == cats_c[idx[k1]]);
            assert(cats_r[k2] == cats_c[idx[k2]]);
            assert(idx[k1] != idx[k2]);
        }
        assert forall|c: Option<Seq<char>>|
            #[trigger] s.contains(c) && !cats_r.contains(c) implies r@.len() == limite && (limite > 0
                ==> (ocorrencias(s, c) < r@[limite - 1].1 || (ocorrencias(s, c) == r@[limite - 1].1
                && antes_em(s, vista_categoria(r@[limite - 1].0), c)))) by {
            assert(cats_c.contains(c));
            let w = choose|w: int| 0 <= w < cats_c.len() && cats_c[w] == c;
            assert(cats_c[w] == vista_categoria(cont@[w].0));
            if usado@[w] {
                let k = choose|k: int| 0 <= k < idx.len() && idx[k] == w;
                assert(cats_r[k] == c);
            }
            assert(!usado@[w]);
            if limite > 0 {
                let l = limite - 1;
                assert(cont@[w].1 < r@[l].1 || (cont@[w].1 == r@[l].1 && idx[l] < w));
                assert(cats_r[l] == cats_c[idx[l]]);
                assert(cats_r[l] == vista_categoria(r@[l].0));
                if cont@[w].1 == r@[l].1 {
                    assert(antes_em(s, cats_c[idx[l]], cats_c[w]));
                }
            }
        }
    }
    r
}

} // verus!
