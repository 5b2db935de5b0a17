//! Decisions behind the charts: which bar is highlighted, which points are
//! outliers, the colors of the correlation heatmap and which feature each
//! node of the decision-tree picture shows.
use vstd::prelude::*;
use crate::ouro::limitado_acima;

verus! {

/// Index of the largest key, the last one among equal largest keys; 0 when
/// there is no key.
pub fn indice_do_maior(chaves: &[u64]) -> (r: usize)
    ensures
        chaves@.len() == 0 ==> r == 0,
        chaves@.len() > 0 ==> {
            &&& r < chaves@.len()
            &&& forall|j: int| 0 <= j < chaves@.len() ==> #[trigger] chaves@[j] <= chaves@[r as int]
            &&& forall|j: int| r < j < chaves@.len() ==> #[trigger] chaves@[j] < chaves@[r as int]
        },
{
    if chaves.len() == 0 {
        return 0;
    }
    let mut r: usize = 0;
    let mut i: usize = 1;
    while i < chaves.len()
        invariant
            1 <= i <= chaves@.len(),
            r < i,
            forall|j: int| 0 <= j < i ==> #[trigger] chaves@[j] <= chaves@[r as int],
            forall|j: int| r < j < i ==> #[trigger] chaves@[j] < chaves@[r as int],
        decreases chaves@.len() - i,
    {
        if chaves[i] >= chaves[r] {
            r = i;
        }
        i = i + 1;
    }
    r
}

/// Splits the points by the upper IQR fence: the indices of the points
/// whose key is above the fence (outliers) and of the others, each in order.
pub fn separar_outliers(chaves: &[u64], limite: u64) -> (r: (Vec<usize>, Vec<usize>))
    ensures
        r.0@ == Seq::new(chaves@.len(), |i: int| i as usize).filter(
            |i: usize| chaves@[i as int] > limite,
        ),
        r.1@ == Seq::new(chaves@.len(), |i: int| i as usize).filter(
            |i: usize| !(chaves@[i as int] > limite),
        ),
{
    let ghost todos = Seq::new(chaves@.len(), |i: int| i as usize);
    let ghost acima = |i: usize| chaves@[i as int] > limite;
    let ghost abaixo = |i: usize| !(chaves@[i as int] > limite);
    let mut outliers: Vec<usize> = Vec::new();
    let mut normais: Vec<usize> = Vec::new();
    let mut i: usize = 0;
    while i < chaves.len()
        invariant
            i <= chaves@.len(),
            todos == Seq::new(chaves@.len(), |i: int| i as usize),
            acima == (|i: usize| chaves@[i as int] > limite),
            abaixo == (|i: usize| !(chaves@[i as int] > limite)),
            outliers@ == todos.subrange(0, i as int).filter(acima),
            normais@ == todos.subrange(0, i as int).filter(abaixo),
        decreases chaves@.len() - i,
    {
        proof {
            let pre = todos.subrange(0, i as int);
            assert(todos.subrange(0, i as int + 1) =~= pre.push(i));
            pre.lemma_filter_push(i, acima);
            pre.lemma_filter_push(i, abaixo);
        }
        if chaves[i] > limite {
            outliers.push(i);
        } else {
            normais.push(i);
        }
        i = i + 1;
    }
    assert(todos.subrange(0, chaves@.len() as int) =~= todos);
    (outliers, normais)
}

/// The points drawn as outliers against a fence are exactly the rows that
/// clipping at that fence lowers: index `i` is among the outliers of
/// `separar_outliers` exactly when clipping its key at the same bound
/// changes it.
pub proof fn lei_outliers_sao_os_cortados(chaves: Seq<u64>, limite: u64, i: int)
    requires
        0 <= i < chaves.len(),
        chaves.len() <= usize::MAX,
    ensures
        Seq::new(chaves.len(), |k: int| k as usize).filter(|k: usize| chaves[k as int] > limite).contains(
            i as usize,
        ) <==> limitado_acima(Some(chaves[i]), limite) != Some(chaves[i]),
{
    let todos = Seq::new(chaves.len(), |k: int| k as usize);
    let acima = |k: usize| chaves[k as int] > limite;
    assert(todos[i] == i as usize);
    assert((i as usize) as int == i);
    if chaves[i] > limite {
        todos.lemma_filter_contains(acima, i);
    } else {
        if todos.filter(acima).contains(i as usize) {
            todos.lemma_filter_contains_rev(acima, i as usize);
        }
    }
}

/// Color channel of the diverging palette for an intensity in `0..=127`:
/// `255 - 2 * intensidade`, but never below 128.
pub open spec fn canal(intensidade: u8) -> u8 {
    if 255 - 2 * intensidade >= 128 {
        (255 - 2 * intensidade) as u8
    } else {
        128u8
    }
}

/// Color of a heatmap cell (red, green, blue) from the intensity of a
/// correlation (its absolute value times 127): shades of red for a positive
/// correlation, of blue for a negative one, white at zero.
pub fn cor_divergente(intensidade: u8, positiva: bool) -> (r: (u8, u8, u8))
    requires
        intensidade <= 127,
    ensures
        positiva ==> r == (255u8, canal(intensidade), canal(intensidade)),
        !positiva ==> r == (canal(intensidade), canal(intensidade), 255u8),
{
    let c = 255 - intensidade * 2;
    let c = if c >= 128 { c } else { 128 };
    if positiva {
        (255, c, c)
    } else {
        (c, c, 255)
    }
}

/// Number of levels drawn for a tree of the given maximum depth: up to 3.
pub open spec fn niveis_desenhados(max_depth: u16) -> int {
    if max_depth + 1 < 3 {
        max_depth + 1
    } else {
        3
    }
}

/// Number of nodes in the first `l` levels of a binary tree (`2^l - 1`),
/// for the levels drawn.
pub open spec fn nos_ate_nivel(l: int) -> int {
    if l <= 0 {
        0
    } else if l == 1 {
        1
    } else if l == 2 {
        3
    } else {
        7
    }
}

/// Level of the node at breadth-first position `p` (0 for the root).
pub open spec fn nivel_do_no(p: int) -> int {
    if p < 1 {
        0
    } else if p < 3 {
        1
    } else {
        2
    }
}

/// The ranked feature shown by the node at breadth-first position `p`:
/// node `i` of level `d` shows the feature of rank `d + i` among the
/// `n` ranked features, none when there is no such rank.
pub open spec fn no_esperado(p: int, n: int) -> Option<usize> {
    let d = nivel_do_no(p);
    let i = p - nos_ate_nivel(d);
    if d + i < n {
        Some((d + i) as usize)
    } else {
        None
    }
}

/// Features shown by the nodes of the decision-tree picture, level by level
/// (1, 2 and 4 nodes): the rank of the feature among the features ordered
/// by importance, or none for an empty node.
pub fn nos_da_arvore(max_depth: u16, n_features: usize) -> (r: Vec<Option<usize>>)
    ensures
        r@.len() == nos_ate_nivel(niveis_desenhados(max_depth)),
        forall|p: int| 0 <= p < r@.len() ==> #[trigger] r@[p] == no_esperado(p, n_features as int),
{
    let niveis: u32 = if max_depth < 2 { max_depth as u32 + 1 } else { 3 };
    let mut r: Vec<Option<usize>> = Vec::new();
    let mut d: u32 = 0;
    while d < niveis
        invariant
            niveis <= 3,
            niveis == niveis_desenhados(max_depth),
            d <= niveis,
            r@.len() == nos_ate_nivel(d as int),
            forall|p: int| 0 <= p < r@.len() ==> #[trigger] r@[p] == no_esperado(p, n_features as int),
        decreases niveis - d,
    {
        let n_nos: u32 = if d == 0 { 1 } else if d == 1 { 2 } else { 4 };
        let mut i: u32 = 0;
        while i < n_nos
            invariant
                d < 3,
                n_nos == nos_ate_nivel(d as int + 1) - nos_ate_nivel(d as int),
                i <= n_nos,
                r@.len() == nos_ate_nivel(d as int) + i,
                forall|p: int| 0 <= p < r@.len() ==> #[trigger] r@[p] == no_esperado(p, n_features as int),
            decreases n_nos - i,
        {
            let idx: usize = (d + i) as usize;
            let no = if idx < n_features { Some(idx) } else { None };
            assert(nivel_do_no(r@.len() as int) == d);
            r.push(no);
            i = i + 1;
        }
        d = d + 1;
    }
    r
}

} // verus!
