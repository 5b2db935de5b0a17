//! The silver layer: joining incidents to their financial impact, keeping
//! the records that carry the target and filling the missing categories.
use vstd::prelude::*;

verus! {

/// Fills the missing entries of a categorical column with a default text
/// (`"Desconhecido"` in the pipeline); present entries are kept.
pub fn preencher_categoria(valores: &[Option<String>], padrao: &String) -> (r: Vec<String>)
    ensures
        r@.len() == valores@.len(),
        forall|i: int|
            0 <= i < valores@.len() ==> #[trigger] r@[i]@ == match valores@[i] {
                Some(s) => s@,
                None => padrao@,
            },
{
    let mut r: Vec<String> = Vec::new();
    let mut i: usize = 0;
    while i < valores.len()
        invariant
            i <= valores@.len(),
            r@.len() == i,
            forall|j: int|
                0 <= j < i ==> #[trigger] r@[j]@ == match valores@[j] {
                    Some(s) => s@,
                    None => padrao@,
                },
        decreases valores@.len() - i,
    {
        let v = match &valores[i] {
            Some(s) => s.clone(),
            None => padrao.clone(),
        };
        r.push(v);
        i = i + 1;
    }
    r
}

/// Indices of the records whose target is present, in order: the records
/// without a loss are dropped.
pub fn linhas_com_alvo(presente: &[bool]) -> (r: Vec<usize>)
    ensures
        r@ == Seq::new(presente@.len(), |i: int| i as usize).filter(|i: usize| presente@[i as int]),
{
    let ghost todos = Seq::new(presente@.len(), |i: int| i as usize);
    let ghost f = |i: usize| presente@[i as int];
    let mut r: Vec<usize> = Vec::new();
    let mut i: usize = 0;
    while i < presente.len()
        invariant
            i <= presente@.len(),
            todos == Seq::new(presente@.len(), |i: int| i as usize),
            f == (|i: usize| presente@[i as int]),
            r@ == todos.subrange(0, i as int).filter(f),
        decreases presente@.len() - i,
    {
        proof {
            let pre = todos.subrange(0, i as int);
            assert(todos.subrange(0, i as int + 1) =~= pre.push(i));
            pre.lemma_filter_push(i, f);
        }
        if presente[i] {
            r.push(i);
        }
        i = i + 1;
    }
    assert(todos.subrange(0, presente@.len() as int) =~= todos);
    r
}

/// Two join keys match: both present and equal (a missing key matches
/// nothing).
pub open spec fn chaves_casam(a: Option<String>, b: Option<String>) -> bool {
    match (a, b) {
        (Some(x), Some(y)) => x@ == y@,
        _ => false,
    }
}

/// Pair `p` comes before pair `q`: by left row, then by right row.
pub open spec fn par_antes(p: (usize, usize), q: (usize, usize)) -> bool {
    p.0 < q.0 || (p.0 == q.0 && p.1 < q.1)
}

/// Inner join of two tables on a key column: the pairs (left row, right
/// row) whose keys match, each once, ordered by left row and then by right
/// row.
pub fn juntar_por_chave(esquerda: &[Option<String>], direita: &[Option<String>]) -> (r: Vec<(usize, usize)>)
    ensures
        forall|k: int|
            0 <= k < r@.len() ==> (#[trigger] r@[k]).0 < esquerda@.len() && r@[k].1 < direita@.len()
                && chaves_casam(esquerda@[r@[k].0 as int], direita@[r@[k].1 as int]),
        forall|i: int, j: int|
            0 <= i < esquerda@.len() && 0 <= j < direita@.len() && chaves_casam(
                #[trigger] esquerda@[i],
                #[trigger] direita@[j],
            ) ==> r@.contains((i as usize, j as usize)),
        forall|k1: int, k2: int| 0 <= k1 < k2 < r@.len() ==> par_antes(#[trigger] r@[k1], #[trigger] r@[k2]),
{
    let mut r: Vec<(usize, usize)> = Vec::new();
    let mut i: usize = 0;
    while i < esquerda.len()
        invariant
            i <= esquerda@.len(),
            forall|k: int|
                0 <= k < r@.len() ==> (#[trigger] r@[k]).0 < i && r@[k].1 < direita@.len()
                    && chaves_casam(esquerda@[r@[k].0 as int], direita@[r@[k].1 as int]),
            forall|a: int, b: int|
                0 <= a < i && 0 <= b < direita@.len() && chaves_casam(
                    #[trigger] esquerda@[a],
                    #[trigger] direita@[b],
                ) ==> r@.contains((a as usize, b as usize)),
            forall|k1: int, k2: int| 0 <= k1 < k2 < r@.len() ==> par_antes(#[trigger] r@[k1], #[trigger] r@[k2]),
        decreases esquerda@.len() - i,
    {
        let mut j: usize = 0;
        let ghost r0 = r@;
        while j < direita.len()
            invariant
                i < esquerda@.len(),
                j <= direita@.len(),
                r0.len() <= r@.len(),
                forall|k: int| 0 <= k < r0.len() ==> r@[k] == r0[k],
                forall|k: int| 0 <= k < r0.len() ==> (#[trigger] r0[k]).0 < i,
                forall|k: int|
                    r0.len() <= k < r@.len() ==> (#[trigger] r@[k]).0 == i && r@[k].1 < j,
                forall|k: int|
                    0 <= k < r@.len() ==> (#[trigger] r@[k]).0 <= i && r@[k].1 < direita@.len()
                        && chaves_casam(esquerda@[r@[k].0 as int], direita@[r@[k].1 as int]),
                forall|a: int, b: int|
                    0 <= a < i && 0 <= b < direita@.len() && chaves_casam(
                        #[trigger] esquerda@[a],
                        #[trigger] direita@[b],
                    ) ==> r0.contains((a as usize, b as usize)),
                forall|b: int|
                    0 <= b < j && chaves_casam(esquerda@[i as int], #[trigger] direita@[b])
                        ==> r@.contains((i as usize, b as usize)),
                forall|k1: int, k2: int|
                    0 <= k1 < k2 < r@.len() ==> par_antes(#[trigger] r@[k1], #[trigger] r@[k2]),
            decreases direita@.len() - j,
        {
            let casam = match (&esquerda[i], &direita[j]) {
                (Some(x), Some(y)) => *x == *y,
                _ => false,
            };
            if casam {
                let ghost antes = r@;
                r.push((i, j));
                proof {
                    assert(r@[antes.len() as int] == (i, j));
                    assert forall|k: int| 0 <= k < antes.len() implies r@[k] == antes[k] by {}
                    assert forall|b: int|
                        0 <= b < j + 1 && chaves_casam(esquerda@[i as int], #[trigger] direita@[b])
                            implies r@.contains((i as usize, b as usize)) by {
                        if b == j {
                            assert(r@[antes.len() as int] == (i as usize, b as usize));
                        } else {
                            let k = choose|k: int| 0 <= k < antes.len() && antes[k] == (i as usize, b as usize);
                            assert(r@[k] == antes[k]);
                        }
                    }
                    assert forall|k1: int, k2: int| 0 <= k1 < k2 < r@.len() implies par_antes(
                        #[trigger] r@[k1],
                        #[trigger] r@[k2],
                    ) by {
                        if k2 == antes.len() {
                            assert(r@[k1] == antes[k1]);
                            if k1 >= r0.len() {
                                assert(antes[k1].0 == i && antes[k1].1 < j);
                            } else {
                                assert(r0[k1].0 < i);
                            }
                        } else {
                            assert(r@[k1] == antes[k1]);
                            assert(r@[k2] == antes[k2]);
                        }
                    }
                }
            }
            j = j + 1;
        }
        proof {
            assert forall|a: int, b: int|
                0 <= a < i + 1 && 0 <= b < direita@.len() && chaves_casam(
                    #[trigger] esquerda@[a],
                    #[trigger] direita@[b],
                ) implies r@.contains((a as usize, b as usize)) by {
                if a < i {
                    let k = choose|k: int| 0 <= k < r0.len() && r0[k] == (a as usize, b as usize);
                    assert(r@[k] == r0[k]);
                }
            }
        }
        i = i + 1;
    }
    r
}

} // verus!
