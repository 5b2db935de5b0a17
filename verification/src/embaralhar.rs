//! The column shuffle of permutation importance: one feature column of the
//! data is shuffled (Fisher-Yates) while every other entry stays in place.
use vstd::prelude::*;
use rand::Rng;
use rand::rngs::ThreadRng;

verus! {

/// The thread-local random generator of `rand`, held opaque.
#[verifier::external_type_specification]
#[verifier::external_body]
pub struct ExThreadRng(ThreadRng);

/// Calls `rand::thread_rng`, which hands out the generator of the current
/// thread, seeded from the operating system. Nothing is stated of it; the
/// call panics only when the operating system gives no entropy at the
/// first use in a thread, which no argument can rule out.
#[verifier::external_body]
fn gerador_da_thread() -> ThreadRng {
    rand::thread_rng()
}

/// Calls `Rng::gen_range` with the inclusive range `0..=a` on the generator:
/// a random integer in `0..=a`. The range is never empty, so no argument
/// makes the call panic; it can still panic when the generator reseeds and
/// the operating system gives no entropy. What value comes out is chance
/// and is not stated.
#[verifier::external_body]
fn sortear_ate(rng: &mut ThreadRng, a: usize) -> (r: usize)
    ensures
        r <= a,
{
    rng.gen_range(0..=a)
}

/// Entry `f` of every row.
pub open spec fn coluna<T>(dados: Seq<Vec<T>>, f: int) -> Seq<T> {
    Seq::new(dados.len(), |i: int| dados[i]@[f])
}

/// Every row has an entry `f`.
pub open spec fn tem_coluna<T>(dados: Seq<Vec<T>>, f: int) -> bool {
    forall|i: int| 0 <= i < dados.len() ==> f < #[trigger] dados[i]@.len()
}

/// The entries `a` and `b` of `s` exchanged.
pub open spec fn trocar<T>(s: Seq<T>, a: int, b: int) -> Seq<T> {
    s.update(a, s[b]).update(b, s[a])
}

/// Draws of a Fisher-Yates shuffle of `n` entries: step `j` exchanges
/// position `n - 1 - j` with a position drawn in `0..=n - 1 - j`.
pub open spec fn sorteios_validos(sorteios: Seq<usize>, n: nat) -> bool {
    &&& sorteios.len() == if n > 0 {
        n - 1
    } else {
        0
    }
    &&& forall|j: int| 0 <= j < sorteios.len() ==> #[trigger] sorteios[j] <= n - 1 - j
}

/// `s` after the first `j` exchanges of a Fisher-Yates shuffle with the given draws.
pub open spec fn apos_trocas<T>(s: Seq<T>, sorteios: Seq<usize>, j: nat) -> Seq<T>
    decreases j,
{
    if j == 0 {
        s
    } else {
        trocar(apos_trocas(s, sorteios, (j - 1) as nat), s.len() - j, sorteios[j - 1] as int)
    }
}

proof fn lemma_trocas_permutam<T>(s: Seq<T>, sorteios: Seq<usize>, j: nat)
    requires
        sorteios_validos(sorteios, s.len()),
        j <= sorteios.len(),
    ensures
        apos_trocas(s, sorteios, j).len() == s.len(),
        apos_trocas(s, sorteios, j).to_multiset() == s.to_multiset(),
    decreases j,
{
    broadcast use vstd::seq_lib::group_to_multiset_ensures;
    broadcast use vstd::multiset::group_multiset_axioms;

    if j > 0 {
        lemma_trocas_permutam(s, sorteios, (j - 1) as nat);
        let ant = apos_trocas(s, sorteios, (j - 1) as nat);
        let a = s.len() - j;
        let b = sorteios[j - 1] as int;
        assert(b <= s.len() - 1 - (j - 1));
        let meio = ant.update(a, ant[b]);
        vstd::seq_lib::to_multiset_update(ant, a, ant[b]);
        vstd::seq_lib::to_multiset_update(meio, b, ant[a]);
        assert(meio.to_multiset() =~= ant.to_multiset().insert(ant[b]).remove(ant[a]));
        assert(meio.update(b, ant[a]).to_multiset() =~= meio.to_multiset().insert(ant[a]).remove(
            meio[b],
        ));
        assert(meio.update(b, ant[a]).to_multiset() =~= ant.to_multiset());
    }
}

/// Shuffles column `f` of the rows with the given Fisher-Yates draws; every
/// other entry, and the length of every row, stays as it was. The column
/// comes out as a permutation of itself.
pub fn embaralhar_coluna<T: Copy>(dados: &mut Vec<Vec<T>>, f: usize, sorteios: &[usize])
    requires
        tem_coluna(old(dados)@, f as int),
        sorteios_validos(sorteios@, old(dados)@.len()),
    ensures
        final(dados)@.len() == old(dados)@.len(),
        forall|i: int|
            0 <= i < old(dados)@.len() ==> #[trigger] final(dados)@[i]@.len() == old(
                dados,
            )@[i]@.len(),
        forall|i: int, k: int|
            0 <= i < old(dados)@.len() && 0 <= k < old(dados)@[i]@.len() && k != f
                ==> #[trigger] final(dados)@[i]@[k] == old(dados)@[i]@[k],
        coluna(final(dados)@, f as int) == apos_trocas(
            coluna(old(dados)@, f as int),
            sorteios@,
            sorteios@.len(),
        ),
        coluna(final(dados)@, f as int).to_multiset() == coluna(old(dados)@, f as int).to_multiset(),
{
    let ghost inicio = dados@;
    let ghost col0 = coluna(inicio, f as int);
    let n = dados.len();
    let mut j: usize = 0;
    while j < sorteios.len()
        invariant
            n == inicio.len(),
            dados@.len() == n,
            col0 == coluna(inicio, f as int),
            sorteios_validos(sorteios@, n as nat),
            j <= sorteios@.len(),
            tem_coluna(inicio, f as int),
            forall|i: int| 0 <= i < n ==> #[trigger] dados@[i]@.len() == inicio[i]@.len(),
            forall|i: int, k: int|
                0 <= i < n && 0 <= k < inicio[i]@.len() && k != f ==> #[trigger] dados@[i]@[k]
                    == inicio[i]@[k],
            coluna(dados@, f as int) == apos_trocas(col0, sorteios@, j as nat),
        decreases sorteios@.len() - j,
    {
        let a = n - 1 - j;
        let b = sorteios[j];
        assert(b <= n - 1 - j);
        let ghost antes = dados@;
        let ghost col_antes = coluna(antes, f as int);
        assert(dados@[a as int]@.len() == inicio[a as int]@.len());
        assert(dados@[b as int]@.len() == inicio[b as int]@.len());
        let x = dados[a][f];
        let y = dados[b][f];
        {
            let linha: &mut Vec<T> = &mut dados[a];
            linha.set(f, y);
        }
        {
            let linha: &mut Vec<T> = &mut dados[b];
            linha.set(f, x);
        }
        proof {
            assert(x == col_antes[a as int]);
            assert(y == col_antes[b as int]);
            assert(coluna(dados@, f as int) =~= trocar(col_antes, a as int, b as int));
            assert(col0.len() == n);
            assert(apos_trocas(col0, sorteios@, (j + 1) as nat) == trocar(
                apos_trocas(col0, sorteios@, j as nat),
                col0.len() - (j + 1),
                sorteios@[j as int] as int,
            ));
        }
        j = j + 1;
    }
    proof {
        lemma_trocas_permutam(col0, sorteios@, sorteios@.len());
    }
}

/// Source of the random draws of the shuffles: the generator of the
/// current thread.
pub struct Embaralhador {
    rng: ThreadRng,
}

impl Embaralhador {
    /// An embaralhador over the generator of the current thread.
    pub fn novo() -> Self {
        Embaralhador { rng: gerador_da_thread() }
    }

    /// Draws the exchanges of a Fisher-Yates shuffle of `n` entries: for the
    /// positions `n - 1` down to 1, a position from 0 up to that one.
    pub fn sortear_trocas(&mut self, n: usize) -> (r: Vec<usize>)
        ensures
            sorteios_validos(r@, n as nat),
    {
        let mut r: Vec<usize> = Vec::new();
        if n == 0 {
            return r;
        }
        let mut a: usize = n - 1;
        while a >= 1
            invariant
                a <= n - 1,
                r@.len() == n - 1 - a,
                forall|j: int| 0 <= j < r@.len() ==> #[trigger] r@[j] <= n - 1 - j,
            decreases a,
        {
            let b = sortear_ate(&mut self.rng, a);
            r.push(b);
            a = a - 1;
        }
        r
    }

    /// Shuffles column `f` of the rows at random, as the permutation
    /// importance does for each feature: the column comes out as a
    /// permutation of itself, the outcome of a Fisher-Yates shuffle with
    /// some valid draws, and every other entry stays in place.
    pub fn embaralhar_feature<T: Copy>(&mut self, dados: &mut Vec<Vec<T>>, f: usize)
        requires
            tem_coluna(old(dados)@, f as int),
        ensures
            final(dados)@.len() == old(dados)@.len(),
            forall|i: int|
                0 <= i < old(dados)@.len() ==> #[trigger] final(dados)@[i]@.len() == old(
                    dados,
                )@[i]@.len(),
            forall|i: int, k: int|
                0 <= i < old(dados)@.len() && 0 <= k < old(dados)@[i]@.len() && k != f
                    ==> #[trigger] final(dados)@[i]@[k] == old(dados)@[i]@[k],
            coluna(final(dados)@, f as int).to_multiset() == coluna(
                old(dados)@,
                f as int,
            ).to_multiset(),
            exists|s: Seq<usize>|
                sorteios_validos(s, old(dados)@.len()) && coluna(final(dados)@, f as int)
                    == apos_trocas(coluna(old(dados)@, f as int), s, s.len()),
    {
        let sorteios = self.sortear_trocas(dados.len());
        embaralhar_coluna(dados, f, sorteios.as_slice());
    }
}

} // verus!
