//! Counts behind the evaluation metrics of the classifiers.
use vstd::prelude::*;

verus! {

/// Number of indices `i` in `0..n` for which `pred(i)` holds.
pub open spec fn contagem(n: int, pred: spec_fn(int) -> bool) -> nat
    decreases n,
{
    if n <= 0 {
        0
    } else {
        contagem(n - 1, pred) + if pred(n - 1) { 1nat } else { 0nat }
    }
}

/// Counting over a prefix never exceeds counting over a longer prefix,
/// nor the length of the prefix.
pub proof fn lemma_contagem_monotona(m: int, n: int, pred: spec_fn(int) -> bool)
    requires
        0 <= m <= n,
    ensures
        contagem(m, pred) <= contagem(n, pred),
        contagem(n, pred) <= n,
    decreases n,
{
    if n > 0 {
        if m < n {
            lemma_contagem_monotona(m, n - 1, pred);
        } else {
            lemma_contagem_monotona(n - 1, n - 1, pred);
        }
    }
}

/// Length of the pairing of true and predicted labels (the shorter one).
pub open spec fn comprimento_par(y_true: Seq<u32>, y_pred: Seq<u32>) -> int {
    if y_true.len() <= y_pred.len() {
        y_true.len() as int
    } else {
        y_pred.len() as int
    }
}

/// Position `i` holds true label `a` and predicted label `b`.
pub open spec fn par_rotulos(y_true: Seq<u32>, y_pred: Seq<u32>, a: u32, b: u32) -> spec_fn(int) -> bool {
    |i: int| y_true[i] == a && y_pred[i] == b
}

/// Position `i` holds a prediction equal to the true label.
pub open spec fn par_acerto(y_true: Seq<u32>, y_pred: Seq<u32>) -> spec_fn(int) -> bool {
    |i: int| y_true[i] == y_pred[i]
}

/// Number of paired positions whose true label is `a` and predicted label is `b`.
pub open spec fn conta_rotulos(y_true: Seq<u32>, y_pred: Seq<u32>, a: u32, b: u32) -> nat {
    contagem(comprimento_par(y_true, y_pred), par_rotulos(y_true, y_pred, a, b))
}

/// Number of paired positions whose prediction equals the true label.
pub open spec fn conta_acertos(y_true: Seq<u32>, y_pred: Seq<u32>) -> nat {
    contagem(comprimento_par(y_true, y_pred), par_acerto(y_true, y_pred))
}

/// Confusion matrix of a binary classifier as `(VP, VN, FP, FN)`: true
/// positives, true negatives, false positives and false negatives over the
/// paired positions. Labels other than 0 and 1 are not counted.
pub fn matriz_conf(y_true: &[u32], y_pred: &[u32]) -> (r: (u32, u32, u32, u32))
    requires
        conta_rotulos(y_true@, y_pred@, 1, 1) <= u32::MAX,
        conta_rotulos(y_true@, y_pred@, 0, 0) <= u32::MAX,
        conta_rotulos(y_true@, y_pred@, 0, 1) <= u32::MAX,
        conta_rotulos(y_true@, y_pred@, 1, 0) <= u32::MAX,
    ensures
        r.0 == conta_rotulos(y_true@, y_pred@, 1, 1),
        r.1 == conta_rotulos(y_true@, y_pred@, 0, 0),
        r.2 == conta_rotulos(y_true@, y_pred@, 0, 1),
        r.3 == conta_rotulos(y_true@, y_pred@, 1, 0),
{
    let n: usize = if y_true.len() <= y_pred.len() { y_true.len() } else { y_pred.len() };
    let ghost t = y_true@;
    let ghost p = y_pred@;
    let ghost f_vp = par_rotulos(t, p, 1, 1);
    let ghost f_vn = par_rotulos(t, p, 0, 0);
    let ghost f_fp = par_rotulos(t, p, 0, 1);
    let ghost f_fn = par_rotulos(t, p, 1, 0);
    let mut vp: u32 = 0;
    let mut vn: u32 = 0;
    let mut fp: u32 = 0;
    let mut fn_: u32 = 0;
    let mut i: usize = 0;
    while i < n
        invariant
            i <= n,
            n == comprimento_par(t, p),
            t == y_true@,
            p == y_pred@,
            f_vp == par_rotulos(t, p, 1, 1),
            f_vn == par_rotulos(t, p, 0, 0),
            f_fp == par_rotulos(t, p, 0, 1),
            f_fn == par_rotulos(t, p, 1, 0),
            contagem(n as int, f_vp) <= u32::MAX,
            contagem(n as int, f_vn) <= u32::MAX,
            contagem(n as int, f_fp) <= u32::MAX,
            contagem(n as int, f_fn) <= u32::MAX,
            vp == contagem(i as int, f_vp),
            vn == contagem(i as int, f_vn),
            fp == contagem(i as int, f_fp),
            fn_ == contagem(i as int, f_fn),
        decreases n - i,
    {
        proof {
            lemma_contagem_monotona(i as int + 1, n as int, f_vp);
            lemma_contagem_monotona(i as int + 1, n as int, f_vn);
            lemma_contagem_monotona(i as int + 1, n as int, f_fp);
            lemma_contagem_monotona(i as int + 1, n as int, f_fn);
        }
        let a = y_true[i];
        let b = y_pred[i];
        assert(f_vp(i as int) == (a == 1 && b == 1));
        assert(f_vn(i as int) == (a == 0 && b == 0));
        assert(f_fp(i as int) == (a == 0 && b == 1));
        assert(f_fn(i as int) == (a == 1 && b == 0));
        if a == 1 && b == 1 {
            vp = vp + 1;
        } else if a == 0 && b == 0 {
            vn = vn + 1;
        } else if a == 0 && b == 1 {
            fp = fp + 1;
        } else if a == 1 && b == 0 {
            fn_ = fn_ + 1;
        }
        i = i + 1;
    }
    (vp, vn, fp, fn_)
}

/// Number of paired positions whose prediction equals the true label
/// (the numerator of the accuracy).
pub fn contar_acertos(y_true: &[u32], y_pred: &[u32]) -> (r: usize)
    ensures
        r == conta_acertos(y_true@, y_pred@),
{
    let n: usize = if y_true.len() <= y_pred.len() { y_true.len() } else { y_pred.len() };
    let ghost f = par_acerto(y_true@, y_pred@);
    let mut ok: usize = 0;
    let mut i: usize = 0;
    while i < n
        invariant
            i <= n,
            n == comprimento_par(y_true@, y_pred@),
            f == par_acerto(y_true@, y_pred@),
            ok == contagem(i as int, f),
        decreases n - i,
    {
        proof {
            lemma_contagem_monotona(i as int, i as int, f);
        }
        assert(f(i as int) == (y_true[i as int] == y_pred[i as int]));
        if y_true[i] == y_pred[i] {
            ok = ok + 1;
        }
        i = i + 1;
    }
    ok
}

/// No count exceeds the number of paired positions, so pairs of label
/// sequences no longer than `u32::MAX` always meet the bounds of
/// `matriz_conf`.
pub proof fn lei_contagens_limitadas(y_true: Seq<u32>, y_pred: Seq<u32>, a: u32, b: u32)
    ensures
        conta_rotulos(y_true, y_pred, a, b) <= comprimento_par(y_true, y_pred),
        conta_acertos(y_true, y_pred) <= comprimento_par(y_true, y_pred),
{
    let n = comprimento_par(y_true, y_pred);
    lemma_contagem_monotona(n, n, par_rotulos(y_true, y_pred, a, b));
    lemma_contagem_monotona(n, n, par_acerto(y_true, y_pred));
}

/// Every paired position holds labels 0 or 1.
pub open spec fn rotulos_binarios(y_true: Seq<u32>, y_pred: Seq<u32>) -> bool {
    forall|i: int|
        0 <= i < comprimento_par(y_true, y_pred) ==> (y_true[i] == 0 || y_true[i] == 1) && (
        y_pred[i] == 0 || y_pred[i] == 1)
}

proof fn lemma_binarios_prefixo(y_true: Seq<u32>, y_pred: Seq<u32>, n: int)
    requires
        0 <= n <= comprimento_par(y_true, y_pred),
        rotulos_binarios(y_true, y_pred),
    ensures
        contagem(n, par_acerto(y_true, y_pred)) == contagem(n, par_rotulos(y_true, y_pred, 1, 1))
            + contagem(n, par_rotulos(y_true, y_pred, 0, 0)),
        contagem(n, par_rotulos(y_true, y_pred, 1, 1)) + contagem(n, par_rotulos(y_true, y_pred, 0, 0))
            + contagem(n, par_rotulos(y_true, y_pred, 0, 1)) + contagem(n, par_rotulos(y_true, y_pred, 1, 0))
            == n,
    decreases n,
{
    if n > 0 {
        lemma_binarios_prefixo(y_true, y_pred, n - 1);
        let k = n - 1;
        assert((y_true[k] == 0 || y_true[k] == 1) && (y_pred[k] == 0 || y_pred[k] == 1));
    }
}

/// For binary labels, the confusion matrix covers every paired position
/// (`VP + VN + FP + FN` is the number of pairs) and the correct predictions
/// are exactly the true positives and true negatives, so the accuracy is
/// `(VP + VN) / Total`.
pub proof fn lei_matriz_cobre_pares(y_true: Seq<u32>, y_pred: Seq<u32>)
    requires
        rotulos_binarios(y_true, y_pred),
    ensures
        conta_acertos(y_true, y_pred) == conta_rotulos(y_true, y_pred, 1, 1) + conta_rotulos(
            y_true,
            y_pred,
            0,
            0,
        ),
        conta_rotulos(y_true, y_pred, 1, 1) + conta_rotulos(y_true, y_pred, 0, 0) + conta_rotulos(
            y_true,
            y_pred,
            0,
            1,
        ) + conta_rotulos(y_true, y_pred, 1, 0) == comprimento_par(y_true, y_pred),
{
    lemma_binarios_prefixo(y_true, y_pred, comprimento_par(y_true, y_pred));
}

} // verus!
