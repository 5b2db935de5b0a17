//! Which columns travel through the pipeline: the anti-leakage selection of
//! the silver layer, the selection of the gold layer and the detection of
//! the model's features.
use vstd::prelude::*;

verus! {

/// The texts of a list of names.
pub open spec fn vistas(nomes: Seq<String>) -> Seq<Seq<char>> {
    nomes.map_values(|n: String| n@)
}

/// Names of `nomes` whose membership in `lista` is `contido`, in their order.
pub open spec fn filtro_pertinencia(nomes: Seq<Seq<char>>, lista: Seq<Seq<char>>, contido: bool) -> Seq<
    Seq<char>,
> {
    nomes.filter(|n: Seq<char>| lista.contains(n) == contido)
}

/// Whether the text of `nome` is one of the texts of `lista`.
pub fn contem_nome(lista: &[String], nome: &String) -> (r: bool)
    ensures
        r == vistas(lista@).contains(nome@),
{
    let mut i: usize = 0;
    while i < lista.len()
        invariant
            i <= lista@.len(),
            forall|j: int| 0 <= j < i ==> lista@[j]@ != nome@,
        decreases lista@.len() - i,
    {
        if lista[i] == *nome {
            assert(vistas(lista@)[i as int] == nome@);
            return true;
        }
        i = i + 1;
    }
    proof {
        assert forall|j: int| 0 <= j < vistas(lista@).len() implies vistas(lista@)[j] != nome@ by {
            assert(vistas(lista@)[j] == lista@[j]@);
        }
    }
    false
}

fn filtrar_por_pertinencia(nomes: &[String], lista: &[String], contido: bool) -> (r: Vec<String>)
    ensures
        vistas(r@) == filtro_pertinencia(vistas(nomes@), vistas(lista@), contido),
{
    let ghost pred = |n: Seq<char>| vistas(lista@).contains(n) == contido;
    let mut r: Vec<String> = Vec::new();
    let mut i: usize = 0;
    while i < nomes.len()
        invariant
            i <= nomes@.len(),
            pred == (|n: Seq<char>| vistas(lista@).contains(n) == contido),
            vistas(r@) == vistas(nomes@).subrange(0, i as int).filter(pred),
        decreases nomes@.len() - i,
    {
        let ghost antes = r@;
        let esta = contem_nome(lista, &nomes[i]);
        proof {
            let pre = vistas(nomes@).subrange(0, i as int);
            assert(vistas(nomes@).subrange(0, i as int + 1) =~= pre.push(nomes@[i as int]@));
            pre.lemma_filter_push(nomes@[i as int]@, pred);
        }
        if esta == contido {
            r.push(nomes[i].clone());
            assert(vistas(r@) =~= vistas(antes).push(nomes@[i as int]@));
        } else {
            assert(vistas(r@) =~= vistas(antes));
        }
        i = i + 1;
    }
    assert(vistas(nomes@).subrange(0, nomes@.len() as int) =~= vistas(nomes@));
    r
}

/// Columns of the joined schema that the silver layer keeps: every column
/// of `esquema` whose name is not in `dropar` (the columns that would leak
/// the target or identify the record), in schema order.
pub fn colunas_a_manter(esquema: &[String], dropar: &[String]) -> (r: Vec<String>)
    ensures
        vistas(r@) == filtro_pertinencia(vistas(esquema@), vistas(dropar@), false),
{
    filtrar_por_pertinencia(esquema, dropar, false)
}

/// Columns of the list `desejadas` that exist in the table (`existentes`),
/// in the order of `desejadas`.
pub fn colunas_existentes(desejadas: &[String], existentes: &[String]) -> (r: Vec<String>)
    ensures
        vistas(r@) == filtro_pertinencia(vistas(desejadas@), vistas(existentes@), true),
{
    filtrar_por_pertinencia(desejadas, existentes, true)
}

/// The silver layer never keeps a dropped column and keeps every other
/// column of the schema.
pub proof fn lei_sem_vazamento(esquema: Seq<Seq<char>>, dropar: Seq<Seq<char>>)
    ensures
        forall|n: Seq<char>|
            #[trigger] filtro_pertinencia(esquema, dropar, false).contains(n) <==> (
            esquema.contains(n) && !dropar.contains(n)),
{
    let f = |n: Seq<char>| dropar.contains(n) == false;
    assert forall|n: Seq<char>|
        #[trigger] filtro_pertinencia(esquema, dropar, false).contains(n) <==> (esquema.contains(n)
            && !dropar.contains(n)) by {
        let r = esquema.filter(f);
        if r.contains(n) {
            let k = choose|k: int| 0 <= k < r.len() && r[k] == n;
            esquema.lemma_filter_pred(f, k);
            esquema.lemma_filter_contains_rev(f, n);
        }
        if esquema.contains(n) && !dropar.contains(n) {
            let k = choose|k: int| 0 <= k < esquema.len() && esquema[k] == n;
            esquema.lemma_filter_contains(f, k);
        }
    }
}

/// The gold layer selects only columns it asks for: a name is selected
/// exactly when it is one of the wanted names and one of the table's
/// columns, and no more names come out than were wanted.
pub proof fn lei_selecao_so_desejadas(desejadas: Seq<Seq<char>>, existentes: Seq<Seq<char>>)
    ensures
        forall|n: Seq<char>|
            #[trigger] filtro_pertinencia(desejadas, existentes, true).contains(n) <==> (
            desejadas.contains(n) && existentes.contains(n)),
        filtro_pertinencia(desejadas, existentes, true).len() <= desejadas.len(),
{
    let f = |n: Seq<char>| existentes.contains(n) == true;
    desejadas.lemma_filter_len(f);
    assert forall|n: Seq<char>|
        #[trigger] filtro_pertinencia(desejadas, existentes, true).contains(n) <==> (
        desejadas.contains(n) && existentes.contains(n)) by {
        let r = desejadas.filter(f);
        if r.contains(n) {
            let k = choose|k: int| 0 <= k < r.len() && r[k] == n;
            desejadas.lemma_filter_pred(f, k);
            desejadas.lemma_filter_contains_rev(f, n);
        }
        if desejadas.contains(n) && existentes.contains(n) {
            let k = choose|k: int| 0 <= k < desejadas.len() && desejadas[k] == n;
            desejadas.lemma_filter_contains(f, k);
        }
    }
}

/// Filtering by membership goes name by name, in order: no names give no
/// names, and one more name at the end is appended to the result when its
/// membership is the one asked for and dropped otherwise.
pub proof fn lei_pertinencia_nome_a_nome(
    nomes: Seq<Seq<char>>,
    lista: Seq<Seq<char>>,
    contido: bool,
    n: Seq<char>,
)
    ensures
        filtro_pertinencia(Seq::empty(), lista, contido) == Seq::<Seq<char>>::empty(),
        lista.contains(n) == contido ==> filtro_pertinencia(nomes.push(n), lista, contido)
            == filtro_pertinencia(nomes, lista, contido).push(n),
        lista.contains(n) != contido ==> filtro_pertinencia(nomes.push(n), lista, contido)
            == filtro_pertinencia(nomes, lista, contido),
{
    let f = |m: Seq<char>| lista.contains(m) == contido;
    nomes.lemma_filter_push(n, f);
    Seq::<Seq<char>>::empty().lemma_filter_len(f);
}

/// Being a present entry.
pub open spec fn presente<T>() -> spec_fn(Option<T>) -> bool {
    |v: Option<T>| v is Some
}

/// Number of present entries of a column (for a text column read as
/// numbers, the entries that read as a number).
pub fn contar_presentes<T>(valores: &[Option<T>]) -> (r: usize)
    ensures
        r == valores@.filter(presente::<T>()).len(),
{
    let ghost f = presente::<T>();
    let mut r: usize = 0;
    let mut i: usize = 0;
    while i < valores.len()
        invariant
            i <= valores@.len(),
            f == presente::<T>(),
            r == valores@.subrange(0, i as int).filter(f).len(),
        decreases valores@.len() - i,
    {
        proof {
            let pre = valores@.subrange(0, i as int);
            assert(valores@.subrange(0, i as int + 1) =~= pre.push(valores@[i as int]));
            pre.lemma_filter_push(valores@[i as int], f);
            pre.lemma_filter_len(f);
        }
        if valores[i].is_some() {
            r = r + 1;
        }
        i = i + 1;
    }
    assert(valores@.subrange(0, valores@.len() as int) =~= valores@);
    r
}

/// Data type of a column, as far as feature detection needs it.
pub enum TipoColuna {
    /// Native numeric or boolean column.
    Numerica,
    /// Text column; `validos` counts its entries that read as a number.
    Texto { validos: usize },
    /// Any other type.
    Outra,
}

/// Name and type of one column of a table.
pub struct ColunaResumo {
    pub nome: String,
    pub tipo: TipoColuna,
}

/// Whether a column of a table with `total` rows is a feature of the model:
/// the table has rows, the column is neither the loss the target derives
/// from nor the target itself, and it is numeric, or text in which more
/// than half of the entries read as a number.
pub open spec fn eh_feature(c: ColunaResumo, total: nat) -> bool {
    &&& total > 0
    &&& c.nome@ != "total_loss_usd"@
    &&& c.nome@ != "target"@
    &&& match c.tipo {
        TipoColuna::Numerica => true,
        TipoColuna::Texto { validos } => 2 * validos > total,
        TipoColuna::Outra => false,
    }
}

/// Names of the features among the columns of a table with `total` rows,
/// in column order.
pub open spec fn features_de(colunas: Seq<ColunaResumo>, total: nat) -> Seq<Seq<char>> {
    colunas.filter(|c: ColunaResumo| eh_feature(c, total)).map_values(|c: ColunaResumo| c.nome@)
}

/// Neither the loss the target derives from nor the target itself is ever
/// a feature.
pub proof fn lei_alvo_nao_e_feature(colunas: Seq<ColunaResumo>, total: nat)
    ensures
        !features_de(colunas, total).contains("total_loss_usd"@),
        !features_de(colunas, total).contains("target"@),
{
    let f = |c: ColunaResumo| eh_feature(c, total);
    let filtradas = colunas.filter(f);
    let r = features_de(colunas, total);
    assert forall|k: int| 0 <= k < r.len() implies r[k] != "total_loss_usd"@ && r[k] != "target"@ by {
        colunas.lemma_filter_pred(f, k);
        assert(r[k] == filtradas[k].nome@);
    }
}

/// Which columns are features, by type, for a column that is neither the
/// loss nor the target in a table with rows: a numeric column always is; a
/// text column is exactly when more than half of its entries read as a
/// number, so one whose entries all read as numbers is, and a text column
/// that is a feature stays one with more such entries; a column of any
/// other type never is. With no rows there is no feature.
pub proof fn lei_feature_por_tipo(nome: String, total: nat, validos: usize, mais: usize)
    requires
        nome@ != "total_loss_usd"@,
        nome@ != "target"@,
    ensures
        total > 0 ==> eh_feature(ColunaResumo { nome, tipo: TipoColuna::Numerica }, total),
        total > 0 ==> (eh_feature(ColunaResumo { nome, tipo: TipoColuna::Texto { validos } }, total)
            <==> 2 * validos > total),
        0 < total <= validos ==> eh_feature(
            ColunaResumo { nome, tipo: TipoColuna::Texto { validos } },
            total,
        ),
        eh_feature(ColunaResumo { nome, tipo: TipoColuna::Texto { validos } }, total) && validos
            <= mais ==> eh_feature(ColunaResumo { nome, tipo: TipoColuna::Texto { validos: mais } }, total),
        !eh_feature(ColunaResumo { nome, tipo: TipoColuna::Outra }, total),
        !eh_feature(ColunaResumo { nome, tipo: TipoColuna::Numerica }, 0),
{
}

/// A table with no rows has no feature, and neither the loss the target
/// derives from nor the target itself is a feature, whatever its type.
pub proof fn lei_sem_linhas_ou_alvo(c: ColunaResumo, total: nat)
    ensures
        !eh_feature(c, 0),
        c.nome@ == "total_loss_usd"@ ==> !eh_feature(c, total),
        c.nome@ == "target"@ ==> !eh_feature(c, total),
{
}

/// The detected features are exactly the names of the columns that are
/// features: every feature column gives its name, and every name given is
/// that of a feature column.
pub proof fn lei_features_sao_as_colunas_feature(colunas: Seq<ColunaResumo>, total: nat)
    ensures
        forall|k: int|
            0 <= k < colunas.len() && eh_feature(#[trigger] colunas[k], total) ==> features_de(
                colunas,
                total,
            ).contains(colunas[k].nome@),
        forall|n: Seq<char>|
            #[trigger] features_de(colunas, total).contains(n) ==> exists|k: int|
                0 <= k < colunas.len() && eh_feature(#[trigger] colunas[k], total) && colunas[k].nome@
                    == n,
{
    let f = |c: ColunaResumo| eh_feature(c, total);
    let filtradas = colunas.filter(f);
    let r = features_de(colunas, total);
    assert forall|k: int|
        0 <= k < colunas.len() && eh_feature(#[trigger] colunas[k], total) implies r.contains(
        colunas[k].nome@,
    ) by {
        colunas.lemma_filter_contains(f, k);
        let j = choose|j: int| 0 <= j < filtradas.len() && filtradas[j] == colunas[k];
        assert(r[j] == colunas[k].nome@);
    }
    assert forall|n: Seq<char>| #[trigger] r.contains(n) implies exists|k: int|
        0 <= k < colunas.len() && eh_feature(#[trigger] colunas[k], total) && colunas[k].nome@
            == n by {
        let j = choose|j: int| 0 <= j < r.len() && r[j] == n;
        colunas.lemma_filter_pred(f, j);
        colunas.lemma_filter_contains_rev(f, filtradas[j]);
        assert(filtradas.contains(filtradas[j]));
        let k = choose|k: int| 0 <= k < colunas.len() && colunas[k] == filtradas[j];
        assert(eh_feature(colunas[k], total) && colunas[k].nome@ == n);
    }
}

/// Detects the feature columns of a table with `total` rows.
pub fn detectar_features(colunas: &[ColunaResumo], total: usize) -> (r: Vec<String>)
    ensures
        vistas(r@) == features_de(colunas@, total as nat),
{
    let ghost pred = |c: ColunaResumo| eh_feature(c, total as nat);
    let mut r: Vec<String> = Vec::new();
    if total == 0 {
        proof {
            assert forall|k: int| 0 <= k < colunas@.len() implies !pred(#[trigger] colunas@[k]) by {}
            colunas@.lemma_all_neg_filter_empty(pred);
        }
        assert(vistas(r@) =~= features_de(colunas@, total as nat));
        return r;
    }
    let alvo_perda = "total_loss_usd".to_owned();
    let alvo = "target".to_owned();
    let mut i: usize = 0;
    while i < colunas.len()
        invariant
            i <= colunas@.len(),
            total > 0,
            alvo_perda@ == "total_loss_usd"@,
            alvo@ == "target"@,
            pred == (|c: ColunaResumo| eh_feature(c, total as nat)),
            vistas(r@) == colunas@.subrange(0, i as int).filter(pred).map_values(
                |c: ColunaResumo| c.nome@,
            ),
        decreases colunas@.len() - i,
    {
        let c = &colunas[i];
        let escolhida = if c.nome == alvo_perda || c.nome == alvo {
            false
        } else {
            match c.tipo {
                TipoColuna::Numerica => true,
                TipoColuna::Texto { validos } => validos > total / 2,
                TipoColuna::Outra => false,
            }
        };
        let ghost antes = r@;
        proof {
            let pre = colunas@.subrange(0, i as int);
            assert(colunas@.subrange(0, i as int + 1) =~= pre.push(colunas@[i as int]));
            pre.lemma_filter_push(colunas@[i as int], pred);
            assert(escolhida == pred(colunas@[i as int]));
        }
        if escolhida {
            r.push(c.nome.clone());
            assert(vistas(r@) =~= vistas(antes).push(c.nome@));
        } else {
            assert(vistas(r@) =~= vistas(antes));
        }
        i = i + 1;
    }
    assert(colunas@.subrange(0, colunas@.len() as int) =~= colunas@);
    r
}

} // verus!
