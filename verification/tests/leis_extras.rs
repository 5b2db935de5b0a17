use projeto_rust::categorias::contar_top_categorias;
use projeto_rust::graficos::separar_outliers;
use projeto_rust::ordem::{mediana, quartis};
use projeto_rust::ouro::{
    codificar_one_hot, codificar_ordinal, especificacoes_one_hot, limitar_intervalo,
    limitar_superior, preencher_nulos,
};

fn cats(v: &[Option<&str>]) -> Vec<Option<String>> {
    v.iter().map(|o| o.map(|s| s.to_string())).collect()
}

#[test]
fn codificar_ordinal_exemplo() {
    assert_eq!(
        codificar_ordinal(&[None, Some(3), Some(-1), Some(0), Some(4)]),
        vec![Some(0), Some(3), None, Some(0), Some(4)]
    );
}

#[test]
fn top_categorias_ordena_e_desempata_pela_primeira_aparicao() {
    let v = cats(&[Some("b"), Some("a"), None, Some("a"), Some("c"), Some("b"), None, Some("d"), Some("a")]);
    let r = contar_top_categorias(&v, 10);
    let esperado: Vec<(Option<String>, usize)> = vec![
        (Some("a".to_string()), 3),
        (Some("b".to_string()), 2),
        (None, 2),
        (Some("c".to_string()), 1),
        (Some("d".to_string()), 1),
    ];
    assert_eq!(r, esperado);
}

#[test]
fn top_categorias_respeita_o_limite() {
    let v = cats(&[Some("x"), Some("y"), Some("y"), Some("z"), Some("z"), Some("z")]);
    let r = contar_top_categorias(&v, 2);
    assert_eq!(r, vec![(Some("z".to_string()), 3), (Some("y".to_string()), 2)]);
    assert_eq!(contar_top_categorias(&v, 0), vec![]);
    assert_eq!(contar_top_categorias(&[], 10), vec![]);
}

#[test]
fn outliers_sao_as_linhas_cortadas() {
    let chaves = [5u64, 50, 10, 80, 11];
    let limite = 10;
    let (fora, _) = separar_outliers(&chaves, limite);
    let opcionais: Vec<Option<u64>> = chaves.iter().map(|&k| Some(k)).collect();
    let cortadas = limitar_superior(&opcionais, limite);
    let mudadas: Vec<usize> = (0..chaves.len()).filter(|&i| cortadas[i] != opcionais[i]).collect();
    assert_eq!(fora, mudadas);
}

#[test]
fn estatisticas_nao_dependem_da_ordem_das_linhas() {
    let a = [9u64, 2, 7, 4, 4, 1, 8];
    let b = [4u64, 8, 1, 9, 4, 7, 2];
    assert_eq!(mediana(&a), mediana(&b));
    assert_eq!(quartis(&a), quartis(&b));
}

#[test]
fn one_hot_nao_depende_da_ordem_das_linhas() {
    let c1 = vec![("data_type".to_string(), cats(&[Some("PII"), Some("mixed"), None, Some("PII")]))];
    let c2 = vec![("data_type".to_string(), cats(&[None, Some("mixed"), Some("PII"), Some("PII")]))];
    let mut e1 = especificacoes_one_hot(&c1);
    let mut e2 = especificacoes_one_hot(&c2);
    e1.sort();
    e2.sort();
    assert_eq!(e1, e2);
}

#[test]
fn transformacao_e_linha_a_linha() {
    let a = [Some(3u64), None, Some(40)];
    let b = [None, Some(1u64)];
    let ab: Vec<Option<u64>> = a.iter().chain(b.iter()).cloned().collect();
    let junta = |x: Vec<u64>, y: Vec<u64>| -> Vec<u64> { x.into_iter().chain(y).collect() };
    assert_eq!(preencher_nulos(&ab, 7), junta(preencher_nulos(&a, 7), preencher_nulos(&b, 7)));
    let mut esperado = limitar_superior(&a, 10);
    esperado.extend(limitar_superior(&b, 10));
    assert_eq!(limitar_superior(&ab, 10), esperado);
    let mut esperado = limitar_intervalo(&a, 2, 10);
    esperado.extend(limitar_intervalo(&b, 2, 10));
    assert_eq!(limitar_intervalo(&ab, 2, 10), esperado);
    let ca = cats(&[Some("51"), None]);
    let cb = cats(&[Some("52"), Some("51")]);
    let cab: Vec<Option<String>> = ca.iter().chain(cb.iter()).cloned().collect();
    let cat = "51".to_string();
    let mut esperado = codificar_one_hot(&ca, &cat);
    esperado.extend(codificar_one_hot(&cb, &cat));
    assert_eq!(codificar_one_hot(&cab, &cat), esperado);
}
