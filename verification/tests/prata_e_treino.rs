use projeto_rust::colunas::contar_presentes;
use projeto_rust::prata::{juntar_por_chave, linhas_com_alvo, preencher_categoria};
use projeto_rust::treino::{aprender_no_treino, valores_presentes};

fn cats(v: &[Option<&str>]) -> Vec<Option<String>> {
    v.iter().map(|o| o.map(|s| s.to_string())).collect()
}

#[test]
fn preencher_categoria_usa_desconhecido() {
    let r = preencher_categoria(&cats(&[Some("phishing"), None]), &"Desconhecido".to_string());
    assert_eq!(r, vec!["phishing".to_string(), "Desconhecido".to_string()]);
}

#[test]
fn linhas_com_alvo_exemplo() {
    assert_eq!(linhas_com_alvo(&[true, false, true, true, false]), vec![0, 2, 3]);
    assert_eq!(linhas_com_alvo(&[]), Vec::<usize>::new());
}

#[test]
fn juntar_por_chave_casa_todos_os_pares() {
    let esq = cats(&[Some("INC-1"), Some("INC-2"), None, Some("INC-3")]);
    let dir = cats(&[Some("INC-3"), Some("INC-1"), None, Some("INC-1")]);
    assert_eq!(juntar_por_chave(&esq, &dir), vec![(0, 1), (0, 3), (3, 0)]);
}

#[test]
fn contar_presentes_exemplo() {
    assert_eq!(contar_presentes(&[Some(1.5f64), None, Some(2.0)]), 2);
    assert_eq!(contar_presentes::<u8>(&[]), 0);
}

#[test]
fn valores_presentes_exemplo() {
    assert_eq!(valores_presentes(&[Some(4), None, Some(2)]), vec![4, 2]);
}

#[test]
fn aprender_no_treino_ignora_o_teste() {
    // 10 linhas: treino = 8 primeiras.
    let nominais = vec![(
        "data_type".to_string(),
        cats(&[Some("PII"), Some("PII"), None, Some("mixed"), Some("PII"), None, None, Some("PII"), Some("so_no_teste"), Some("outra")]),
    )];
    let numericas = vec![vec![Some(5), Some(1), None, Some(9), Some(3), Some(7), None, Some(2), Some(1000), Some(2000)]];
    let perdas = vec![Some(10), Some(20), Some(30), Some(40), Some(50), Some(60), Some(70), Some(80), Some(9000), Some(9999)];
    let p = aprender_no_treino(&nominais, &numericas, &perdas, 10);
    assert_eq!(
        p.onehot,
        vec![("data_type".to_string(), "PII".to_string()), ("data_type".to_string(), "mixed".to_string())]
    );
    // presentes do treino: 5,1,9,3,7,2 -> ordenados 1,2,3,5,7,9 -> posicao 3 -> 5
    assert_eq!(p.medianas, vec![Some(5)]);
    // perdas do treino: 10..80 -> quartis nas posicoes 2 e 6
    assert_eq!(p.quartis, Some((30, 70)));

    let mut perdas_outras = perdas.clone();
    perdas_outras[9] = Some(1);
    let mut numericas_outras = numericas.clone();
    numericas_outras[0][8] = None;
    let q = aprender_no_treino(&nominais, &numericas_outras, &perdas_outras, 10);
    assert_eq!(q.medianas, p.medianas);
    assert_eq!(q.quartis, p.quartis);
}

#[test]
fn aprender_no_treino_sem_linhas() {
    let p = aprender_no_treino(&[], &[vec![]], &[], 0);
    assert!(p.onehot.is_empty());
    assert_eq!(p.medianas, vec![None]);
    assert_eq!(p.quartis, None);
}
