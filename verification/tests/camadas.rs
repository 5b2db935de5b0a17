use projeto_rust::colunas::{
    colunas_a_manter, colunas_existentes, contem_nome, detectar_features, ColunaResumo, TipoColuna,
};
use projeto_rust::ouro::{
    codificar_one_hot, especificacoes_one_hot, indice_divisao, limitar_intervalo, limitar_superior,
    nome_coluna_one_hot, preencher_nulos,
};

fn nomes(v: &[&str]) -> Vec<String> {
    v.iter().map(|s| s.to_string()).collect()
}

#[test]
fn colunas_a_manter_remove_as_de_vazamento() {
    let esquema = nomes(&["incident_id", "industry_primary", "downtime_hours", "total_loss_usd", "notes"]);
    let dropar = nomes(&["downtime_hours", "notes", "incident_id", "meta_hash_ingestao"]);
    assert_eq!(colunas_a_manter(&esquema, &dropar), nomes(&["industry_primary", "total_loss_usd"]));
}

#[test]
fn colunas_existentes_mantem_a_ordem_desejada() {
    let desejadas = nomes(&["company_revenue_usd", "employee_count", "data_type", "quality_score"]);
    let existentes = nomes(&["quality_score", "data_type", "company_revenue_usd"]);
    assert_eq!(
        colunas_existentes(&desejadas, &existentes),
        nomes(&["company_revenue_usd", "data_type", "quality_score"])
    );
}

#[test]
fn contem_nome_exemplo() {
    let lista = nomes(&["a", "bb"]);
    assert!(contem_nome(&lista, &"bb".to_string()));
    assert!(!contem_nome(&lista, &"b".to_string()));
}

fn coluna(nome: &str, tipo: TipoColuna) -> ColunaResumo {
    ColunaResumo { nome: nome.to_string(), tipo }
}

#[test]
fn detectar_features_escolhe_numericas_e_texto_numerico() {
    let colunas = vec![
        coluna("company_revenue_usd", TipoColuna::Numerica),
        coluna("total_loss_usd", TipoColuna::Numerica),
        coluna("confidence_tier", TipoColuna::Texto { validos: 3 }),
        coluna("country_hq", TipoColuna::Texto { validos: 0 }),
        coluna("meio_a_meio", TipoColuna::Texto { validos: 2 }),
        coluna("target", TipoColuna::Numerica),
        coluna("created_at", TipoColuna::Outra),
        coluna("is_public_company", TipoColuna::Numerica),
    ];
    assert_eq!(
        detectar_features(&colunas, 4),
        nomes(&["company_revenue_usd", "confidence_tier", "is_public_company"])
    );
}

#[test]
fn detectar_features_de_tabela_vazia() {
    let colunas = vec![coluna("employee_count", TipoColuna::Numerica)];
    assert_eq!(detectar_features(&colunas, 0), Vec::<String>::new());
}

#[test]
fn indice_divisao_e_oitenta_por_cento() {
    assert_eq!(indice_divisao(778), 622);
    assert_eq!(indice_divisao(10), 8);
    assert_eq!(indice_divisao(4), 3);
    assert_eq!(indice_divisao(1), 0);
    assert_eq!(indice_divisao(0), 0);
    assert_eq!(indice_divisao(usize::MAX), usize::MAX / 5 * 4);
}

#[test]
fn limitar_superior_corta_acima() {
    let v = [Some(5u64), Some(100), None, Some(50)];
    assert_eq!(limitar_superior(&v, 50), vec![Some(5), Some(50), None, Some(50)]);
    let duas_vezes = limitar_superior(&limitar_superior(&v, 50), 50);
    assert_eq!(duas_vezes, limitar_superior(&v, 50));
}

#[test]
fn limitar_intervalo_corta_dos_dois_lados() {
    let v = [Some(1u64), Some(10), Some(20), None];
    assert_eq!(limitar_intervalo(&v, 5, 15), vec![Some(5), Some(10), Some(15), None]);
    assert_eq!(limitar_intervalo(&[Some(3u64)], 9, 2), vec![Some(2)]);
}

#[test]
fn preencher_nulos_usa_o_valor_dado() {
    assert_eq!(preencher_nulos(&[None, Some(3u64), None], 7), vec![7, 3, 7]);
}

fn valores(v: &[Option<&str>]) -> Vec<Option<String>> {
    v.iter().map(|o| o.map(|s| s.to_string())).collect()
}

#[test]
fn codificar_one_hot_exemplo() {
    let v = valores(&[Some("51"), Some("52"), None, Some("51")]);
    assert_eq!(codificar_one_hot(&v, &"51".to_string()), vec![1, 0, 0, 1]);
}

#[test]
fn nome_coluna_one_hot_exemplo() {
    assert_eq!(
        nome_coluna_one_hot(&"industry_primary".to_string(), &"51".to_string()),
        "industry_primary_51"
    );
}

#[test]
fn especificacoes_one_hot_sem_repeticao_na_ordem() {
    let colunas = vec![
        ("industry_primary".to_string(), valores(&[Some("51"), Some("52"), Some("51"), None])),
        ("data_type".to_string(), valores(&[None, Some("PII"), Some("mixed"), Some("PII")])),
        ("vazia".to_string(), valores(&[None])),
    ];
    let esperado: Vec<(String, String)> = vec![
        ("industry_primary".to_string(), "51".to_string()),
        ("industry_primary".to_string(), "52".to_string()),
        ("data_type".to_string(), "PII".to_string()),
        ("data_type".to_string(), "mixed".to_string()),
    ];
    assert_eq!(especificacoes_one_hot(&colunas), esperado);
}

#[test]
fn cada_valor_de_treino_tem_um_so_indicador() {
    let colunas = vec![
        ("attack_vector_primary".to_string(), valores(&[Some("phishing"), Some("ransomware"), Some("phishing")])),
        ("data_type".to_string(), valores(&[Some("phishing"), None])),
    ];
    let especs = especificacoes_one_hot(&colunas);
    for (nome, vals) in &colunas {
        for v in vals {
            if v.is_some() {
                let uns: u32 = especs
                    .iter()
                    .filter(|(c, _)| c == nome)
                    .map(|(_, cat)| codificar_one_hot(&[v.clone()], cat)[0])
                    .sum();
                assert_eq!(uns, 1);
            }
        }
    }
}
