use projeto_rust::metricas::{contar_acertos, matriz_conf};
use projeto_rust::ordem::{
    estatistica_de_ordem, mediana, ordenar, posicao_terceiro_quartil, quartis, rotular_por_mediana,
};

#[test]
fn matriz_conf_conta_os_quatro_casos() {
    let y_true = [1u32, 1, 0, 0, 1, 0, 1];
    let y_pred = [1u32, 0, 0, 1, 1, 0, 0];
    assert_eq!(matriz_conf(&y_true, &y_pred), (2, 2, 1, 2));
}

#[test]
fn matriz_conf_usa_o_par_mais_curto() {
    let y_true = [1u32, 0, 1, 1];
    let y_pred = [1u32, 0];
    assert_eq!(matriz_conf(&y_true, &y_pred), (1, 1, 0, 0));
    assert_eq!(matriz_conf(&[], &y_pred), (0, 0, 0, 0));
}

#[test]
fn matriz_conf_ignora_rotulos_nao_binarios() {
    let y_true = [2u32, 1, 2, 0];
    let y_pred = [2u32, 2, 1, 0];
    assert_eq!(matriz_conf(&y_true, &y_pred), (0, 1, 0, 0));
    assert_eq!(contar_acertos(&y_true, &y_pred), 2);
}

#[test]
fn acertos_de_rotulos_binarios_sao_vp_mais_vn() {
    let y_true = [1u32, 1, 0, 0, 1, 0, 1, 0, 0];
    let y_pred = [1u32, 0, 0, 1, 1, 0, 0, 0, 1];
    let (vp, vn, fp, fn_) = matriz_conf(&y_true, &y_pred);
    assert_eq!(contar_acertos(&y_true, &y_pred), (vp + vn) as usize);
    assert_eq!((vp + vn + fp + fn_) as usize, y_true.len());
}

#[test]
fn contar_acertos_exemplo() {
    assert_eq!(contar_acertos(&[1, 0, 1, 1], &[1, 1, 1, 0]), 2);
    assert_eq!(contar_acertos(&[], &[]), 0);
}

#[test]
fn ordenar_ordena_com_repeticoes() {
    assert_eq!(ordenar(&[5, 3, 9, 3, 1, 7]), vec![1, 3, 3, 5, 7, 9]);
    assert_eq!(ordenar(&[]), Vec::<u64>::new());
}

#[test]
fn estatistica_de_ordem_exemplo() {
    let v = [40u64, 10, 30, 20];
    assert_eq!(estatistica_de_ordem(&v, 0), 10);
    assert_eq!(estatistica_de_ordem(&v, 3), 40);
}

#[test]
fn mediana_pega_a_posicao_len_sobre_2() {
    assert_eq!(mediana(&[4, 1, 3, 2]), Some(3));
    assert_eq!(mediana(&[7, 1, 5]), Some(5));
    assert_eq!(mediana(&[]), None);
}

#[test]
fn quartis_exemplo() {
    let v = [80u64, 10, 70, 20, 60, 30, 50, 40];
    assert_eq!(quartis(&v), (30, 70));
    assert_eq!(quartis(&[9]), (9, 9));
}

#[test]
fn quartis_sao_ordenados() {
    let v = [13u64, 2, 99, 41, 7, 7, 58, 23, 5, 64, 1];
    let (q1, q3) = quartis(&v);
    let m = mediana(&v).unwrap();
    assert!(q1 <= m && m <= q3);
}

#[test]
fn posicao_terceiro_quartil_exemplo() {
    assert_eq!(posicao_terceiro_quartil(0), 0);
    assert_eq!(posicao_terceiro_quartil(1), 0);
    assert_eq!(posicao_terceiro_quartil(4), 3);
    assert_eq!(posicao_terceiro_quartil(7), 5);
    assert_eq!(posicao_terceiro_quartil(778), 583);
}

#[test]
fn rotular_por_mediana_exemplo() {
    let (y, m) = rotular_por_mediana(&[50, 10, 40, 20, 30]);
    assert_eq!(m, 30);
    assert_eq!(y, vec![1, 0, 1, 0, 0]);
}

#[test]
fn rotular_por_mediana_com_empates() {
    let (y, m) = rotular_por_mediana(&[5, 5, 5, 5]);
    assert_eq!(m, 5);
    assert_eq!(y, vec![0, 0, 0, 0]);
}

#[test]
fn alto_impacto_e_minoria() {
    let perdas = [3u64, 8, 1, 9, 4, 4, 12, 7, 2, 6];
    let (y, _) = rotular_por_mediana(&perdas);
    let positivos = y.iter().filter(|&&r| r == 1).count();
    assert!(positivos <= (perdas.len() - 1) / 2);
    assert_eq!(positivos, 4);
}
