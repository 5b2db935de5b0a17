use projeto_rust::graficos::{cor_divergente, indice_do_maior, nos_da_arvore, separar_outliers};

#[test]
fn indice_do_maior_pega_o_ultimo_empatado() {
    assert_eq!(indice_do_maior(&[3, 9, 2, 9, 1]), 3);
    assert_eq!(indice_do_maior(&[7]), 0);
    assert_eq!(indice_do_maior(&[]), 0);
}

#[test]
fn separar_outliers_exemplo() {
    let (fora, dentro) = separar_outliers(&[5, 50, 7, 80, 10], 10);
    assert_eq!(fora, vec![1, 3]);
    assert_eq!(dentro, vec![0, 2, 4]);
}

#[test]
fn cor_divergente_exemplos() {
    assert_eq!(cor_divergente(0, true), (255, 255, 255));
    assert_eq!(cor_divergente(10, true), (255, 235, 235));
    assert_eq!(cor_divergente(127, true), (255, 128, 128));
    assert_eq!(cor_divergente(30, false), (195, 195, 255));
    assert_eq!(cor_divergente(100, false), (128, 128, 255));
}

#[test]
fn nos_da_arvore_tres_niveis() {
    assert_eq!(
        nos_da_arvore(5, 4),
        vec![Some(0), Some(1), Some(2), Some(2), Some(3), None, None]
    );
}

#[test]
fn nos_da_arvore_rasa() {
    assert_eq!(nos_da_arvore(0, 4), vec![Some(0)]);
    assert_eq!(nos_da_arvore(1, 1), vec![Some(0), None, None]);
}
