use projeto_rust::embaralhar::{embaralhar_coluna, Embaralhador};

#[test]
fn embaralhar_coluna_com_sorteios_dados() {
    let mut dados = vec![vec![1, 10], vec![2, 20], vec![3, 30]];
    embaralhar_coluna(&mut dados, 0, &[0, 0]);
    assert_eq!(dados, vec![vec![2, 10], vec![3, 20], vec![1, 30]]);
}

#[test]
fn embaralhar_coluna_sem_linhas() {
    let mut dados: Vec<Vec<u8>> = vec![];
    embaralhar_coluna(&mut dados, 3, &[]);
    assert!(dados.is_empty());
}

#[test]
fn sortear_trocas_respeita_os_limites() {
    let mut e = Embaralhador::novo();
    for n in 0..20usize {
        let s = e.sortear_trocas(n);
        assert_eq!(s.len(), n.saturating_sub(1));
        for (j, &b) in s.iter().enumerate() {
            assert!(b <= n - 1 - j);
        }
    }
}

#[test]
fn embaralhar_feature_permuta_so_a_coluna() {
    let mut e = Embaralhador::novo();
    let original: Vec<Vec<u32>> = (0..10).map(|i| vec![i, 100 + i, 200 + i]).collect();
    let mut mudou = false;
    for _ in 0..20 {
        let mut dados = original.clone();
        e.embaralhar_feature(&mut dados, 1);
        assert_eq!(dados.len(), original.len());
        let mut col: Vec<u32> = dados.iter().map(|l| l[1]).collect();
        if col != original.iter().map(|l| l[1]).collect::<Vec<u32>>() {
            mudou = true;
        }
        col.sort();
        assert_eq!(col, (100..110).collect::<Vec<u32>>());
        for (l, o) in dados.iter().zip(original.iter()) {
            assert_eq!(l[0], o[0]);
            assert_eq!(l[2], o[2]);
        }
    }
    assert!(mudou);
}
