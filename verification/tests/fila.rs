use papete::fila::Fila;

#[test]
fn fila_nova_esta_vazia() {
    let mut f = Fila::new();
    assert_eq!(f.desenfileirar(), None);
    assert_eq!(f.desenfileirar(), None);
}

#[test]
fn fila_entrega_na_ordem_de_chegada() {
    let mut f = Fila::new();
    f.enfileirar("um".to_string());
    f.enfileirar("dois".to_string());
    f.enfileirar("tres".to_string());
    assert_eq!(f.desenfileirar(), Some("um".to_string()));
    f.enfileirar("quatro".to_string());
    assert_eq!(f.desenfileirar(), Some("dois".to_string()));
    assert_eq!(f.desenfileirar(), Some("tres".to_string()));
    assert_eq!(f.desenfileirar(), Some("quatro".to_string()));
    assert_eq!(f.desenfileirar(), None);
}

#[test]
fn fila_nao_tem_limite() {
    let mut f = Fila::new();
    for i in 0..5000 {
        f.enfileirar(format!("m{}", i));
    }
    for i in 0..5000 {
        assert_eq!(f.desenfileirar(), Some(format!("m{}", i)));
    }
    assert_eq!(f.desenfileirar(), None);
}
