use psf::Stack;

#[test]
fn pilha_nova_esta_vazia() {
    let mut p: Stack<i32> = Stack::new();
    assert!(p.is_empty());
    assert_eq!(p.len(), 0);
    assert_eq!(p.pop(), None);
    assert!(p.is_empty());
}

#[test]
fn pilha_devolve_na_ordem_inversa() {
    let mut p: Stack<i32> = Stack::new();
    p.push(1);
    p.push(2);
    p.push(3);
    assert!(!p.is_empty());
    assert_eq!(p.len(), 3);
    assert_eq!(p.pop(), Some(3));
    assert_eq!(p.len(), 2);
    assert_eq!(p.pop(), Some(2));
    assert_eq!(p.pop(), Some(1));
    assert_eq!(p.pop(), None);
    assert_eq!(p.len(), 0);
}

#[test]
fn pilha_aceita_valores_sem_copia() {
    let mut p: Stack<String> = Stack::new();
    p.push(String::from("a"));
    p.push(String::from("b"));
    assert_eq!(p.pop(), Some(String::from("b")));
    p.push(String::from("c"));
    assert_eq!(p.pop(), Some(String::from("c")));
    assert_eq!(p.pop(), Some(String::from("a")));
}
