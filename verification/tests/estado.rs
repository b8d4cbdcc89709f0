use psf::{ASTItem, Erro, Item, PSFState, Parada};

#[test]
fn estado_novo_esta_vazio() {
    let estado = PSFState::new();
    assert_eq!(estado.valores(), vec![]);
    assert!(!estado.tem_pendentes());
    assert!(!estado.tem_funcao("main"));
    assert!(!estado.tem_funcao("printp"));
}

#[test]
fn load_funcs_define_printp() {
    let mut estado = PSFState::new();
    estado.load_funcs();
    assert!(estado.tem_funcao("printp"));
    assert_eq!(estado.run_raw_string("1 2 printp"), Ok(Parada::Imprimir(String::from("2"))));
    assert_eq!(estado.continuar(), Ok(Parada::Fim));
    assert_eq!(estado.valores(), vec![Item::Numero(1)]);
}

#[test]
fn load_ast_define_cada_funcao() {
    let mut estado = PSFState::new();
    estado.load_ast(vec![
        (String::from("a"), vec![ASTItem::Numero(1)]),
        (String::from("b"), vec![ASTItem::Numero(2)]),
    ]);
    assert!(estado.tem_funcao("a"));
    assert!(estado.tem_funcao("b"));
    assert!(!estado.tem_funcao("c"));
    assert_eq!(estado.run_raw_string("a b a"), Ok(Parada::Fim));
    assert_eq!(estado.valores(), vec![Item::Numero(1), Item::Numero(2), Item::Numero(1)]);
}

#[test]
fn definicao_posterior_substitui_a_anterior() {
    let mut estado = PSFState::new();
    estado.load_string("f = ( 1 ) g = ( 5 ) f = ( 2 )").unwrap();
    assert_eq!(estado.run_function("f"), Ok(Parada::Fim));
    assert_eq!(estado.valores(), vec![Item::Numero(2)]);
    estado.load_string("f = ( 3 )").unwrap();
    estado.clear_stack();
    assert_eq!(estado.run_raw_string("f g"), Ok(Parada::Fim));
    assert_eq!(estado.valores(), vec![Item::Numero(3), Item::Numero(5)]);
}

#[test]
fn nomes_distinguem_maiusculas() {
    let mut estado = PSFState::new();
    estado.load_string("Main = ( 1 )").unwrap();
    assert!(estado.tem_funcao("Main"));
    assert!(!estado.tem_funcao("main"));
    assert_eq!(estado.run_main(), Err(Erro::FuncaoInexistente(String::from("main"))));
}

#[test]
fn load_string_com_erro_nao_define_nada() {
    let mut estado = PSFState::new();
    assert_eq!(estado.load_string("a = ( 1 ) b = ( 2"), Err(Erro::FaltaParenFec(String::from("b"))));
    assert!(!estado.tem_funcao("a"));
    assert!(!estado.tem_funcao("b"));
    assert_eq!(estado.load_string("a = ( 1 ) #"), Err(Erro::CaractereDesconhecido('#')));
    assert!(!estado.tem_funcao("a"));
    assert_eq!(estado.load_string("a = ( \"x )"), Err(Erro::TextoNaoTerminado));
    assert_eq!(estado.load_string(""), Ok(()));
}

#[test]
fn run_function_de_nome_desconhecido_nao_muda_nada() {
    let mut estado = PSFState::new();
    estado.load_string("gira = ( gira )").unwrap();
    assert_eq!(estado.run_raw_string("1 2 gira"), Ok(Parada::Pausa));
    assert_eq!(estado.run_function("nada"), Err(Erro::FuncaoInexistente(String::from("nada"))));
    assert!(estado.tem_pendentes());
    assert_eq!(estado.valores(), vec![Item::Numero(1), Item::Numero(2)]);
}

#[test]
fn run_raw_string_com_erro_nao_muda_nada() {
    let mut estado = PSFState::new();
    estado.load_string("gira = ( gira )").unwrap();
    assert_eq!(estado.run_raw_string("1 gira"), Ok(Parada::Pausa));
    assert_eq!(estado.run_raw_string("2 ( 3 )"), Err(Erro::ParentesesSemInterrogacao));
    assert_eq!(estado.run_raw_string("2 12ab"), Err(Erro::LetraAposNumero('a')));
    assert!(estado.tem_pendentes());
    assert_eq!(estado.valores(), vec![Item::Numero(1)]);
}

#[test]
fn nova_execucao_descarta_a_pendente() {
    let mut estado = PSFState::new();
    estado.load_string("gira = ( gira )").unwrap();
    assert_eq!(estado.run_function("gira"), Ok(Parada::Pausa));
    assert_eq!(estado.run_raw_string("7"), Ok(Parada::Fim));
    assert!(!estado.tem_pendentes());
    assert_eq!(estado.valores(), vec![Item::Numero(7)]);
}

#[test]
fn clear_stack_guarda_as_funcoes() {
    let mut estado = PSFState::new();
    estado.load_string("f = ( 1 2 )").unwrap();
    assert_eq!(estado.run_function("f"), Ok(Parada::Fim));
    assert_eq!(estado.valores().len(), 2);
    estado.clear_stack();
    assert_eq!(estado.valores(), vec![]);
    assert!(estado.tem_funcao("f"));
    assert_eq!(estado.run_function("f"), Ok(Parada::Fim));
    assert_eq!(estado.valores(), vec![Item::Numero(1), Item::Numero(2)]);
}

#[test]
fn pilha_passa_de_uma_execucao_para_a_outra() {
    let mut estado = PSFState::new();
    assert_eq!(estado.run_raw_string("1 2"), Ok(Parada::Fim));
    assert_eq!(estado.run_raw_string("+"), Ok(Parada::Fim));
    assert_eq!(estado.valores(), vec![Item::Numero(3)]);
}

#[test]
fn trecho_com_quotacao_aberta_executa_o_corpo_mais_interno() {
    let mut estado = PSFState::new();
    assert_eq!(estado.run_raw_string("5 ?( 1 2"), Ok(Parada::Fim));
    assert_eq!(estado.valores(), vec![Item::Numero(1), Item::Numero(2)]);
}

#[test]
fn entregar_linha_empilha_um_texto() {
    let mut estado = PSFState::new();
    assert_eq!(estado.entregar_linha(String::from("abc\n")), Ok(()));
    assert_eq!(estado.valores(), vec![Item::String(String::from("abc\n"))]);
}
