use psf::{gerar_ast, gerar_ast_funcao, tokenizar, tokenizar_e_gerar_ast, ASTItem, Erro, Token};

fn tokens(fonte: &str) -> Vec<Token> {
    tokenizar(fonte).unwrap()
}

fn chamada(nome: &str) -> ASTItem {
    ASTItem::FuncCallNamed(String::from(nome))
}

fn corpo(fonte: &str) -> Result<(Vec<ASTItem>, usize), Erro> {
    let t = tokens(fonte);
    let mut i = 0;
    let r = gerar_ast_funcao(&t, &mut i);
    r.map(|itens| (itens, i))
}

#[test]
fn corpo_vazio() {
    assert_eq!(corpo(""), Ok((vec![], 0)));
}

#[test]
fn corpo_plano_vai_ate_o_fim() {
    assert_eq!(
        corpo("1 \"a\" + > < ! x"),
        Ok((
            vec![
                ASTItem::Numero(1),
                ASTItem::String(String::from("a")),
                ASTItem::Mais,
                ASTItem::Maior,
                ASTItem::Menor,
                ASTItem::FuncCallTop,
                chamada("x"),
            ],
            7
        ))
    );
}

#[test]
fn palavras_reservadas_nao_sao_chamadas() {
    assert_eq!(
        corpo("print input pop dup swap swapn ssize if debugs true false"),
        Ok((
            vec![
                ASTItem::Print,
                ASTItem::Input,
                ASTItem::Pop,
                ASTItem::Dup,
                ASTItem::Swap,
                ASTItem::SwapN,
                ASTItem::SSize,
                ASTItem::If,
                ASTItem::DebugS,
                ASTItem::True,
                ASTItem::False,
            ],
            11
        ))
    );
}

#[test]
fn nomes_parecidos_com_palavras_reservadas_sao_chamadas() {
    assert_eq!(
        corpo("Print prin printp iff True pops"),
        Ok((
            vec![
                chamada("Print"),
                chamada("prin"),
                chamada("printp"),
                chamada("iff"),
                chamada("True"),
                chamada("pops"),
            ],
            6
        ))
    );
}

#[test]
fn corpo_para_no_parentese_de_quem_chamou() {
    assert_eq!(corpo("1 2 ) 3"), Ok((vec![ASTItem::Numero(1), ASTItem::Numero(2)], 2)));
    assert_eq!(corpo(") 1"), Ok((vec![], 0)));
}

#[test]
fn corpo_comeca_no_cursor() {
    let t = tokens("main = ( 1 2 + ) 9");
    let mut i = 3;
    assert_eq!(
        gerar_ast_funcao(&t, &mut i),
        Ok(vec![ASTItem::Numero(1), ASTItem::Numero(2), ASTItem::Mais])
    );
    assert_eq!(i, 6);
    assert_eq!(t[i], Token::ParenFec);
}

#[test]
fn cursor_alem_do_fim_fica_onde_esta() {
    let t = tokens("1 2");
    let mut i = 2;
    assert_eq!(gerar_ast_funcao(&t, &mut i), Ok(vec![]));
    assert_eq!(i, 2);
    let mut j = 5;
    assert_eq!(gerar_ast_funcao(&t, &mut j), Ok(vec![]));
    assert_eq!(j, 5);
}

#[test]
fn quotacao_vira_um_item() {
    assert_eq!(
        corpo("1 ?( 2 3 ) 4"),
        Ok((
            vec![
                ASTItem::Numero(1),
                ASTItem::FuncDef(vec![ASTItem::Numero(2), ASTItem::Numero(3)]),
                ASTItem::Numero(4),
            ],
            7
        ))
    );
    assert_eq!(corpo("?()"), Ok((vec![ASTItem::FuncDef(vec![])], 3)));
}

#[test]
fn quotacoes_aninhadas() {
    assert_eq!(
        corpo("?( 1 ?( 2 ?( ) 3 ) ?( 4 ) ) 5 ) 6"),
        Ok((
            vec![
                ASTItem::FuncDef(vec![
                    ASTItem::Numero(1),
                    ASTItem::FuncDef(vec![ASTItem::Numero(2), ASTItem::FuncDef(vec![]), ASTItem::Numero(3)]),
                    ASTItem::FuncDef(vec![ASTItem::Numero(4)]),
                ]),
                ASTItem::Numero(5),
            ],
            17
        ))
    );
}

#[test]
fn quotacoes_equilibradas_deixam_o_cursor_no_fecho() {
    let t = tokens("f = ( true ?( 1 ?( 2 ) ! ) ?( 3 ) if ) g = ( )");
    let mut i = 3;
    let r = gerar_ast_funcao(&t, &mut i).unwrap();
    assert_eq!(r.len(), 4);
    assert_eq!(i, 18);
    assert_eq!(t[i], Token::ParenFec);
    assert_eq!(t[i + 1], Token::Simbolo(String::from("g")));
}

#[test]
fn quotacao_muito_funda() {
    let mut fonte = String::new();
    for _ in 0..500 {
        fonte.push_str("?( ");
    }
    fonte.push_str("1 ");
    for _ in 0..500 {
        fonte.push_str(") ");
    }
    let (itens, fim) = corpo(&fonte).unwrap();
    assert_eq!(fim, 1501);
    let mut nivel = &itens;
    for _ in 0..500 {
        assert_eq!(nivel.len(), 1);
        match &nivel[0] {
            ASTItem::FuncDef(dentro) => nivel = dentro,
            outro => panic!("{:?}", outro),
        }
    }
    assert_eq!(nivel, &vec![ASTItem::Numero(1)]);
}

#[test]
fn marca_espera_pelo_parentese() {
    assert_eq!(
        corpo("? 1 ( 2 )"),
        Ok((vec![ASTItem::Numero(1), ASTItem::FuncDef(vec![ASTItem::Numero(2)])], 5))
    );
    assert_eq!(corpo("? ? ( )"), Ok((vec![ASTItem::FuncDef(vec![])], 4)));
    assert_eq!(corpo("?( ? ) ( 1 )"), Ok((vec![ASTItem::FuncDef(vec![]), ASTItem::FuncDef(vec![ASTItem::Numero(1)])], 7)));
}

#[test]
fn parentese_sem_marca_e_erro() {
    assert_eq!(corpo("1 ( 2 )"), Err(Erro::ParentesesSemInterrogacao));
    assert_eq!(corpo("?( ( ) )"), Err(Erro::ParentesesSemInterrogacao));
    assert_eq!(corpo("?( 1 ) ( 2 )"), Err(Erro::ParentesesSemInterrogacao));
}

#[test]
fn igual_dentro_de_corpo_e_erro() {
    assert_eq!(corpo("1 = 2"), Err(Erro::IgualDentroDeFuncao));
    assert_eq!(corpo("?( a = 1 )"), Err(Erro::IgualDentroDeFuncao));
}

#[test]
fn erro_deixa_o_cursor_onde_estava() {
    let t = tokens("1 2 ( 3");
    let mut i = 1;
    assert_eq!(gerar_ast_funcao(&t, &mut i), Err(Erro::ParentesesSemInterrogacao));
    assert_eq!(i, 1);
}

#[test]
fn quotacao_sem_fecho_fica_com_o_corpo_mais_interno() {
    assert_eq!(corpo("1 ?( 2 3"), Ok((vec![ASTItem::Numero(2), ASTItem::Numero(3)], 5)));
    assert_eq!(corpo("1 ?( 2 ?( 3 ) 4 ?( 5"), Ok((vec![ASTItem::Numero(5)], 12)));
    assert_eq!(corpo("?("), Ok((vec![], 2)));
}

#[test]
fn programa_vazio() {
    assert_eq!(gerar_ast(vec![], false), Ok(vec![]));
}

#[test]
fn programa_com_duas_definicoes() {
    assert_eq!(
        gerar_ast(tokens("main = ( 1 dobro print ) dobro = ( dup + )"), false),
        Ok(vec![
            (String::from("main"), vec![ASTItem::Numero(1), chamada("dobro"), ASTItem::Print]),
            (String::from("dobro"), vec![ASTItem::Dup, ASTItem::Mais]),
        ])
    );
}

#[test]
fn programa_guarda_definicoes_repetidas_na_ordem() {
    assert_eq!(
        gerar_ast(tokens("f = ( 1 ) f = ( 2 )"), false),
        Ok(vec![
            (String::from("f"), vec![ASTItem::Numero(1)]),
            (String::from("f"), vec![ASTItem::Numero(2)]),
        ])
    );
}

#[test]
fn programa_aceita_nome_reservado_a_esquerda() {
    assert_eq!(
        gerar_ast(tokens("print = ( 1 )"), false),
        Ok(vec![(String::from("print"), vec![ASTItem::Numero(1)])])
    );
}

#[test]
fn programa_sem_nome_e_erro() {
    assert_eq!(gerar_ast(tokens("= ( 1 )"), false), Err(Erro::FaltaNome));
    assert_eq!(gerar_ast(tokens("1 2"), false), Err(Erro::FaltaNome));
    assert_eq!(gerar_ast(tokens("a = ( ) ( )"), false), Err(Erro::FaltaNome));
    assert_eq!(gerar_ast(tokens("a = ( ) )"), false), Err(Erro::FaltaNome));
}

#[test]
fn programa_sem_igual_e_erro() {
    assert_eq!(gerar_ast(tokens("main ( 1 )"), false), Err(Erro::FaltaIgual(String::from("main"))));
    assert_eq!(gerar_ast(tokens("main"), false), Err(Erro::FaltaIgual(String::from("main"))));
    assert_eq!(gerar_ast(tokens("a = ( ) b c"), false), Err(Erro::FaltaIgual(String::from("b"))));
}

#[test]
fn programa_sem_parentese_inicial_e_erro() {
    assert_eq!(gerar_ast(tokens("main = 1 )"), false), Err(Erro::FaltaParenAbr(String::from("main"))));
    assert_eq!(gerar_ast(tokens("main ="), false), Err(Erro::FaltaParenAbr(String::from("main"))));
    assert_eq!(gerar_ast(tokens("main = ?( 1 )"), false), Err(Erro::FaltaParenAbr(String::from("main"))));
}

#[test]
fn programa_sem_parentese_final_e_erro() {
    assert_eq!(gerar_ast(tokens("main = ( 1 2"), false), Err(Erro::FaltaParenFec(String::from("main"))));
    assert_eq!(gerar_ast(tokens("main = ("), false), Err(Erro::FaltaParenFec(String::from("main"))));
    assert_eq!(gerar_ast(tokens("a = ( ) main = ( ?( 1 )"), false), Err(Erro::FaltaParenFec(String::from("main"))));
}

#[test]
fn programa_passa_adiante_o_erro_do_corpo() {
    assert_eq!(gerar_ast(tokens("main = ( ( ) )"), false), Err(Erro::ParentesesSemInterrogacao));
    assert_eq!(gerar_ast(tokens("main = ( a = 1 )"), false), Err(Erro::IgualDentroDeFuncao));
}

#[test]
fn trecho_vira_a_definicao_de_nome_funcao() {
    assert_eq!(
        gerar_ast(tokens("1 2 +"), true),
        Ok(vec![(String::from("funcao"), vec![ASTItem::Numero(1), ASTItem::Numero(2), ASTItem::Mais])])
    );
    assert_eq!(gerar_ast(vec![], true), Ok(vec![(String::from("funcao"), vec![])]));
    assert_eq!(gerar_ast(tokens("1 ) 2"), true), Ok(vec![(String::from("funcao"), vec![ASTItem::Numero(1)])]));
    assert_eq!(gerar_ast(tokens("a = ( 1 )"), true), Err(Erro::IgualDentroDeFuncao));
}

#[test]
fn texto_direto_para_ast() {
    assert_eq!(
        tokenizar_e_gerar_ast("main = ( \"oi\" print )", false),
        Ok(vec![(String::from("main"), vec![ASTItem::String(String::from("oi")), ASTItem::Print])])
    );
    assert_eq!(
        tokenizar_e_gerar_ast("true ?(1) ?(2) if", true),
        Ok(vec![(
            String::from("funcao"),
            vec![
                ASTItem::True,
                ASTItem::FuncDef(vec![ASTItem::Numero(1)]),
                ASTItem::FuncDef(vec![ASTItem::Numero(2)]),
                ASTItem::If,
            ]
        )])
    );
    assert_eq!(tokenizar_e_gerar_ast("main = ( 1 # )", false), Err(Erro::CaractereDesconhecido('#')));
    assert_eq!(tokenizar_e_gerar_ast("main = ( 1", false), Err(Erro::FaltaParenFec(String::from("main"))));
    assert_eq!(tokenizar_e_gerar_ast("12ab", true), Err(Erro::LetraAposNumero('a')));
}

#[test]
fn copia_de_item_e_igual_ao_original() {
    let (itens, _) = corpo("1 \"a\" ?( x ?( true ) if ) print").unwrap();
    let copia: Vec<ASTItem> = itens.iter().map(|i| i.clone()).collect();
    assert_eq!(copia, itens);
    assert_eq!(psf::clonar_corpo(&itens), itens);
}
