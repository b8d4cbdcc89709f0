use psf::{e_digito, ler_decimal, texto_de_inteiro, tokenizar, Erro, Token};

fn simbolo(s: &str) -> Token {
    Token::Simbolo(String::from(s))
}

fn texto(s: &str) -> Token {
    Token::String(String::from(s))
}

#[test]
fn texto_vazio_nao_tem_tokens() {
    assert_eq!(tokenizar(""), Ok(vec![]));
    assert_eq!(tokenizar("  \t\n  "), Ok(vec![]));
}

#[test]
fn cada_operador_e_um_token() {
    assert_eq!(
        tokenizar("=()?!+><"),
        Ok(vec![
            Token::Igual,
            Token::ParenAbr,
            Token::ParenFec,
            Token::Interrogacao,
            Token::Exclamacao,
            Token::Mais,
            Token::Maior,
            Token::Menor,
        ])
    );
}

#[test]
fn definicao_simples() {
    assert_eq!(
        tokenizar("main = ( 1 2 + print )"),
        Ok(vec![
            simbolo("main"),
            Token::Igual,
            Token::ParenAbr,
            Token::Numero(1),
            Token::Numero(2),
            Token::Mais,
            simbolo("print"),
            Token::ParenFec,
        ])
    );
}

#[test]
fn tokens_colados_sao_separados() {
    assert_eq!(
        tokenizar("a=(1+b2)"),
        Ok(vec![
            simbolo("a"),
            Token::Igual,
            Token::ParenAbr,
            Token::Numero(1),
            Token::Mais,
            simbolo("b2"),
            Token::ParenFec,
        ])
    );
}

#[test]
fn numero_no_fim_do_texto() {
    assert_eq!(tokenizar("12 345"), Ok(vec![Token::Numero(12), Token::Numero(345)]));
    assert_eq!(tokenizar("0"), Ok(vec![Token::Numero(0)]));
    assert_eq!(tokenizar("007"), Ok(vec![Token::Numero(7)]));
}

#[test]
fn simbolo_no_fim_do_texto() {
    assert_eq!(tokenizar("abc"), Ok(vec![simbolo("abc")]));
    assert_eq!(tokenizar("x1y2 z"), Ok(vec![simbolo("x1y2"), simbolo("z")]));
}

#[test]
fn simbolo_com_letras_fora_do_ascii() {
    assert_eq!(
        tokenizar("fun\u{00E7}\u{00E3}o \u{00E9}"),
        Ok(vec![simbolo("fun\u{00E7}\u{00E3}o"), simbolo("\u{00E9}")])
    );
}

#[test]
fn espacos_fora_do_ascii_separam() {
    assert_eq!(tokenizar("a\u{00A0}b\u{2003}c"), Ok(vec![simbolo("a"), simbolo("b"), simbolo("c")]));
}

#[test]
fn texto_entre_aspas() {
    assert_eq!(tokenizar("\"ola mundo\""), Ok(vec![texto("ola mundo")]));
    assert_eq!(tokenizar("\"\""), Ok(vec![texto("")]));
    assert_eq!(tokenizar("\"a\"\"b\""), Ok(vec![texto("a"), texto("b")]));
}

#[test]
fn texto_guarda_tudo_ate_as_aspas() {
    assert_eq!(tokenizar("\"1 + ( = #\n\""), Ok(vec![texto("1 + ( = #\n")]));
}

#[test]
fn texto_nao_tem_escapes() {
    assert_eq!(tokenizar("\"a\\n\""), Ok(vec![texto("a\\n")]));
    assert_eq!(tokenizar("\"a\\\" b"), Ok(vec![texto("a\\"), simbolo("b")]));
}

#[test]
fn texto_colado_a_outros_tokens() {
    assert_eq!(
        tokenizar("12\"x\"ab\"y\"+"),
        Ok(vec![Token::Numero(12), texto("x"), simbolo("ab"), texto("y"), Token::Mais])
    );
}

#[test]
fn caractere_desconhecido_e_erro() {
    assert_eq!(tokenizar("1 # 2"), Err(Erro::CaractereDesconhecido('#')));
    assert_eq!(tokenizar("a-b"), Err(Erro::CaractereDesconhecido('-')));
    assert_eq!(tokenizar("1.5"), Err(Erro::CaractereDesconhecido('.')));
    assert_eq!(tokenizar("a_b"), Err(Erro::CaractereDesconhecido('_')));
}

#[test]
fn letra_depois_de_numero_e_erro() {
    assert_eq!(tokenizar("12ab"), Err(Erro::LetraAposNumero('a')));
    assert_eq!(tokenizar("1 2x 3"), Err(Erro::LetraAposNumero('x')));
    assert_eq!(tokenizar("99999999999z"), Err(Erro::LetraAposNumero('z')));
}

#[test]
fn numero_grande_demais_e_erro() {
    assert_eq!(tokenizar("2147483647"), Ok(vec![Token::Numero(2147483647)]));
    assert_eq!(tokenizar("2147483648"), Err(Erro::NumeroInvalido));
    assert_eq!(tokenizar("1 99999999999999999999999999 2"), Err(Erro::NumeroInvalido));
    assert_eq!(tokenizar("0000000000002147483647"), Ok(vec![Token::Numero(2147483647)]));
}

#[test]
fn texto_sem_fecho_e_erro() {
    assert_eq!(tokenizar("\"abc"), Err(Erro::TextoNaoTerminado));
    assert_eq!(tokenizar("1 2 \""), Err(Erro::TextoNaoTerminado));
    assert_eq!(tokenizar("\"a\" \"b"), Err(Erro::TextoNaoTerminado));
}

#[test]
fn o_primeiro_erro_e_o_que_conta() {
    assert_eq!(tokenizar("# 12ab"), Err(Erro::CaractereDesconhecido('#')));
    assert_eq!(tokenizar("12ab #"), Err(Erro::LetraAposNumero('a')));
    assert_eq!(tokenizar("2147483648 #"), Err(Erro::NumeroInvalido));
    assert_eq!(tokenizar("# \"abc"), Err(Erro::CaractereDesconhecido('#')));
}

#[test]
fn forma_impressa_de_inteiros() {
    assert_eq!(texto_de_inteiro(0), "0");
    assert_eq!(texto_de_inteiro(7), "7");
    assert_eq!(texto_de_inteiro(10), "10");
    assert_eq!(texto_de_inteiro(12345), "12345");
    assert_eq!(texto_de_inteiro(-1), "-1");
    assert_eq!(texto_de_inteiro(-120), "-120");
    assert_eq!(texto_de_inteiro(i32::MAX), "2147483647");
    assert_eq!(texto_de_inteiro(i32::MIN), "-2147483648");
}

#[test]
fn ida_e_volta_de_inteiros() {
    for n in [0, 1, 9, 10, 11, 99, 100, 1000, 65535, 1234567890, i32::MAX] {
        assert_eq!(tokenizar(&texto_de_inteiro(n)), Ok(vec![Token::Numero(n)]));
    }
}

#[test]
fn ida_e_volta_de_textos() {
    for s in ["", "a", "ola mundo", "1 2 +", "barra \\ e quebra\n", "( ? ! = )"] {
        let fonte = format!("\"{}\"", s);
        assert_eq!(tokenizar(&fonte), Ok(vec![texto(s)]));
    }
}

#[test]
fn digitos_sao_so_os_dez_do_ascii() {
    for c in '0'..='9' {
        assert!(e_digito(c));
    }
    for c in ['/', ':', 'a', ' ', '\u{0663}', '\u{FF11}'] {
        assert!(!e_digito(c));
    }
}

#[test]
fn leitura_de_decimais() {
    assert_eq!(ler_decimal("0"), Some(0));
    assert_eq!(ler_decimal("42"), Some(42));
    assert_eq!(ler_decimal("00042"), Some(42));
    assert_eq!(ler_decimal("2147483647"), Some(2147483647));
    assert_eq!(ler_decimal("2147483648"), None);
    assert_eq!(ler_decimal("99999999999999999999"), None);
    assert_eq!(ler_decimal(""), None);
    assert_eq!(ler_decimal("-1"), None);
    assert_eq!(ler_decimal("+1"), None);
    assert_eq!(ler_decimal("1a"), None);
    assert_eq!(ler_decimal(" 1"), None);
}

#[test]
fn leitura_desfaz_a_impressao() {
    for n in [0, 5, 10, 909, 2147483647] {
        assert_eq!(ler_decimal(&texto_de_inteiro(n)), Some(n));
    }
}
