use crate::erro::{Erro, Falha};
use crate::modelo::{ver_tokens, Lexema, Token};
use crate::texto::{
    acrescentar, alfabetico, decimal, digito, digitos, e_digito, espaco, lema_digitos, ler_decimal,
    valor_decimal,
};
use vstd::prelude::*;

verus! {

/// The token that a single character writes by itself, if it writes one.
pub open spec fn operador(c: char) -> Option<Lexema> {
    if c == '=' {
        Some(Lexema::Igual)
    } else if c == '(' {
        Some(Lexema::ParenAbr)
    } else if c == ')' {
        Some(Lexema::ParenFec)
    } else if c == '?' {
        Some(Lexema::Interrogacao)
    } else if c == '!' {
        Some(Lexema::Exclamacao)
    } else if c == '+' {
        Some(Lexema::Mais)
    } else if c == '>' {
        Some(Lexema::Maior)
    } else if c == '<' {
        Some(Lexema::Menor)
    } else {
        None
    }
}

/// The kinds of character runs that make up the longer tokens.
pub enum Serie {
    /// The digits of a number.
    Numero,
    /// The letters and digits of a symbol.
    Simbolo,
    /// The characters of a string literal: anything but the double quote.
    Texto,
}

/// Whether `c` may continue a run of the kind `serie`.
pub open spec fn continua(serie: Serie, c: char) -> bool {
    match serie {
        Serie::Numero => digito(c),
        Serie::Simbolo => alfabetico(c) || digito(c),
        Serie::Texto => c != '"',
    }
}

/// Where the longest run of the kind `serie` that starts at `i` ends: the first
/// position from `i` on whose character does not continue the run, or the length
/// of `s` if there is none.
pub open spec fn fim_da_serie(s: Seq<char>, i: int, serie: Serie) -> int
    decreases s.len() - i,
{
    if 0 <= i < s.len() && continua(serie, s[i]) {
        fim_da_serie(s, i + 1, serie)
    } else {
        i
    }
}

/// The tokens `antes` followed by those of `r`, or the failure of `r`.
pub open spec fn juntar(antes: Seq<Lexema>, r: Result<Seq<Lexema>, Falha>) -> Result<Seq<Lexema>, Falha> {
    match r {
        Ok(depois) => Ok(antes + depois),
        Err(f) => Err(f),
    }
}

/// The tokens of `s` from position `i` on, or the first lexical error met there.
///
/// White space separates tokens and is skipped. Each of `= ( ) ? ! + > <` is a
/// token by itself. A double quote opens a string literal that runs to the next
/// double quote, with no escapes; without a closing quote the text is in error.
/// A digit starts a number, the longest run of digits; a letter right after it is
/// an error, and so is a value that does not fit a 32-bit signed integer. A
/// letter starts a symbol, the longest run of letters and digits. Any other
/// character is an error.
pub open spec fn lexemas_de(s: Seq<char>, i: int) -> Result<Seq<Lexema>, Falha>
    decreases s.len() - i,
    via lexemas_de_termina
{
    if i < 0 || i >= s.len() {
        Ok(Seq::empty())
    } else if operador(s[i]) is Some {
        juntar(seq![operador(s[i])->0], lexemas_de(s, i + 1))
    } else if s[i] == '"' {
        let j = fim_da_serie(s, i + 1, Serie::Texto);
        if j >= s.len() {
            Err(Falha::TextoNaoTerminado)
        } else {
            juntar(seq![Lexema::Texto(s.subrange(i + 1, j))], lexemas_de(s, j + 1))
        }
    } else if digito(s[i]) {
        let j = fim_da_serie(s, i, Serie::Numero);
        if j < s.len() && alfabetico(s[j]) {
            Err(Falha::LetraAposNumero(s[j]))
        } else if valor_decimal(s.subrange(i, j)) > i32::MAX {
            Err(Falha::NumeroInvalido)
        } else {
            juntar(seq![Lexema::Numero(valor_decimal(s.subrange(i, j)) as i32)], lexemas_de(s, j))
        }
    } else if alfabetico(s[i]) {
        let j = fim_da_serie(s, i, Serie::Simbolo);
        juntar(seq![Lexema::Simbolo(s.subrange(i, j))], lexemas_de(s, j))
    } else if espaco(s[i]) {
        lexemas_de(s, i + 1)
    } else {
        Err(Falha::CaractereDesconhecido(s[i]))
    }
}

#[via_fn]
proof fn lexemas_de_termina(s: Seq<char>, i: int) {
    if 0 <= i < s.len() {
        lema_fim_da_serie(s, i + 1, Serie::Texto);
        lema_fim_da_serie(s, i, Serie::Numero);
        lema_fim_da_serie(s, i, Serie::Simbolo);
    }
}

/// The tokens of the text `s`, or the first lexical error in it.
pub open spec fn lexemas(s: Seq<char>) -> Result<Seq<Lexema>, Falha> {
    lexemas_de(s, 0)
}

/// A run ends at or after its start, within the text, and past its start when
/// the first character belongs to it.
pub proof fn lema_fim_da_serie(s: Seq<char>, i: int, serie: Serie)
    requires
        0 <= i <= s.len(),
    ensures
        i <= fim_da_serie(s, i, serie) <= s.len(),
        i < s.len() && continua(serie, s[i]) ==> i < fim_da_serie(s, i, serie),
        fim_da_serie(s, i, serie) < s.len() ==> !continua(serie, s[fim_da_serie(s, i, serie)]),
        forall|k: int| i <= k < fim_da_serie(s, i, serie) ==> continua(serie, #[trigger] s[k]),
    decreases s.len() - i,
{
    if i < s.len() && continua(serie, s[i]) {
        lema_fim_da_serie(s, i + 1, serie);
    }
}

/// A run that holds from `a` up to `b` ends where the run from `b` ends.
pub proof fn lema_serie_continua(s: Seq<char>, a: int, b: int, serie: Serie)
    requires
        0 <= a <= b <= s.len(),
        forall|k: int| a <= k < b ==> continua(serie, #[trigger] s[k]),
    ensures
        fim_da_serie(s, a, serie) == fim_da_serie(s, b, serie),
    decreases b - a,
{
    if a < b {
        lema_serie_continua(s, a + 1, b, serie);
    }
}

/// What the lexer is in the middle of.
enum Modo {
    Nada,
    Numero,
    Simbolo,
    Texto,
}

/// What holds after the first `i` characters of `s` were read: the tokens
/// `feitos` are out, and `buffer` holds the run that started at `inicio`.
spec fn coerente(s: Seq<char>, i: int, feitos: Seq<Lexema>, modo: Modo, buffer: Seq<char>, inicio: int) -> bool {
    &&& 0 <= i <= s.len()
    &&& match modo {
        Modo::Nada => {
            &&& buffer.len() == 0
            &&& lexemas(s) == juntar(feitos, lexemas_de(s, i))
        },
        Modo::Numero => {
            &&& 0 <= inicio < i
            &&& buffer == s.subrange(inicio, i)
            &&& forall|k: int| inicio <= k < i ==> continua(Serie::Numero, #[trigger] s[k])
            &&& lexemas(s) == juntar(feitos, lexemas_de(s, inicio))
        },
        Modo::Simbolo => {
            &&& 0 <= inicio < i
            &&& buffer == s.subrange(inicio, i)
            &&& forall|k: int| inicio <= k < i ==> continua(Serie::Simbolo, #[trigger] s[k])
            &&& operador(s[inicio]) is None
            &&& s[inicio] != '"'
            &&& !digito(s[inicio])
            &&& alfabetico(s[inicio])
            &&& lexemas(s) == juntar(feitos, lexemas_de(s, inicio))
        },
        Modo::Texto => {
            &&& 0 <= inicio < i
            &&& s[inicio] == '"'
            &&& buffer == s.subrange(inicio + 1, i)
            &&& forall|k: int| inicio < k < i ==> continua(Serie::Texto, #[trigger] s[k])
            &&& lexemas(s) == juntar(feitos, lexemas_de(s, inicio))
        },
    }
}

/// A run that holds from `inicio` up to `i` and does not go on at `i` ends at `i`.
proof fn lema_serie_acaba(s: Seq<char>, inicio: int, i: int, serie: Serie)
    requires
        0 <= inicio <= i <= s.len(),
        forall|k: int| inicio <= k < i ==> continua(serie, #[trigger] s[k]),
        i < s.len() ==> !continua(serie, s[i]),
    ensures
        fim_da_serie(s, inicio, serie) == i,
{
    lema_serie_continua(s, inicio, i, serie);
}

/// Putting one more token out.
proof fn lema_juntar(feitos: Seq<Lexema>, l: Lexema, r: Result<Seq<Lexema>, Falha>)
    ensures
        juntar(feitos, juntar(seq![l], r)) == juntar(feitos.push(l), r),
{
    if let Ok(depois) = r {
        assert(feitos + (seq![l] + depois) =~= feitos.push(l) + depois);
    }
}

/// What a lexing result stands for.
pub open spec fn ver_lexico(r: Result<Vec<Token>, Erro>) -> Result<Seq<Lexema>, Falha> {
    match r {
        Ok(tokens) => Ok(ver_tokens(tokens@)),
        Err(e) => Err(e@),
    }
}

fn token_de_operador(c: char) -> (r: Option<Token>)
    ensures
        match operador(c) {
            Some(l) => r is Some && r->0@ == l,
            None => r is None,
        },
{
    if c == '=' {
        Some(Token::Igual)
    } else if c == '(' {
        Some(Token::ParenAbr)
    } else if c == ')' {
        Some(Token::ParenFec)
    } else if c == '?' {
        Some(Token::Interrogacao)
    } else if c == '!' {
        Some(Token::Exclamacao)
    } else if c == '+' {
        Some(Token::Mais)
    } else if c == '>' {
        Some(Token::Maior)
    } else if c == '<' {
        Some(Token::Menor)
    } else {
        None
    }
}

/// Splits the source text into its tokens, in one pass from left to right. The
/// result is the token sequence of the whole text, or its first lexical error.
pub fn tokenizar(entrada: &str) -> (r: Result<Vec<Token>, Erro>)
    ensures
        ver_lexico(r) == lexemas(entrada@),
{
    let ghost s = entrada@;
    let mut tokens: Vec<Token> = Vec::new();
    let mut buffer = String::new();
    let mut modo = Modo::Nada;
    let ghost mut inicio: int = 0;
    assert(juntar(ver_tokens(tokens@), lexemas_de(s, 0)) == lexemas(s)) by {
        if let Ok(l) = lexemas_de(s, 0) {
            assert(ver_tokens(tokens@) + l =~= l);
        }
    }
    for c in it: entrada.chars()
        invariant
            it.seq() == s,
            s == entrada@,
            coerente(s, it.index() as int, ver_tokens(tokens@), modo, buffer@, inicio),
    {
        let ghost i = it.index() as int;
        let ghost feitos = ver_tokens(tokens@);
        assert(c == s[i]);
        let mut falta_despachar = true;
        match modo {
            Modo::Nada => {},
            Modo::Numero => {
                if e_digito(c) {
                    acrescentar(&mut buffer, c);
                    falta_despachar = false;
                    assert(buffer@ =~= s.subrange(inicio, i + 1));
                } else {
                    proof {
                        lema_serie_acaba(s, inicio, i, Serie::Numero);
                    }
                    if c.is_alphabetic() {
                        return Err(Erro::LetraAposNumero(c));
                    }
                    match ler_decimal(buffer.as_str()) {
                        None => {
                            return Err(Erro::NumeroInvalido);
                        },
                        Some(n) => {
                            tokens.push(Token::Numero(n));
                            proof {
                                assert(ver_tokens(tokens@) =~= feitos.push(Lexema::Numero(n)));
                                lema_juntar(feitos, Lexema::Numero(n), lexemas_de(s, i));
                            }
                        },
                    }
                    buffer = String::new();
                    modo = Modo::Nada;
                }
            },
            Modo::Simbolo => {
                if c.is_alphabetic() || e_digito(c) {
                    acrescentar(&mut buffer, c);
                    falta_despachar = false;
                    assert(buffer@ =~= s.subrange(inicio, i + 1));
                } else {
                    let nome = buffer;
                    buffer = String::new();
                    tokens.push(Token::Simbolo(nome));
                    modo = Modo::Nada;
                    proof {
                        lema_serie_acaba(s, inicio, i, Serie::Simbolo);
                        assert(ver_tokens(tokens@) =~= feitos.push(Lexema::Simbolo(nome@)));
                        lema_juntar(feitos, Lexema::Simbolo(nome@), lexemas_de(s, i));
                    }
                }
            },
            Modo::Texto => {
                falta_despachar = false;
                if c == '"' {
                    let texto = buffer;
                    buffer = String::new();
                    tokens.push(Token::String(texto));
                    modo = Modo::Nada;
                    proof {
                        lema_serie_acaba(s, inicio + 1, i, Serie::Texto);
                        assert(ver_tokens(tokens@) =~= feitos.push(Lexema::Texto(texto@)));
                        lema_juntar(feitos, Lexema::Texto(texto@), lexemas_de(s, i + 1));
                    }
                } else {
                    acrescentar(&mut buffer, c);
                    assert(buffer@ =~= s.subrange(inicio + 1, i + 1));
                }
            },
        }
        if falta_despachar {
            let ghost feitos = ver_tokens(tokens@);
            assert(lexemas(s) == juntar(feitos, lexemas_de(s, i)));
            match token_de_operador(c) {
                Some(token) => {
                    let ghost l = token@;
                    tokens.push(token);
                    proof {
                        assert(ver_tokens(tokens@) =~= feitos.push(l));
                        lema_juntar(feitos, l, lexemas_de(s, i + 1));
                    }
                },
                None => {
                    if c == '"' {
                        modo = Modo::Texto;
                        proof {
                            inicio = i;
                        }
                        assert(buffer@ =~= s.subrange(i + 1, i + 1));
                    } else if e_digito(c) {
                        acrescentar(&mut buffer, c);
                        modo = Modo::Numero;
                        proof {
                            inicio = i;
                        }
                        assert(buffer@ =~= s.subrange(i, i + 1));
                    } else if c.is_alphabetic() {
                        acrescentar(&mut buffer, c);
                        modo = Modo::Simbolo;
                        proof {
                            inicio = i;
                        }
                        assert(buffer@ =~= s.subrange(i, i + 1));
                    } else if c.is_whitespace() {
                    } else {
                        return Err(Erro::CaractereDesconhecido(c));
                    }
                },
            }
        }
    }
    let ghost feitos = ver_tokens(tokens@);
    match modo {
        Modo::Nada => {
            assert(feitos + Seq::<Lexema>::empty() =~= feitos);
        },
        Modo::Numero => {
            proof {
                lema_serie_acaba(s, inicio, s.len() as int, Serie::Numero);
            }
            match ler_decimal(buffer.as_str()) {
                None => {
                    return Err(Erro::NumeroInvalido);
                },
                Some(n) => {
                    tokens.push(Token::Numero(n));
                    proof {
                        assert(ver_tokens(tokens@) =~= feitos.push(Lexema::Numero(n)));
                        lema_juntar(feitos, Lexema::Numero(n), lexemas_de(s, s.len() as int));
                        assert(feitos.push(Lexema::Numero(n)) + Seq::<Lexema>::empty() =~= feitos.push(
                            Lexema::Numero(n),
                        ));
                    }
                },
            }
        },
        Modo::Simbolo => {
            tokens.push(Token::Simbolo(buffer));
            proof {
                lema_serie_acaba(s, inicio, s.len() as int, Serie::Simbolo);
                assert(ver_tokens(tokens@) =~= feitos.push(Lexema::Simbolo(buffer@)));
                lema_juntar(feitos, Lexema::Simbolo(buffer@), lexemas_de(s, s.len() as int));
                assert(feitos.push(Lexema::Simbolo(buffer@)) + Seq::<Lexema>::empty() =~= feitos.push(
                    Lexema::Simbolo(buffer@),
                ));
            }
        },
        Modo::Texto => {
            proof {
                lema_serie_acaba(s, inicio + 1, s.len() as int, Serie::Texto);
            }
            return Err(Erro::TextoNaoTerminado);
        },
    }
    Ok(tokens)
}

/// Printing and lexing agree on integer literals: the printed form of an integer
/// that is not negative lexes to one token, the number itself.
pub proof fn lei_numero_impresso(n: i32)
    requires
        n >= 0,
    ensures
        lexemas(decimal(n as int)) == Ok::<Seq<Lexema>, Falha>(seq![Lexema::Numero(n)]),
{
    let s = digitos(n as nat);
    let fim = s.len() as int;
    lema_digitos(n as nat);
    assert(digito(s[0]));
    lema_serie_acaba(s, 0, fim, Serie::Numero);
    assert(s.subrange(0, fim) =~= s);
    assert(lexemas_de(s, fim) == Ok::<Seq<Lexema>, Falha>(Seq::empty()));
    assert(seq![Lexema::Numero(n)] + Seq::<Lexema>::empty() =~= seq![Lexema::Numero(n)]);
    assert(lexemas_de(s, 0) == juntar(seq![Lexema::Numero(n)], lexemas_de(s, fim)));
}

/// Printing and lexing agree on string literals: a text without a double quote,
/// written between double quotes, lexes to one token, the text itself.
pub proof fn lei_texto_impresso(texto: Seq<char>)
    requires
        forall|k: int| 0 <= k < texto.len() ==> texto[k] != '"',
    ensures
        lexemas(seq!['"'] + texto + seq!['"']) == Ok::<Seq<Lexema>, Falha>(seq![Lexema::Texto(texto)]),
{
    let s = seq!['"'] + texto + seq!['"'];
    let fecho = texto.len() as int + 1;
    assert forall|k: int| 1 <= k < fecho implies continua(Serie::Texto, #[trigger] s[k]) by {
        assert(s[k] == texto[k - 1]);
    }
    lema_serie_acaba(s, 1, fecho, Serie::Texto);
    assert(s.subrange(1, fecho) =~= texto);
    assert(lexemas_de(s, fecho + 1) == Ok::<Seq<Lexema>, Falha>(Seq::empty()));
    assert(seq![Lexema::Texto(texto)] + Seq::<Lexema>::empty() =~= seq![Lexema::Texto(texto)]);
    assert(lexemas_de(s, 0) == juntar(seq![Lexema::Texto(texto)], lexemas_de(s, fecho + 1)));
}

} // verus!
