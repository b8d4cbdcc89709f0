use crate::erro::{Erro, Falha};
use crate::lexico::{lexemas, tokenizar};
use crate::modelo::{ver_corpo, ver_programa, ver_tokens, ASTItem, Lexema, Termo, Token};
use crate::pilha::Stack;
use crate::texto::mesmo_texto;
use vstd::prelude::*;

verus! {

/// The item that a symbol stands for: one of the reserved words, or else a call of
/// the function of that name.
pub open spec fn palavra(nome: Seq<char>) -> Termo {
    if nome == "print"@ {
        Termo::Print
    } else if nome == "input"@ {
        Termo::Input
    } else if nome == "pop"@ {
        Termo::Pop
    } else if nome == "dup"@ {
        Termo::Dup
    } else if nome == "swap"@ {
        Termo::Swap
    } else if nome == "swapn"@ {
        Termo::SwapN
    } else if nome == "ssize"@ {
        Termo::SSize
    } else if nome == "if"@ {
        Termo::If
    } else if nome == "debugs"@ {
        Termo::DebugS
    } else if nome == "true"@ {
        Termo::True
    } else if nome == "false"@ {
        Termo::False
    } else {
        Termo::FuncCallNamed(nome)
    }
}

/// The item that a token appends to the body it stands in, for the tokens that
/// append one: all but the parentheses, the quotation marker and the assignment sign.
pub open spec fn termo_de(l: Lexema) -> Termo {
    match l {
        Lexema::Exclamacao => Termo::FuncCallTop,
        Lexema::Mais => Termo::Mais,
        Lexema::Maior => Termo::Maior,
        Lexema::Menor => Termo::Menor,
        Lexema::Numero(n) => Termo::Numero(n),
        Lexema::Texto(s) => Termo::Texto(s),
        Lexema::Simbolo(nome) => palavra(nome),
        _ => arbitrary(),
    }
}

/// How the reading of a body ended.
pub enum Analise {
    /// In front of the closing parenthesis at `pos`, which belongs to whoever
    /// asked for the body. `marca` tells whether a quotation marker is waiting
    /// for its parenthesis.
    Fecha { itens: Seq<Termo>, pos: int, marca: bool },
    /// At the end of the tokens, outside any quotation of this body.
    Acaba { itens: Seq<Termo> },
    /// At the end of the tokens, inside a quotation of this body that was never
    /// closed; `itens` are those of the innermost such quotation.
    Corta { itens: Seq<Termo> },
    /// At a token that may not stand there.
    Erro(Falha),
}

/// The item `t` in front of what `r` read at the same level.
pub open spec fn antes(t: Termo, r: Analise) -> Analise {
    match r {
        Analise::Fecha { itens, pos, marca } => Analise::Fecha { itens: seq![t] + itens, pos, marca },
        Analise::Acaba { itens } => Analise::Acaba { itens: seq![t] + itens },
        outra => outra,
    }
}

/// Reads the body that starts at token `i`; `marca` tells whether a quotation
/// marker is waiting for its parenthesis.
///
/// A quotation marker sets the mark. An opening parenthesis needs the mark, clears
/// it, and starts a quotation: a body of its own, which runs to its closing
/// parenthesis and becomes one function literal of this body. A closing
/// parenthesis that closes no quotation of this body ends it and is left unread.
/// An assignment sign may not stand in a body. Every other token appends its item.
pub open spec fn corpo_de(t: Seq<Lexema>, i: int, marca: bool) -> Analise
    decreases t.len() - i,
{
    if i < 0 || i >= t.len() {
        Analise::Acaba { itens: Seq::empty() }
    } else {
        match t[i] {
            Lexema::ParenFec => Analise::Fecha { itens: Seq::empty(), pos: i, marca },
            Lexema::Igual => Analise::Erro(Falha::IgualDentroDeFuncao),
            Lexema::Interrogacao => corpo_de(t, i + 1, true),
            Lexema::ParenAbr => if !marca {
                Analise::Erro(Falha::ParentesesSemInterrogacao)
            } else {
                match corpo_de(t, i + 1, false) {
                    Analise::Fecha { itens, pos, marca } => if i < pos < t.len() {
                        antes(Termo::FuncDef(itens), corpo_de(t, pos + 1, marca))
                    } else {
                        // never so: a quotation closes after it opens
                        Analise::Corta { itens }
                    },
                    Analise::Acaba { itens } => Analise::Corta { itens },
                    outra => outra,
                }
            },
            l => antes(termo_de(l), corpo_de(t, i + 1, marca)),
        }
    }
}

/// A body ends at or after its start, in front of a closing parenthesis.
pub proof fn lema_fecha_adiante(t: Seq<Lexema>, i: int, marca: bool)
    requires
        0 <= i,
    ensures
        corpo_de(t, i, marca) matches Analise::Fecha { pos, .. } ==> i <= pos < t.len() && t[pos]
            == Lexema::ParenFec,
    decreases t.len() - i,
{
    if i < t.len() {
        match t[i] {
            Lexema::ParenFec => {},
            Lexema::Igual => {},
            Lexema::Interrogacao => {
                lema_fecha_adiante(t, i + 1, true);
            },
            Lexema::ParenAbr => {
                if marca {
                    lema_fecha_adiante(t, i + 1, false);
                    if let Analise::Fecha { itens, pos, marca } = corpo_de(t, i + 1, false) {
                        lema_fecha_adiante(t, pos + 1, marca);
                    }
                }
            },
            _ => {
                lema_fecha_adiante(t, i + 1, marca);
            },
        }
    }
}

/// The body that starts at token `i` and the position of the token after it: the
/// closing parenthesis that ends the body, or the end of the tokens. Where the
/// tokens end inside a quotation that was never closed, the body is that of the
/// innermost such quotation.
pub open spec fn corpo_analisado(t: Seq<Lexema>, i: int) -> Result<(Seq<Termo>, int), Falha> {
    match corpo_de(t, i, false) {
        Analise::Fecha { itens, pos, .. } => Ok((itens, pos)),
        Analise::Acaba { itens } => Ok((itens, fim(t, i))),
        Analise::Corta { itens } => Ok((itens, fim(t, i))),
        Analise::Erro(f) => Err(f),
    }
}

/// The end of the tokens, or `i` if that lies beyond it.
pub open spec fn fim(t: Seq<Lexema>, i: int) -> int {
    if i > t.len() {
        i
    } else {
        t.len() as int
    }
}

/// The bodies that a sequence of item vectors stands for.
spec fn ver_contexto(suspensas: Seq<Vec<ASTItem>>) -> Seq<Seq<Termo>> {
    Seq::new(suspensas.len(), |k: int| ver_corpo(suspensas[k]@))
}

/// What the reading of a whole body comes to when, with the bodies `contexto`
/// suspended around it and the items `atual` read at the innermost level, the
/// rest of that level reads as `r`.
spec fn retomar(t: Seq<Lexema>, contexto: Seq<Seq<Termo>>, atual: Seq<Termo>, r: Analise) -> Analise
    decreases contexto.len(),
{
    match r {
        Analise::Erro(f) => Analise::Erro(f),
        Analise::Corta { itens } => Analise::Corta { itens },
        Analise::Acaba { itens } => if contexto.len() == 0 {
            Analise::Acaba { itens: atual + itens }
        } else {
            Analise::Corta { itens: atual + itens }
        },
        Analise::Fecha { itens, pos, marca } => if contexto.len() == 0 {
            Analise::Fecha { itens: atual + itens, pos, marca }
        } else {
            retomar(
                t,
                contexto.drop_last(),
                contexto.last().push(Termo::FuncDef(atual + itens)),
                corpo_de(t, pos + 1, marca),
            )
        },
    }
}

/// An item read at the innermost level joins the items read there before.
proof fn lema_retomar_antes(t: Seq<Lexema>, contexto: Seq<Seq<Termo>>, atual: Seq<Termo>, x: Termo, r: Analise)
    ensures
        retomar(t, contexto, atual, antes(x, r)) == retomar(t, contexto, atual.push(x), r),
{
    match r {
        Analise::Fecha { itens, pos, marca } => {
            assert(atual + (seq![x] + itens) =~= atual.push(x) + itens);
        },
        Analise::Acaba { itens } => {
            assert(atual + (seq![x] + itens) =~= atual.push(x) + itens);
        },
        _ => {},
    }
}

/// Opening a quotation suspends the body read so far and starts an empty one.
proof fn lema_retomar_abre(t: Seq<Lexema>, contexto: Seq<Seq<Termo>>, atual: Seq<Termo>, i: int)
    requires
        0 <= i < t.len(),
        t[i] == Lexema::ParenAbr,
    ensures
        retomar(t, contexto, atual, corpo_de(t, i, true)) == retomar(
            t,
            contexto.push(atual),
            Seq::empty(),
            corpo_de(t, i + 1, false),
        ),
{
    let dentro = corpo_de(t, i + 1, false);
    let fora = contexto.push(atual);
    assert(fora.drop_last() =~= contexto);
    assert(fora.last() == atual);
    lema_fecha_adiante(t, i + 1, false);
    match dentro {
        Analise::Fecha { itens, pos, marca } => {
            assert(Seq::<Termo>::empty() + itens =~= itens);
            lema_retomar_antes(t, contexto, atual, Termo::FuncDef(itens), corpo_de(t, pos + 1, marca));
        },
        Analise::Acaba { itens } => {
            assert(Seq::<Termo>::empty() + itens =~= itens);
        },
        _ => {},
    }
}

/// The item that the symbol `nome` stands for.
fn item_de_simbolo(nome: &String) -> (r: ASTItem)
    ensures
        r@ == palavra(nome@),
{
    let texto = nome.as_str();
    if mesmo_texto(texto, "print") {
        ASTItem::Print
    } else if mesmo_texto(texto, "input") {
        ASTItem::Input
    } else if mesmo_texto(texto, "pop") {
        ASTItem::Pop
    } else if mesmo_texto(texto, "dup") {
        ASTItem::Dup
    } else if mesmo_texto(texto, "swap") {
        ASTItem::Swap
    } else if mesmo_texto(texto, "swapn") {
        ASTItem::SwapN
    } else if mesmo_texto(texto, "ssize") {
        ASTItem::SSize
    } else if mesmo_texto(texto, "if") {
        ASTItem::If
    } else if mesmo_texto(texto, "debugs") {
        ASTItem::DebugS
    } else if mesmo_texto(texto, "true") {
        ASTItem::True
    } else if mesmo_texto(texto, "false") {
        ASTItem::False
    } else {
        ASTItem::FuncCallNamed(nome.clone())
    }
}

/// Reads one function body from `tokens`, starting at the cursor `i`. Quotations
/// nest to any depth; the bodies around the one being read wait on a stack of
/// their own, so the depth of nesting costs no recursion.
///
/// On success the cursor is left on the closing parenthesis that ends the body,
/// or at the end of the tokens. On an error the cursor is left where it was.
pub fn gerar_ast_funcao(tokens: &Vec<Token>, i: &mut usize) -> (r: Result<Vec<ASTItem>, Erro>)
    ensures
        match corpo_analisado(ver_tokens(tokens@), *old(i) as int) {
            Ok((itens, pos)) => r is Ok && ver_corpo(r->Ok_0@) == itens && *final(i) == pos,
            Err(f) => r is Err && r->Err_0@ == f && *final(i) == *old(i),
        },
{
    let ghost t = ver_tokens(tokens@);
    let ghost alvo = corpo_de(t, *i as int, false);
    let mut funcao_atual: Vec<ASTItem> = Vec::new();
    let mut stack_funcoes: Stack<Vec<ASTItem>> = Stack::new();
    let mut criando_funcao = false;
    let mut pos: usize = *i;
    proof {
        let r = corpo_de(t, pos as int, false);
        assert(ver_contexto(stack_funcoes@) =~= Seq::empty());
        match r {
            Analise::Fecha { itens, .. } => {
                assert(ver_corpo(funcao_atual@) + itens =~= itens);
            },
            Analise::Acaba { itens } => {
                assert(ver_corpo(funcao_atual@) + itens =~= itens);
            },
            _ => {},
        }
    }
    while pos < tokens.len()
        invariant
            t == ver_tokens(tokens@),
            *i == *old(i),
            *old(i) <= pos,
            pos <= tokens.len() || pos == *old(i),
            alvo == corpo_de(t, *old(i) as int, false),
            retomar(
                t,
                ver_contexto(stack_funcoes@),
                ver_corpo(funcao_atual@),
                corpo_de(t, pos as int, criando_funcao),
            ) == alvo,
        decreases tokens.len() - pos,
    {
        let ghost contexto = ver_contexto(stack_funcoes@);
        let ghost atual = ver_corpo(funcao_atual@);
        let ghost resto = corpo_de(t, pos + 1, criando_funcao);
        assert(t[pos as int] == tokens@[pos as int]@);
        match &tokens[pos] {
            Token::ParenAbr => {
                if criando_funcao {
                    proof {
                        lema_retomar_abre(t, contexto, atual, pos as int);
                    }
                    criando_funcao = false;
                    stack_funcoes.push(funcao_atual);
                    funcao_atual = Vec::new();
                    assert(ver_contexto(stack_funcoes@) =~= contexto.push(atual));
                    assert(ver_corpo(funcao_atual@) =~= Seq::empty());
                } else {
                    return Err(Erro::ParentesesSemInterrogacao);
                }
            },
            Token::ParenFec => {
                if stack_funcoes.is_empty() {
                    assert(atual + Seq::<Termo>::empty() =~= atual);
                    *i = pos;
                    return Ok(funcao_atual);
                } else {
                    let dentro = funcao_atual;
                    funcao_atual = stack_funcoes.pop().unwrap();
                    funcao_atual.push(ASTItem::FuncDef(dentro));
                    assert(atual + Seq::<Termo>::empty() =~= atual);
                    assert(ver_contexto(stack_funcoes@) =~= contexto.drop_last());
                    assert(ver_corpo(funcao_atual@) =~= contexto.last().push(Termo::FuncDef(atual)));
                }
            },
            Token::Interrogacao => {
                criando_funcao = true;
            },
            Token::Igual => {
                return Err(Erro::IgualDentroDeFuncao);
            },
            Token::Exclamacao => {
                funcao_atual.push(ASTItem::FuncCallTop);
                proof {
                    lema_retomar_antes(t, contexto, atual, Termo::FuncCallTop, resto);
                    assert(ver_corpo(funcao_atual@) =~= atual.push(Termo::FuncCallTop));
                }
            },
            Token::Mais => {
                funcao_atual.push(ASTItem::Mais);
                proof {
                    lema_retomar_antes(t, contexto, atual, Termo::Mais, resto);
                    assert(ver_corpo(funcao_atual@) =~= atual.push(Termo::Mais));
                }
            },
            Token::Maior => {
                funcao_atual.push(ASTItem::Maior);
                proof {
                    lema_retomar_antes(t, contexto, atual, Termo::Maior, resto);
                    assert(ver_corpo(funcao_atual@) =~= atual.push(Termo::Maior));
                }
            },
            Token::Menor => {
                funcao_atual.push(ASTItem::Menor);
                proof {
                    lema_retomar_antes(t, contexto, atual, Termo::Menor, resto);
                    assert(ver_corpo(funcao_atual@) =~= atual.push(Termo::Menor));
                }
            },
            Token::Numero(n) => {
                funcao_atual.push(ASTItem::Numero(*n));
                proof {
                    lema_retomar_antes(t, contexto, atual, Termo::Numero(*n), resto);
                    assert(ver_corpo(funcao_atual@) =~= atual.push(Termo::Numero(*n)));
                }
            },
            Token::Simbolo(nome) => {
                funcao_atual.push(item_de_simbolo(nome));
                proof {
                    lema_retomar_antes(t, contexto, atual, palavra(nome@), resto);
                    assert(ver_corpo(funcao_atual@) =~= atual.push(palavra(nome@)));
                }
            },
            Token::String(s) => {
                funcao_atual.push(ASTItem::String(s.clone()));
                proof {
                    lema_retomar_antes(t, contexto, atual, Termo::Texto(s@), resto);
                    assert(ver_corpo(funcao_atual@) =~= atual.push(Termo::Texto(s@)));
                }
            },
        }
        pos += 1;
    }
    assert(ver_corpo(funcao_atual@) + Seq::<Termo>::empty() =~= ver_corpo(funcao_atual@));
    *i = pos;
    Ok(funcao_atual)
}

/// The definition `d` in front of those of `r`, or the failure of `r`.
pub open spec fn definir(
    d: (Seq<char>, Seq<Termo>),
    r: Result<Seq<(Seq<char>, Seq<Termo>)>, Falha>,
) -> Result<Seq<(Seq<char>, Seq<Termo>)>, Falha> {
    match r {
        Ok(depois) => Ok(seq![d] + depois),
        Err(f) => Err(f),
    }
}

/// The definitions that the tokens from `i` on write, each of the form
/// `name = ( body )`, or the first syntax error met there.
pub open spec fn programa_de(t: Seq<Lexema>, i: int) -> Result<Seq<(Seq<char>, Seq<Termo>)>, Falha>
    decreases t.len() - i,
    via programa_de_termina
{
    if i < 0 || i >= t.len() {
        Ok(Seq::empty())
    } else {
        match t[i] {
            Lexema::Simbolo(nome) => if i + 1 >= t.len() || t[i + 1] != Lexema::Igual {
                Err(Falha::FaltaIgual(nome))
            } else if i + 2 >= t.len() || t[i + 2] != Lexema::ParenAbr {
                Err(Falha::FaltaParenAbr(nome))
            } else {
                match corpo_analisado(t, i + 3) {
                    Err(f) => Err(f),
                    Ok((itens, pos)) => if pos >= t.len() {
                        Err(Falha::FaltaParenFec(nome))
                    } else {
                        definir((nome, itens), programa_de(t, pos + 1))
                    },
                }
            },
            _ => Err(Falha::FaltaNome),
        }
    }
}

#[via_fn]
proof fn programa_de_termina(t: Seq<Lexema>, i: int) {
    if 0 <= i {
        lema_fecha_adiante(t, i + 3, false);
    }
}

/// What the tokens `t` write: a single body under the name `funcao` if `funcao`
/// is set, a whole program of definitions otherwise.
pub open spec fn ast_de(t: Seq<Lexema>, funcao: bool) -> Result<Seq<(Seq<char>, Seq<Termo>)>, Falha> {
    if funcao {
        match corpo_analisado(t, 0) {
            Ok((itens, _)) => Ok(seq![("funcao"@, itens)]),
            Err(f) => Err(f),
        }
    } else {
        programa_de(t, 0)
    }
}

/// What the source text `s` writes, read as [`ast_de`] reads its tokens.
pub open spec fn ast_do_texto(s: Seq<char>, funcao: bool) -> Result<Seq<(Seq<char>, Seq<Termo>)>, Falha> {
    match lexemas(s) {
        Ok(t) => ast_de(t, funcao),
        Err(f) => Err(f),
    }
}

/// What a parsing result stands for.
pub open spec fn ver_ast(r: Result<Vec<(String, Vec<ASTItem>)>, Erro>) -> Result<
    Seq<(Seq<char>, Seq<Termo>)>,
    Falha,
> {
    match r {
        Ok(ast) => Ok(ver_programa(ast@)),
        Err(e) => Err(e@),
    }
}

/// The definitions `antes` followed by those of `r`, or the failure of `r`.
spec fn apos(antes: Seq<(Seq<char>, Seq<Termo>)>, r: Result<Seq<(Seq<char>, Seq<Termo>)>, Falha>) -> Result<
    Seq<(Seq<char>, Seq<Termo>)>,
    Falha,
> {
    match r {
        Ok(depois) => Ok(antes + depois),
        Err(f) => Err(f),
    }
}

/// Parses the tokens of a source text: with `funcao` set, as one bare body, which
/// is returned under the name `funcao`; otherwise as a program, a sequence of
/// definitions `name = ( body )`.
pub fn gerar_ast(tokens: Vec<Token>, funcao: bool) -> (r: Result<Vec<(String, Vec<ASTItem>)>, Erro>)
    ensures
        ver_ast(r) == ast_de(ver_tokens(tokens@), funcao),
{
    let ghost t = ver_tokens(tokens@);
    let mut ast: Vec<(String, Vec<ASTItem>)> = Vec::new();
    let mut i: usize = 0;
    if funcao {
        match gerar_ast_funcao(&tokens, &mut i) {
            Err(e) => {
                return Err(e);
            },
            Ok(corpo) => {
                ast.push(("funcao".to_owned(), corpo));
                assert(ver_programa(ast@) =~= seq![("funcao"@, ver_corpo(corpo@))]);
            },
        }
        return Ok(ast);
    }
    assert(apos(ver_programa(ast@), programa_de(t, 0)) == programa_de(t, 0)) by {
        if let Ok(depois) = programa_de(t, 0) {
            assert(ver_programa(ast@) + depois =~= depois);
        }
    }
    let total = tokens.len();
    while i < total
        invariant
            !funcao,
            t == ver_tokens(tokens@),
            total == tokens.len(),
            i <= total,
            apos(ver_programa(ast@), programa_de(t, i as int)) == programa_de(t, 0),
        decreases total - i,
    {
        let ghost feitas = ver_programa(ast@);
        let ghost comeco = i as int;
        assert(t[comeco] == tokens@[comeco]@);
        let nome: String = match &tokens[i] {
            Token::Simbolo(nome) => nome.clone(),
            _ => {
                return Err(Erro::FaltaNome);
            },
        };
        i += 1;
        if i >= total {
            return Err(Erro::FaltaIgual(nome));
        }
        assert(t[comeco + 1] == tokens@[comeco + 1]@);
        match &tokens[i] {
            Token::Igual => {},
            _ => {
                return Err(Erro::FaltaIgual(nome));
            },
        }
        i += 1;
        if i >= total {
            return Err(Erro::FaltaParenAbr(nome));
        }
        assert(t[comeco + 2] == tokens@[comeco + 2]@);
        match &tokens[i] {
            Token::ParenAbr => {},
            _ => {
                return Err(Erro::FaltaParenAbr(nome));
            },
        }
        i += 1;
        proof {
            lema_fecha_adiante(t, comeco + 3, false);
        }
        let func = match gerar_ast_funcao(&tokens, &mut i) {
            Ok(func) => func,
            Err(e) => {
                return Err(e);
            },
        };
        if i >= total {
            return Err(Erro::FaltaParenFec(nome));
        }
        i += 1;
        proof {
            let d = (nome@, ver_corpo(func@));
            if let Ok(depois) = programa_de(t, i as int) {
                assert(feitas + (seq![d] + depois) =~= feitas.push(d) + depois);
            }
        }
        ast.push((nome, func));
        assert(ver_programa(ast@) =~= feitas.push((nome@, ver_corpo(func@))));
    }
    assert(ver_programa(ast@) + Seq::empty() =~= ver_programa(ast@));
    Ok(ast)
}

/// Lexes and parses a source text, as [`tokenizar`] and [`gerar_ast`] do.
pub fn tokenizar_e_gerar_ast(entrada: &str, funcao: bool) -> (r: Result<Vec<(String, Vec<ASTItem>)>, Erro>)
    ensures
        ver_ast(r) == ast_do_texto(entrada@, funcao),
{
    match tokenizar(entrada) {
        Ok(tokens) => gerar_ast(tokens, funcao),
        Err(e) => Err(e),
    }
}

} // verus!
