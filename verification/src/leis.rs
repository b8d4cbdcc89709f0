use crate::erro::Falha;
use crate::modelo::{Termo, Valor};
use crate::semantica::{config, passo, rodar, Config, Desfecho, Motivo, Passo, Tabela, LIMITE_PILHA};
use vstd::prelude::*;

verus! {

/// A stack that respects the depth ceiling still does so after one step, however
/// the step ends.
pub proof fn lei_passo_respeita_limite(tabela: Tabela, c: Config)
    requires
        c.pilha.len() <= LIMITE_PILHA,
        c.fila.len() > 0,
    ensures
        match passo(tabela, c) {
            Passo::Segue(c2) => c2.pilha.len() <= LIMITE_PILHA,
            Passo::Para(c2, _) => c2.pilha.len() <= LIMITE_PILHA,
            Passo::Falha(_) => true,
        },
{
}

/// The evaluation stack never exceeds its depth ceiling: a run that starts within
/// the ceiling ends within it, whatever it executes and however it ends.
pub proof fn lei_limite_da_pilha(tabela: Tabela, c: Config, passos: nat)
    requires
        c.pilha.len() <= LIMITE_PILHA,
    ensures
        rodar(tabela, c, passos).config.pilha.len() <= LIMITE_PILHA,
    decreases passos,
{
    if c.fila.len() > 0 && passos > 0 {
        lei_passo_respeita_limite(tabela, c);
        match passo(tabela, c) {
            Passo::Segue(c2) => {
                lei_limite_da_pilha(tabela, c2, (passos - 1) as nat);
            },
            _ => {},
        }
    }
}

/// A silent step costs one unit of the budget and nothing else.
proof fn lema_segue(tabela: Tabela, c: Config, c2: Config, passos: nat)
    requires
        c.fila.len() > 0,
        passo(tabela, c) == Passo::Segue(c2),
    ensures
        rodar(tabela, c, passos + 1) == rodar(tabela, c2, passos),
{
}

/// Pushing a literal, when the stack has room for it.
proof fn lema_literal(tabela: Tabela, pilha: Seq<Valor>, t: Termo, v: Valor, fila: Seq<Termo>, passos: nat)
    requires
        pilha.len() < LIMITE_PILHA,
        match t {
            Termo::Numero(k) => v == Valor::Numero(k),
            Termo::True => v == Valor::Bool(true),
            Termo::False => v == Valor::Bool(false),
            Termo::Texto(s) => v == Valor::Texto(s),
            Termo::FuncDef(f) => v == Valor::Func(f),
            _ => false,
        },
    ensures
        rodar(tabela, config(pilha, seq![t] + fila), passos + 1) == rodar(tabela, config(pilha.push(v), fila), passos),
{
    assert((seq![t] + fila).drop_first() =~= fila);
    lema_segue(tabela, config(pilha, seq![t] + fila), config(pilha.push(v), fila), passos);
}

/// Stack arithmetic: evaluating `a b +` leaves what was on the stack in place and
/// puts the sum `a + b` on top, whenever the sum is a 32-bit signed integer and
/// the two operands fit under the depth ceiling.
pub proof fn lei_soma(tabela: Tabela, pilha: Seq<Valor>, fila: Seq<Termo>, a: i32, b: i32, passos: nat)
    requires
        i32::MIN <= a + b <= i32::MAX,
        pilha.len() + 2 <= LIMITE_PILHA,
    ensures
        rodar(tabela, config(pilha, seq![Termo::Numero(a), Termo::Numero(b), Termo::Mais] + fila), passos + 3)
            == rodar(tabela, config(pilha.push(Valor::Numero((a + b) as i32)), fila), passos),
{
    let fila0 = seq![Termo::Numero(a), Termo::Numero(b), Termo::Mais] + fila;
    let fila1 = seq![Termo::Numero(b), Termo::Mais] + fila;
    let fila2 = seq![Termo::Mais] + fila;
    let pilha1 = pilha.push(Valor::Numero(a));
    let pilha2 = pilha1.push(Valor::Numero(b));
    assert(fila0 =~= seq![Termo::Numero(a)] + fila1);
    assert(fila1 =~= seq![Termo::Numero(b)] + fila2);
    assert(fila2.drop_first() =~= fila);
    lema_literal(tabela, pilha, Termo::Numero(a), Valor::Numero(a), fila1, passos + 2);
    lema_literal(tabela, pilha1, Termo::Numero(b), Valor::Numero(b), fila2, passos + 1);
    assert(pilha2.take(pilha2.len() - 2) =~= pilha);
    lema_segue(tabela, config(pilha2, fila2), config(pilha.push(Valor::Numero((a + b) as i32)), fila), passos);
}

/// Stack arithmetic on an empty stack: evaluating `a b +` alone ends with exactly
/// one entry, the sum `a + b`, whenever the sum is a 32-bit signed integer.
pub proof fn lei_soma_sozinha(tabela: Tabela, a: i32, b: i32, passos: nat)
    requires
        i32::MIN <= a + b <= i32::MAX,
        passos >= 3,
    ensures
        rodar(tabela, config(Seq::empty(), seq![Termo::Numero(a), Termo::Numero(b), Termo::Mais]), passos) == (
        Desfecho { config: config(seq![Valor::Numero((a + b) as i32)], Seq::empty()), saida: Ok(Motivo::Fim) }),
{
    let programa = seq![Termo::Numero(a), Termo::Numero(b), Termo::Mais];
    lei_soma(tabela, Seq::empty(), Seq::empty(), a, b, (passos - 3) as nat);
    assert(programa + Seq::<Termo>::empty() =~= programa);
    assert(Seq::<Valor>::empty().push(Valor::Numero((a + b) as i32)) =~= seq![
        Valor::Numero((a + b) as i32),
    ]);
}

/// Comparison keeps its operands: evaluating `a b >` leaves `a` and `b` on the
/// stack in the order in which they were pushed and puts the truth of `a > b` on
/// top; `a b <` does the same with the truth of `a < b`. The three values have to
/// fit under the depth ceiling.
pub proof fn lei_comparacao(tabela: Tabela, pilha: Seq<Valor>, fila: Seq<Termo>, a: i32, b: i32, passos: nat)
    requires
        pilha.len() + 3 <= LIMITE_PILHA,
    ensures
        rodar(tabela, config(pilha, seq![Termo::Numero(a), Termo::Numero(b), Termo::Maior] + fila), passos + 3)
            == rodar(
            tabela,
            config(pilha.push(Valor::Numero(a)).push(Valor::Numero(b)).push(Valor::Bool(a > b)), fila),
            passos,
        ),
        rodar(tabela, config(pilha, seq![Termo::Numero(a), Termo::Numero(b), Termo::Menor] + fila), passos + 3)
            == rodar(
            tabela,
            config(pilha.push(Valor::Numero(a)).push(Valor::Numero(b)).push(Valor::Bool(a < b)), fila),
            passos,
        ),
{
    let pilha1 = pilha.push(Valor::Numero(a));
    let pilha2 = pilha1.push(Valor::Numero(b));
    let maior = seq![Termo::Maior] + fila;
    let menor = seq![Termo::Menor] + fila;
    assert(seq![Termo::Numero(a), Termo::Numero(b), Termo::Maior] + fila =~= seq![Termo::Numero(a)] + (seq![
        Termo::Numero(b),
    ] + maior));
    assert(seq![Termo::Numero(a), Termo::Numero(b), Termo::Menor] + fila =~= seq![Termo::Numero(a)] + (seq![
        Termo::Numero(b),
    ] + menor));
    assert(maior.drop_first() =~= fila);
    assert(menor.drop_first() =~= fila);
    lema_literal(tabela, pilha, Termo::Numero(a), Valor::Numero(a), seq![Termo::Numero(b)] + maior, passos + 2);
    lema_literal(tabela, pilha1, Termo::Numero(b), Valor::Numero(b), maior, passos + 1);
    lema_segue(tabela, config(pilha2, maior), config(pilha2.push(Valor::Bool(a > b)), fila), passos);
    lema_literal(tabela, pilha, Termo::Numero(a), Valor::Numero(a), seq![Termo::Numero(b)] + menor, passos + 2);
    lema_literal(tabela, pilha1, Termo::Numero(b), Valor::Numero(b), menor, passos + 1);
    lema_segue(tabela, config(pilha2, menor), config(pilha2.push(Valor::Bool(a < b)), fila), passos);
}

/// `dup pop` changes nothing: on a stack that holds a value and has room for one
/// more, evaluating the pair leaves the stack as it was.
pub proof fn lei_dup_pop(tabela: Tabela, pilha: Seq<Valor>, fila: Seq<Termo>, passos: nat)
    requires
        1 <= pilha.len() < LIMITE_PILHA,
    ensures
        rodar(tabela, config(pilha, seq![Termo::Dup, Termo::Pop] + fila), passos + 2) == rodar(
            tabela,
            config(pilha, fila),
            passos,
        ),
{
    let fila1 = seq![Termo::Pop] + fila;
    assert(seq![Termo::Dup, Termo::Pop] + fila =~= seq![Termo::Dup] + fila1);
    assert((seq![Termo::Dup] + fila1).drop_first() =~= fila1);
    assert(fila1.drop_first() =~= fila);
    let pilha1 = pilha.push(pilha.last());
    assert(pilha1.drop_last() =~= pilha);
    lema_segue(tabela, config(pilha, seq![Termo::Dup] + fila1), config(pilha1, fila1), passos + 1);
    lema_segue(tabela, config(pilha1, fila1), config(pilha, fila), passos);
}

/// `swap swap` changes nothing: on a stack that holds two values, evaluating the
/// pair leaves the stack as it was.
pub proof fn lei_swap_swap(tabela: Tabela, pilha: Seq<Valor>, fila: Seq<Termo>, passos: nat)
    requires
        pilha.len() >= 2,
    ensures
        rodar(tabela, config(pilha, seq![Termo::Swap, Termo::Swap] + fila), passos + 2) == rodar(
            tabela,
            config(pilha, fila),
            passos,
        ),
{
    let n = pilha.len() as int;
    let fila1 = seq![Termo::Swap] + fila;
    assert(seq![Termo::Swap, Termo::Swap] + fila =~= seq![Termo::Swap] + fila1);
    assert((seq![Termo::Swap] + fila1).drop_first() =~= fila1);
    assert(fila1.drop_first() =~= fila);
    let pilha1 = pilha.take(n - 2).push(pilha[n - 1]).push(pilha[n - 2]);
    assert(pilha1.take(n - 2).push(pilha1[n - 1]).push(pilha1[n - 2]) =~= pilha);
    lema_segue(tabela, config(pilha, seq![Termo::Swap] + fila1), config(pilha1, fila1), passos + 1);
    lema_segue(tabela, config(pilha1, fila1), config(pilha, fila), passos);
}

/// `if` selects: after a condition and two function literals, `if` leaves the
/// stack as it was before the three and goes on with the body of the first
/// literal when the condition is `true`, of the second when it is `false`. The
/// three values have to fit under the depth ceiling.
pub proof fn lei_if(
    tabela: Tabela,
    pilha: Seq<Valor>,
    fila: Seq<Termo>,
    condicao: bool,
    entao: Seq<Termo>,
    senao: Seq<Termo>,
    passos: nat,
)
    requires
        pilha.len() + 3 <= LIMITE_PILHA,
    ensures
        rodar(
            tabela,
            config(
                pilha,
                seq![
                    if condicao {
                        Termo::True
                    } else {
                        Termo::False
                    },
                    Termo::FuncDef(entao),
                    Termo::FuncDef(senao),
                    Termo::If,
                ] + fila,
            ),
            passos + 5,
        ) == rodar(
            tabela,
            config(
                pilha,
                (if condicao {
                    entao
                } else {
                    senao
                }) + fila,
            ),
            passos,
        ),
{
    let c = if condicao {
        Termo::True
    } else {
        Termo::False
    };
    let escolhida = if condicao {
        entao
    } else {
        senao
    };
    let fila3 = seq![Termo::If] + fila;
    let fila2 = seq![Termo::FuncDef(senao)] + fila3;
    let fila1 = seq![Termo::FuncDef(entao)] + fila2;
    let fila4 = seq![Termo::FuncCallTop] + fila;
    assert(seq![c, Termo::FuncDef(entao), Termo::FuncDef(senao), Termo::If] + fila =~= seq![c] + fila1);
    assert(fila3.drop_first() =~= fila);
    assert(fila4.drop_first() =~= fila);
    let pilha1 = pilha.push(Valor::Bool(condicao));
    let pilha2 = pilha1.push(Valor::Func(entao));
    let pilha3 = pilha2.push(Valor::Func(senao));
    let pilha4 = pilha.push(Valor::Func(escolhida));
    lema_literal(tabela, pilha, c, Valor::Bool(condicao), fila1, passos + 4);
    lema_literal(tabela, pilha1, Termo::FuncDef(entao), Valor::Func(entao), fila2, passos + 3);
    lema_literal(tabela, pilha2, Termo::FuncDef(senao), Valor::Func(senao), fila3, passos + 2);
    assert(pilha3.take(pilha3.len() - 3) =~= pilha);
    lema_segue(tabela, config(pilha3, fila3), config(pilha4, fila4), passos + 1);
    assert(pilha4.drop_last() =~= pilha);
    lema_segue(tabela, config(pilha4, fila4), config(pilha, escolhida + fila), passos);
}

/// Fatal on underflow: `+` on a stack of fewer than two values fails, ends the
/// run, and leaves the stack as it was.
pub proof fn lei_soma_sem_operandos(tabela: Tabela, pilha: Seq<Valor>, fila: Seq<Termo>, passos: nat)
    requires
        pilha.len() < 2,
        passos >= 1,
    ensures
        passo(tabela, config(pilha, seq![Termo::Mais] + fila)) == Passo::Falha(Falha::PilhaInsuficiente),
        rodar(tabela, config(pilha, seq![Termo::Mais] + fila), passos) == (Desfecho {
            config: config(pilha, Seq::empty()),
            saida: Err(Falha::PilhaInsuficiente),
        }),
{
}

} // verus!
