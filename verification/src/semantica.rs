use crate::erro::Falha;
use crate::modelo::{Termo, Valor};
use crate::texto::decimal;
use vstd::prelude::*;

verus! {

/// The most values the evaluation stack may hold.
pub const LIMITE_PILHA: usize = 1000;

/// The function table: each defined name with its body.
pub type Tabela = Map<Seq<char>, Seq<Termo>>;

/// What is left of an evaluation: the value stack, bottom first, and the pending
/// items in the order in which they will be executed.
pub struct Config {
    pub pilha: Seq<Valor>,
    pub fila: Seq<Termo>,
}

/// The evaluation whose value stack is `pilha` and whose pending items are `fila`.
pub open spec fn config(pilha: Seq<Valor>, fila: Seq<Termo>) -> Config {
    Config { pilha, fila }
}

/// Why a run handed control back to its driver.
pub enum Motivo {
    /// Nothing is pending any more.
    Fim,
    /// The step budget of this run is spent; work is still pending.
    Pausa,
    /// A line to write to the output.
    Imprimir(Seq<char>),
    /// `print` met a function value, which has no textual form.
    NaoImprimivel(Valor),
    /// The whole stack, to be shown for diagnostics.
    Depurar(Seq<Valor>),
    /// A prompt to write; the driver then reads a line and hands it back.
    Ler(Seq<char>),
}

/// The outcome of executing one pending item.
pub enum Passo {
    /// The item was executed silently.
    Segue(Config),
    /// The item was executed and asks something of the driver.
    Para(Config, Motivo),
    /// The item cannot be executed.
    Falha(Falha),
}

/// Pushing `v` and going on with `fila`, unless the stack is full.
pub open spec fn empilhar(pilha: Seq<Valor>, v: Valor, fila: Seq<Termo>) -> Passo {
    if pilha.len() >= LIMITE_PILHA {
        Passo::Falha(Falha::PilhaMuitoGrande)
    } else {
        Passo::Segue(Config { pilha: pilha.push(v), fila })
    }
}

/// The two integers on top of the stack: the top itself, then the one below it.
pub open spec fn dois_inteiros(pilha: Seq<Valor>) -> Result<(i32, i32), Falha> {
    if pilha.len() < 2 {
        Err(Falha::PilhaInsuficiente)
    } else {
        match (pilha[pilha.len() - 1], pilha[pilha.len() - 2]) {
            (Valor::Numero(n1), Valor::Numero(n2)) => Ok((n1, n2)),
            _ => Err(Falha::TipoInvalido),
        }
    }
}

/// The textual form that `print` writes for a value, if it has one.
pub open spec fn forma_textual(v: Valor) -> Option<Seq<char>> {
    match v {
        Valor::Numero(n) => Some(decimal(n as int)),
        Valor::Bool(b) => Some(
            if b {
                "true"@
            } else {
                "false"@
            },
        ),
        Valor::Texto(s) => Some(s),
        Valor::Func(_) => None,
    }
}

/// Executing the first pending item of `c`, which must have one.
pub open spec fn passo(tabela: Tabela, c: Config) -> Passo
    recommends
        c.fila.len() > 0,
{
    let p = c.pilha;
    let n = p.len() as int;
    let resto = c.fila.drop_first();
    match c.fila[0] {
        Termo::True => empilhar(p, Valor::Bool(true), resto),
        Termo::False => empilhar(p, Valor::Bool(false), resto),
        Termo::Numero(k) => empilhar(p, Valor::Numero(k), resto),
        Termo::Texto(s) => empilhar(p, Valor::Texto(s), resto),
        Termo::FuncDef(f) => empilhar(p, Valor::Func(f), resto),
        Termo::Mais => match dois_inteiros(p) {
            Err(e) => Passo::Falha(e),
            Ok((n1, n2)) => if i32::MIN <= n1 + n2 <= i32::MAX {
                Passo::Segue(
                    Config { pilha: p.take(n - 2).push(Valor::Numero((n1 + n2) as i32)), fila: resto },
                )
            } else {
                Passo::Falha(Falha::SomaForaDoIntervalo)
            },
        },
        Termo::Maior => match dois_inteiros(p) {
            Err(e) => Passo::Falha(e),
            Ok((n1, n2)) => empilhar(p, Valor::Bool(n2 > n1), resto),
        },
        Termo::Menor => match dois_inteiros(p) {
            Err(e) => Passo::Falha(e),
            Ok((n1, n2)) => empilhar(p, Valor::Bool(n2 < n1), resto),
        },
        Termo::Print => if n < 1 {
            Passo::Falha(Falha::PilhaInsuficiente)
        } else {
            match forma_textual(p.last()) {
                Some(linha) => Passo::Para(Config { pilha: p, fila: resto }, Motivo::Imprimir(linha)),
                None => Passo::Para(Config { pilha: p, fila: resto }, Motivo::NaoImprimivel(p.last())),
            }
        },
        Termo::Input => if n < 1 {
            Passo::Falha(Falha::PilhaInsuficiente)
        } else {
            match p.last() {
                Valor::Texto(s) => Passo::Para(
                    Config { pilha: p.drop_last(), fila: resto },
                    Motivo::Ler(s),
                ),
                _ => Passo::Falha(Falha::TipoInvalido),
            }
        },
        Termo::Pop => if n < 1 {
            Passo::Falha(Falha::PilhaInsuficiente)
        } else {
            Passo::Segue(Config { pilha: p.drop_last(), fila: resto })
        },
        Termo::Dup => if n < 1 {
            Passo::Falha(Falha::PilhaInsuficiente)
        } else {
            empilhar(p, p.last(), resto)
        },
        Termo::Swap => if n < 2 {
            Passo::Falha(Falha::PilhaInsuficiente)
        } else {
            Passo::Segue(Config { pilha: p.take(n - 2).push(p[n - 1]).push(p[n - 2]), fila: resto })
        },
        Termo::SwapN => if n < 1 {
            Passo::Falha(Falha::PilhaInsuficiente)
        } else {
            match p.last() {
                Valor::Numero(pos) => if pos < 0 {
                    Passo::Falha(Falha::PosicaoNegativa(pos))
                } else if pos >= n - 1 {
                    Passo::Falha(Falha::PosicaoForaDaPilha(pos, (n - 1) as usize))
                } else {
                    let q = p.drop_last();
                    Passo::Segue(
                        Config {
                            pilha: q.update(n - 2, q[n - 2 - pos]).update(n - 2 - pos, q[n - 2]),
                            fila: resto,
                        },
                    )
                },
                _ => Passo::Falha(Falha::TipoInvalido),
            }
        },
        Termo::SSize => empilhar(p, Valor::Numero(n as i32), resto),
        Termo::If => if n < 3 {
            Passo::Falha(Falha::PilhaInsuficiente)
        } else {
            match (p[n - 1], p[n - 2], p[n - 3]) {
                (Valor::Func(senao), Valor::Func(entao), Valor::Bool(b)) => Passo::Segue(
                    Config {
                        pilha: p.take(n - 3).push(
                            Valor::Func(
                                if b {
                                    entao
                                } else {
                                    senao
                                },
                            ),
                        ),
                        fila: seq![Termo::FuncCallTop] + resto,
                    },
                ),
                _ => Passo::Falha(Falha::TipoInvalido),
            }
        },
        Termo::DebugS => Passo::Para(Config { pilha: p, fila: resto }, Motivo::Depurar(p)),
        Termo::FuncCallTop => if n < 1 {
            Passo::Falha(Falha::PilhaInsuficiente)
        } else {
            match p.last() {
                Valor::Func(f) => Passo::Segue(Config { pilha: p.drop_last(), fila: f + resto }),
                _ => Passo::Falha(Falha::TipoInvalido),
            }
        },
        Termo::FuncCallNamed(nome) => if tabela.contains_key(nome) {
            Passo::Segue(Config { pilha: p, fila: tabela[nome] + resto })
        } else {
            Passo::Falha(Falha::FuncaoInexistente(nome))
        },
    }
}

/// How a run of at most `passos` steps ends, and what it leaves behind.
pub struct Desfecho {
    pub config: Config,
    pub saida: Result<Motivo, Falha>,
}

/// Executes pending items of `c` one after the other until nothing is pending, an
/// item asks something of the driver, an item fails, or `passos` items were
/// executed. A failing item leaves the value stack as it found it and drops all
/// pending work.
pub open spec fn rodar(tabela: Tabela, c: Config, passos: nat) -> Desfecho
    decreases passos,
{
    if c.fila.len() == 0 {
        Desfecho { config: c, saida: Ok(Motivo::Fim) }
    } else if passos == 0 {
        Desfecho { config: c, saida: Ok(Motivo::Pausa) }
    } else {
        match passo(tabela, c) {
            Passo::Segue(c2) => rodar(tabela, c2, (passos - 1) as nat),
            Passo::Para(c2, m) => Desfecho { config: c2, saida: Ok(m) },
            Passo::Falha(f) => Desfecho {
                config: Config { pilha: c.pilha, fila: Seq::empty() },
                saida: Err(f),
            },
        }
    }
}

} // verus!
