use crate::erro::{Erro, Falha};
use crate::modelo::{clonar_corpo, ver_corpo, ver_programa, ver_valores, ASTItem, Item, Termo, Valor};
use crate::pilha::Stack;
use crate::semantica::{
    config, dois_inteiros, forma_textual, passo, rodar, Config, Desfecho, Motivo, Passo, Tabela,
    LIMITE_PILHA,
};
use crate::sintaxe::{ast_do_texto, tokenizar_e_gerar_ast};
use crate::texto::texto_de_inteiro;
use vstd::hash_map::StringHashMap;
use vstd::prelude::*;

verus! {

/// How many pending items [`PSFState::continuar`] executes before it hands control back.
pub const PASSOS_POR_RODADA: usize = 4096;

/// Why a run handed control back, and what its driver has to do before it resumes.
#[derive(Debug, PartialEq, Eq)]
pub enum Parada {
    /// Nothing is pending any more.
    Fim,
    /// The step budget is spent; resume to go on.
    Pausa,
    /// Write this line to the output, then resume.
    Imprimir(String),
    /// `print` met this function value, which has no textual form; report it, then resume.
    NaoImprimivel(Item),
    /// Show these values, the whole stack from the bottom up, then resume.
    Depurar(Vec<Item>),
    /// Write this prompt, read one line, hand it over with
    /// [`PSFState::entregar_linha`], then resume.
    Ler(String),
}

impl View for Parada {
    type V = Motivo;

    open spec fn view(&self) -> Motivo {
        match self {
            Parada::Fim => Motivo::Fim,
            Parada::Pausa => Motivo::Pausa,
            Parada::Imprimir(linha) => Motivo::Imprimir(linha@),
            Parada::NaoImprimivel(item) => Motivo::NaoImprimivel(item@),
            Parada::Depurar(itens) => Motivo::Depurar(ver_valores(itens@)),
            Parada::Ler(pergunta) => Motivo::Ler(pergunta@),
        }
    }
}

/// What the result of a run stands for.
pub open spec fn ver_saida(r: Result<Parada, Erro>) -> Result<Motivo, Falha> {
    match r {
        Ok(p) => Ok(p@),
        Err(e) => Err(e@),
    }
}

/// The pending items in the order in which they will be executed: the top of the
/// work list comes first.
pub open spec fn fila_de(pendentes: Seq<ASTItem>) -> Seq<Termo> {
    Seq::new(pendentes.len(), |i: int| pendentes[pendentes.len() - 1 - i]@)
}

/// The function table that a map from names to bodies stands for.
pub open spec fn tabela_de(funcoes: Map<Seq<char>, Vec<ASTItem>>) -> Tabela {
    Map::new(|nome: Seq<char>| funcoes.contains_key(nome), |nome: Seq<char>| ver_corpo(funcoes[nome]@))
}

/// Puts the items of `corpo` on the work list so that they are executed next, in
/// their own order, before what was pending.
fn agendar(pendentes: &mut Stack<ASTItem>, corpo: &Vec<ASTItem>)
    ensures
        fila_de(final(pendentes)@) == ver_corpo(corpo@) + fila_de(old(pendentes)@),
{
    let mut k: usize = corpo.len();
    while k > 0
        invariant
            k <= corpo.len(),
            fila_de(pendentes@) == ver_corpo(corpo@).skip(k as int) + fila_de(old(pendentes)@),
        decreases k,
    {
        k -= 1;
        let ghost antes = pendentes@;
        pendentes.push(corpo[k].clone());
        assert(fila_de(pendentes@) =~= seq![corpo@[k as int]@] + fila_de(antes));
        assert(ver_corpo(corpo@).skip(k as int) =~= seq![corpo@[k as int]@] + ver_corpo(corpo@).skip(
            k + 1,
        ));
    }
}

/// Pushes `valor` unless the stack is full.
fn empilhar_valor(stack: &mut Stack<Item>, valor: Item) -> (r: Result<Option<Parada>, Erro>)
    ensures
        old(stack)@.len() >= LIMITE_PILHA ==> r == Err::<Option<Parada>, Erro>(Erro::PilhaMuitoGrande)
            && final(stack)@ == old(stack)@,
        old(stack)@.len() < LIMITE_PILHA ==> r == Ok::<Option<Parada>, Erro>(None) && final(stack)@ == old(
            stack,
        )@.push(valor),
{
    if stack.len() >= LIMITE_PILHA {
        Err(Erro::PilhaMuitoGrande)
    } else {
        stack.push(valor);
        Ok(None)
    }
}

/// Reads the two integers on top of the stack: the top itself, then the one below it.
fn ler_dois_inteiros(stack: &Stack<Item>) -> (r: Result<(i32, i32), Erro>)
    ensures
        match dois_inteiros(ver_valores(stack@)) {
            Ok(par) => r == Ok::<(i32, i32), Erro>(par),
            Err(f) => r matches Err(e) && e@ == f,
        },
{
    if stack.len() < 2 {
        return Err(Erro::PilhaInsuficiente);
    }
    match (stack.espiar(0), stack.espiar(1)) {
        (Item::Numero(n1), Item::Numero(n2)) => Ok((*n1, *n2)),
        _ => Err(Erro::TipoInvalido),
    }
}

/// What `print` writes for `item`.
fn imprimir(item: &Item) -> (p: Parada)
    ensures
        match forma_textual(item@) {
            Some(linha) => p@ == Motivo::Imprimir(linha),
            None => p@ == Motivo::NaoImprimivel(item@),
        },
{
    match item {
        Item::Numero(n) => Parada::Imprimir(texto_de_inteiro(*n)),
        Item::Bool(b) => Parada::Imprimir(
            if *b {
                "true".to_owned()
            } else {
                "false".to_owned()
            },
        ),
        Item::String(s) => Parada::Imprimir(s.clone()),
        Item::Func(_) => Parada::NaoImprimivel(item.clone()),
    }
}

/// A copy of every value of the stack, bottom first.
fn copiar_pilha(stack: &Stack<Item>) -> (r: Vec<Item>)
    ensures
        ver_valores(r@) == ver_valores(stack@),
{
    let n = stack.len();
    let mut r: Vec<Item> = Vec::new();
    let mut i: usize = 0;
    while i < n
        invariant
            n == stack@.len(),
            i <= n,
            r.len() == i,
            forall|j: int| 0 <= j < i ==> r@[j]@ == stack@[j]@,
        decreases n - i,
    {
        r.push(stack.espiar(n - 1 - i).clone());
        i += 1;
    }
    assert(ver_valores(r@) =~= ver_valores(stack@));
    r
}

/// Executes `item` against the value stack, the work list and the function table.
fn executar(
    stack: &mut Stack<Item>,
    pendentes: &mut Stack<ASTItem>,
    funcoes: &StringHashMap<Vec<ASTItem>>,
    item: ASTItem,
) -> (r: Result<Option<Parada>, Erro>)
    ensures
        match passo(
            tabela_de(funcoes@),
            config(ver_valores(old(stack)@), seq![item@] + fila_de(old(pendentes)@)),
        ) {
            Passo::Segue(c) => r matches Ok(None) && ver_valores(final(stack)@) == c.pilha && fila_de(
                final(pendentes)@,
            ) == c.fila,
            Passo::Para(c, m) => r matches Ok(Some(p)) && p@ == m && ver_valores(final(stack)@)
                == c.pilha && fila_de(final(pendentes)@) == c.fila,
            Passo::Falha(f) => r matches Err(e) && e@ == f && final(stack)@ == old(stack)@,
        },
{
    let ghost p = ver_valores(stack@);
    let ghost resto = fila_de(pendentes@);
    let ghost n = stack@.len() as int;
    assert((seq![item@] + resto).drop_first() =~= resto);
    assert((seq![item@] + resto)[0] == item@);
    match item {
        ASTItem::True => {
            let r = empilhar_valor(stack, Item::Bool(true));
            assert(r is Ok ==> ver_valores(stack@) =~= p.push(Valor::Bool(true)));
            r
        },
        ASTItem::False => {
            let r = empilhar_valor(stack, Item::Bool(false));
            assert(r is Ok ==> ver_valores(stack@) =~= p.push(Valor::Bool(false)));
            r
        },
        ASTItem::Numero(k) => {
            let r = empilhar_valor(stack, Item::Numero(k));
            assert(r is Ok ==> ver_valores(stack@) =~= p.push(Valor::Numero(k)));
            r
        },
        ASTItem::String(s) => {
            let ghost v = Valor::Texto(s@);
            let r = empilhar_valor(stack, Item::String(s));
            assert(r is Ok ==> ver_valores(stack@) =~= p.push(v));
            r
        },
        ASTItem::FuncDef(f) => {
            let ghost v = Valor::Func(ver_corpo(f@));
            let r = empilhar_valor(stack, Item::Func(f));
            assert(r is Ok ==> ver_valores(stack@) =~= p.push(v));
            r
        },
        ASTItem::Mais => {
            match ler_dois_inteiros(stack) {
                Err(e) => Err(e),
                Ok((n1, n2)) => match n1.checked_add(n2) {
                    None => Err(Erro::SomaForaDoIntervalo),
                    Some(soma) => {
                        stack.pop();
                        stack.pop();
                        stack.push(Item::Numero(soma));
                        assert(ver_valores(stack@) =~= p.take(n - 2).push(Valor::Numero(soma)));
                        Ok(None)
                    },
                },
            }
        },
        ASTItem::Maior => {
            match ler_dois_inteiros(stack) {
                Err(e) => Err(e),
                Ok((n1, n2)) => {
                    let r = empilhar_valor(stack, Item::Bool(n2 > n1));
                    assert(r is Ok ==> ver_valores(stack@) =~= p.push(Valor::Bool(n2 > n1)));
                    r
                },
            }
        },
        ASTItem::Menor => {
            match ler_dois_inteiros(stack) {
                Err(e) => Err(e),
                Ok((n1, n2)) => {
                    let r = empilhar_valor(stack, Item::Bool(n2 < n1));
                    assert(r is Ok ==> ver_valores(stack@) =~= p.push(Valor::Bool(n2 < n1)));
                    r
                },
            }
        },
        ASTItem::Print => {
            if stack.is_empty() {
                Err(Erro::PilhaInsuficiente)
            } else {
                Ok(Some(imprimir(stack.espiar(0))))
            }
        },
        ASTItem::Input => {
            if stack.is_empty() {
                return Err(Erro::PilhaInsuficiente);
            }
            match stack.espiar(0) {
                Item::String(_) => {},
                _ => {
                    return Err(Erro::TipoInvalido);
                },
            }
            match stack.pop() {
                Some(Item::String(pergunta)) => {
                    assert(ver_valores(stack@) =~= p.drop_last());
                    Ok(Some(Parada::Ler(pergunta)))
                },
                _ => Err(Erro::TipoInvalido),
            }
        },
        ASTItem::Pop => {
            if stack.is_empty() {
                Err(Erro::PilhaInsuficiente)
            } else {
                stack.pop();
                assert(ver_valores(stack@) =~= p.drop_last());
                Ok(None)
            }
        },
        ASTItem::Dup => {
            if stack.is_empty() {
                Err(Erro::PilhaInsuficiente)
            } else {
                let copia = stack.espiar(0).clone();
                let r = empilhar_valor(stack, copia);
                assert(r is Ok ==> ver_valores(stack@) =~= p.push(p.last()));
                r
            }
        },
        ASTItem::Swap => {
            if stack.len() < 2 {
                Err(Erro::PilhaInsuficiente)
            } else {
                stack.trocar(1);
                assert(ver_valores(stack@) =~= p.take(n - 2).push(p[n - 1]).push(p[n - 2]));
                Ok(None)
            }
        },
        ASTItem::SwapN => {
            if stack.is_empty() {
                return Err(Erro::PilhaInsuficiente);
            }
            let pos: i32 = match stack.espiar(0) {
                Item::Numero(pos) => *pos,
                _ => {
                    return Err(Erro::TipoInvalido);
                },
            };
            let tamanho: usize = stack.len() - 1;
            if pos < 0 {
                Err(Erro::PosicaoNegativa(pos))
            } else if pos as usize >= tamanho {
                Err(Erro::PosicaoForaDaPilha(pos, tamanho))
            } else {
                stack.pop();
                stack.trocar(pos as usize);
                let ghost q = p.drop_last();
                assert(ver_valores(stack@) =~= q.update(n - 2, q[n - 2 - pos]).update(
                    n - 2 - pos,
                    q[n - 2],
                ));
                Ok(None)
            }
        },
        ASTItem::SSize => {
            if stack.len() >= LIMITE_PILHA {
                Err(Erro::PilhaMuitoGrande)
            } else {
                let tamanho: i32 = stack.len() as i32;
                stack.push(Item::Numero(tamanho));
                assert(ver_valores(stack@) =~= p.push(Valor::Numero(n as i32)));
                Ok(None)
            }
        },
        ASTItem::If => {
            if stack.len() < 3 {
                return Err(Erro::PilhaInsuficiente);
            }
            let condicao: bool = match (stack.espiar(0), stack.espiar(1), stack.espiar(2)) {
                (Item::Func(_), Item::Func(_), Item::Bool(b)) => *b,
                _ => {
                    return Err(Erro::TipoInvalido);
                },
            };
            let senao = stack.pop().unwrap();
            let entao = stack.pop().unwrap();
            stack.pop();
            let ghost escolhida = if condicao {
                entao@
            } else {
                senao@
            };
            stack.push(
                if condicao {
                    entao
                } else {
                    senao
                },
            );
            pendentes.push(ASTItem::FuncCallTop);
            assert(ver_valores(stack@) =~= p.take(n - 3).push(escolhida));
            assert(fila_de(pendentes@) =~= seq![Termo::FuncCallTop] + resto);
            Ok(None)
        },
        ASTItem::DebugS => Ok(Some(Parada::Depurar(copiar_pilha(stack)))),
        ASTItem::FuncCallTop => {
            if stack.is_empty() {
                return Err(Erro::PilhaInsuficiente);
            }
            match stack.espiar(0) {
                Item::Func(_) => {},
                _ => {
                    return Err(Erro::TipoInvalido);
                },
            }
            match stack.pop() {
                Some(Item::Func(f)) => {
                    agendar(pendentes, &f);
                    assert(ver_valores(stack@) =~= p.drop_last());
                    Ok(None)
                },
                _ => Err(Erro::TipoInvalido),
            }
        },
        ASTItem::FuncCallNamed(nome) => {
            match funcoes.get(nome.as_str()) {
                Some(f) => {
                    agendar(pendentes, f);
                    Ok(None)
                },
                None => Err(Erro::FuncaoInexistente(nome)),
            }
        },
    }
}

/// The table after the definitions `defs` were entered one after the other: a later
/// definition of a name replaces an earlier one.
pub open spec fn carregar(tabela: Tabela, defs: Seq<(Seq<char>, Seq<Termo>)>) -> Tabela
    decreases defs.len(),
{
    if defs.len() == 0 {
        tabela
    } else {
        carregar(tabela, defs.drop_last()).insert(defs.last().0, defs.last().1)
    }
}

/// Later definitions overwrite earlier ones: a name that `defs` defines ends up
/// with the body of its last definition there.
pub proof fn lei_definicao_mais_recente(tabela: Tabela, defs: Seq<(Seq<char>, Seq<Termo>)>, k: int)
    requires
        0 <= k < defs.len(),
        forall|j: int| k < j < defs.len() ==> (#[trigger] defs[j]).0 != defs[k].0,
    ensures
        carregar(tabela, defs).contains_key(defs[k].0),
        carregar(tabela, defs)[defs[k].0] == defs[k].1,
    decreases defs.len(),
{
    if k < defs.len() - 1 {
        let antes = defs.drop_last();
        assert(antes[k] == defs[k]);
        assert(defs[defs.len() - 1].0 != defs[k].0);
        assert forall|j: int| k < j < antes.len() implies (#[trigger] antes[j]).0 != antes[k].0 by {
            assert(antes[j] == defs[j]);
        }
        lei_definicao_mais_recente(tabela, antes, k);
    }
}

/// A name that `defs` does not define stays as the table had it.
pub proof fn lei_nome_nao_definido(tabela: Tabela, defs: Seq<(Seq<char>, Seq<Termo>)>, nome: Seq<char>)
    requires
        forall|j: int| 0 <= j < defs.len() ==> (#[trigger] defs[j]).0 != nome,
    ensures
        carregar(tabela, defs).contains_key(nome) == tabela.contains_key(nome),
        tabela.contains_key(nome) ==> carregar(tabela, defs)[nome] == tabela[nome],
    decreases defs.len(),
{
    if defs.len() > 0 {
        let antes = defs.drop_last();
        assert(defs[defs.len() - 1].0 != nome);
        assert forall|j: int| 0 <= j < antes.len() implies (#[trigger] antes[j]).0 != nome by {
            assert(antes[j] == defs[j]);
        }
        lei_nome_nao_definido(tabela, antes, nome);
    }
}

/// The state of an interpreter: the value stack, the table of named functions and
/// the work that is still pending from the current run.
pub struct PSFState {
    stack: Stack<Item>,
    funcoes: StringHashMap<Vec<ASTItem>>,
    pendentes: Stack<ASTItem>,
}

impl PSFState {
    /// The value stack, bottom first.
    pub closed spec fn pilha(&self) -> Seq<Valor> {
        ver_valores(self.stack@)
    }

    /// The pending items, the next one first.
    pub closed spec fn fila(&self) -> Seq<Termo> {
        fila_de(self.pendentes@)
    }

    /// The table of named functions.
    pub closed spec fn tabela(&self) -> Tabela {
        tabela_de(self.funcoes@)
    }

    /// The value stack together with the pending items.
    pub open spec fn config(&self) -> Config {
        config(self.pilha(), self.fila())
    }

    /// How a run ended that returned `r` and left this state behind.
    pub open spec fn desfecho(&self, r: Result<Parada, Erro>) -> Desfecho {
        Desfecho { config: self.config(), saida: ver_saida(r) }
    }

    /// A state with an empty stack, no function and nothing pending.
    pub fn new() -> (s: PSFState)
        ensures
            s.pilha() == Seq::<Valor>::empty(),
            s.fila() == Seq::<Termo>::empty(),
            s.tabela() == Map::<Seq<char>, Seq<Termo>>::empty(),
    {
        let s = PSFState { stack: Stack::new(), funcoes: StringHashMap::new(), pendentes: Stack::new() };
        assert(s.pilha() =~= Seq::<Valor>::empty());
        assert(s.fila() =~= Seq::<Termo>::empty());
        assert(s.tabela() =~= Map::<Seq<char>, Seq<Termo>>::empty());
        s
    }

    /// Empties the value stack. Functions and pending work stay.
    pub fn clear_stack(&mut self)
        ensures
            final(self).pilha() == Seq::<Valor>::empty(),
            final(self).fila() == old(self).fila(),
            final(self).tabela() == old(self).tabela(),
    {
        self.stack.clear();
        assert(self.pilha() =~= Seq::<Valor>::empty());
    }

    /// Enters the definitions of `ast` into the function table, in their order.
    pub fn load_ast(&mut self, ast: Vec<(String, Vec<ASTItem>)>)
        ensures
            final(self).tabela() == carregar(old(self).tabela(), ver_programa(ast@)),
            final(self).config() == old(self).config(),
    {
        let ghost defs = ver_programa(ast@);
        let ghost inicio = self.tabela();
        assert(defs.take(0) =~= Seq::empty());
        for par in it: ast
            invariant
                it.seq() == ast@,
                defs == ver_programa(ast@),
                self.tabela() == carregar(inicio, defs.take(it.index() as int)),
                self.config() == old(self).config(),
        {
            let ghost k = it.index() as int;
            let ghost mapa = self.funcoes@;
            let (nome, funcao) = par;
            assert(defs.take(k + 1).drop_last() =~= defs.take(k));
            assert(defs.take(k + 1).last() == (nome@, ver_corpo(funcao@)));
            self.funcoes.insert(nome, funcao);
            assert(tabela_de(self.funcoes@) =~= tabela_de(mapa).insert(nome@, ver_corpo(funcao@)));
        }
        assert(defs.take(defs.len() as int) =~= defs);
    }

    /// Reads `entrada` as a program and enters its definitions into the function
    /// table. A text that is in error changes nothing.
    pub fn load_string(&mut self, entrada: &str) -> (r: Result<(), Erro>)
        ensures
            final(self).config() == old(self).config(),
            match ast_do_texto(entrada@, false) {
                Ok(defs) => r is Ok && final(self).tabela() == carregar(old(self).tabela(), defs),
                Err(f) => r is Err && r->Err_0@ == f && final(self).tabela() == old(self).tabela(),
            },
    {
        match tokenizar_e_gerar_ast(entrada, false) {
            Ok(ast) => {
                self.load_ast(ast);
                Ok(())
            },
            Err(e) => Err(e),
        }
    }

    /// Enters the helper function `printp`, which prints the top of the stack and drops it.
    pub fn load_funcs(&mut self)
        ensures
            final(self).tabela() == old(self).tabela().insert("printp"@, seq![Termo::Print, Termo::Pop]),
            final(self).config() == old(self).config(),
    {
        let ghost mapa = self.funcoes@;
        let mut corpo: Vec<ASTItem> = Vec::new();
        corpo.push(ASTItem::Print);
        corpo.push(ASTItem::Pop);
        assert(ver_corpo(corpo@) =~= seq![Termo::Print, Termo::Pop]);
        self.funcoes.insert("printp".to_owned(), corpo);
        assert(tabela_de(self.funcoes@) =~= tabela_de(mapa).insert("printp"@, seq![Termo::Print, Termo::Pop]));
    }

    /// A copy of the value stack, bottom first.
    pub fn valores(&self) -> (r: Vec<Item>)
        ensures
            ver_valores(r@) == self.pilha(),
    {
        copiar_pilha(&self.stack)
    }

    /// Whether the function table holds `nome`.
    pub fn tem_funcao(&self, nome: &str) -> (b: bool)
        ensures
            b == self.tabela().contains_key(nome@),
    {
        self.funcoes.contains_key(nome)
    }

    /// Whether work is pending from the current run.
    pub fn tem_pendentes(&self) -> (b: bool)
        ensures
            b == (self.fila().len() > 0),
    {
        !self.pendentes.is_empty()
    }

    /// Hands over the line that was read for a [`Parada::Ler`]: it becomes the top of
    /// the stack, unless the stack is full.
    pub fn entregar_linha(&mut self, linha: String) -> (r: Result<(), Erro>)
        ensures
            final(self).fila() == old(self).fila(),
            final(self).tabela() == old(self).tabela(),
            old(self).pilha().len() < LIMITE_PILHA ==> r is Ok && final(self).pilha() == old(self).pilha().push(
                Valor::Texto(linha@),
            ),
            old(self).pilha().len() >= LIMITE_PILHA ==> r == Err::<(), Erro>(Erro::PilhaMuitoGrande)
                && final(self).pilha() == old(self).pilha(),
    {
        if self.stack.len() >= LIMITE_PILHA {
            Err(Erro::PilhaMuitoGrande)
        } else {
            let ghost v = Valor::Texto(linha@);
            self.stack.push(Item::String(linha));
            assert(self.pilha() =~= old(self).pilha().push(v));
            Ok(())
        }
    }

    /// Executes the next pending item. With nothing pending it reports
    /// [`Parada::Fim`] and changes nothing. An item that cannot be executed leaves
    /// the value stack as it was and drops all pending work.
    pub fn avancar(&mut self) -> (r: Result<Option<Parada>, Erro>)
        ensures
            final(self).tabela() == old(self).tabela(),
            old(self).fila().len() == 0 ==> r == Ok::<Option<Parada>, Erro>(Some(Parada::Fim))
                && final(self).config() == old(self).config(),
            old(self).fila().len() > 0 ==> match passo(old(self).tabela(), old(self).config()) {
                Passo::Segue(c) => r matches Ok(None) && final(self).config() == c,
                Passo::Para(c, m) => r matches Ok(Some(p)) && p@ == m && final(self).config() == c,
                Passo::Falha(f) => r matches Err(e) && e@ == f && final(self).pilha() == old(
                    self,
                ).pilha() && final(self).fila() == Seq::<Termo>::empty(),
            },
    {
        let ghost antes = self.pendentes@;
        let item = match self.pendentes.pop() {
            None => {
                return Ok(Some(Parada::Fim));
            },
            Some(item) => item,
        };
        assert(fila_de(antes) =~= seq![item@] + fila_de(self.pendentes@));
        let r = executar(&mut self.stack, &mut self.pendentes, &self.funcoes, item);
        if r.is_err() {
            self.pendentes.clear();
            assert(self.fila() =~= Seq::<Termo>::empty());
        }
        r
    }

    /// Executes pending items until nothing is pending, an item asks something of
    /// the driver, an item fails, or `passos` items were executed.
    pub fn continuar_por(&mut self, passos: usize) -> (r: Result<Parada, Erro>)
        ensures
            final(self).tabela() == old(self).tabela(),
            final(self).desfecho(r) == rodar(
                old(self).tabela(),
                old(self).config(),
                passos as nat,
            ),
    {
        let mut restantes: usize = passos;
        loop
            invariant
                self.tabela() == old(self).tabela(),
                rodar(old(self).tabela(), old(self).config(), passos as nat) == rodar(
                    self.tabela(),
                    self.config(),
                    restantes as nat,
                ),
            decreases restantes,
        {
            if self.pendentes.is_empty() {
                return Ok(Parada::Fim);
            }
            if restantes == 0 {
                return Ok(Parada::Pausa);
            }
            match self.avancar() {
                Ok(None) => {
                    restantes -= 1;
                },
                Ok(Some(parada)) => {
                    return Ok(parada);
                },
                Err(e) => {
                    return Err(e);
                },
            }
        }
    }

    /// Goes on with the current run for at most [`PASSOS_POR_RODADA`] items.
    pub fn continuar(&mut self) -> (r: Result<Parada, Erro>)
        ensures
            final(self).tabela() == old(self).tabela(),
            final(self).desfecho(r) == rodar(
                old(self).tabela(),
                old(self).config(),
                PASSOS_POR_RODADA as nat,
            ),
    {
        self.continuar_por(PASSOS_POR_RODADA)
    }

    /// Starts a run of the function `f`: what was pending is dropped, the body of
    /// `f` becomes the pending work, and the run goes on as [`PSFState::continuar`]
    /// does. An unknown name is an error that changes nothing.
    pub fn run_function(&mut self, f: &str) -> (r: Result<Parada, Erro>)
        ensures
            final(self).tabela() == old(self).tabela(),
            !old(self).tabela().contains_key(f@) ==> ver_saida(r) == Err::<Motivo, Falha>(
                Falha::FuncaoInexistente(f@),
            ) && final(self).config() == old(self).config(),
            old(self).tabela().contains_key(f@) ==> final(self).desfecho(r) == rodar(
                old(self).tabela(),
                config(old(self).pilha(), old(self).tabela()[f@]),
                PASSOS_POR_RODADA as nat,
            ),
    {
        let corpo = match self.funcoes.get(f) {
            Some(corpo) => clonar_corpo(corpo),
            None => {
                return Err(Erro::FuncaoInexistente(f.to_owned()));
            },
        };
        interpretar_func(self, corpo)
    }

    /// Reads `entrada` as one bare body and starts a run of it, as
    /// [`interpretar_func`] does. A text that is in error changes nothing.
    pub fn run_raw_string(&mut self, entrada: &str) -> (r: Result<Parada, Erro>)
        ensures
            final(self).tabela() == old(self).tabela(),
            match ast_do_texto(entrada@, true) {
                Ok(defs) => final(self).desfecho(r) == rodar(
                    old(self).tabela(),
                    config(old(self).pilha(), defs[0].1),
                    PASSOS_POR_RODADA as nat,
                ),
                Err(f) => ver_saida(r) == Err::<Motivo, Falha>(f) && final(self).config() == old(
                    self,
                ).config(),
            },
    {
        let mut itens = match tokenizar_e_gerar_ast(entrada, true) {
            Ok(itens) => itens,
            Err(e) => {
                return Err(e);
            },
        };
        assert(ver_programa(itens@).len() == 1);
        let (_, funcao) = itens.remove(0);
        interpretar_func(self, funcao)
    }

    /// Starts a run of the function `main`, as [`PSFState::run_function`] does.
    pub fn run_main(&mut self) -> (r: Result<Parada, Erro>)
        ensures
            final(self).tabela() == old(self).tabela(),
            !old(self).tabela().contains_key("main"@) ==> ver_saida(r) == Err::<Motivo, Falha>(
                Falha::FuncaoInexistente("main"@),
            ) && final(self).config() == old(self).config(),
            old(self).tabela().contains_key("main"@) ==> final(self).desfecho(r) == rodar(
                old(self).tabela(),
                config(old(self).pilha(), old(self).tabela()["main"@]),
                PASSOS_POR_RODADA as nat,
            ),
    {
        self.run_function("main")
    }
}

/// Starts a run of the body `func` against `estado`: what was pending is dropped,
/// the items of `func` become the pending work, and at most
/// [`PASSOS_POR_RODADA`] of them are executed. The run hands control back when
/// nothing is pending, when an item asks something of the driver, when an item
/// fails, or when the budget is spent; [`PSFState::continuar`] resumes it.
pub fn interpretar_func(estado: &mut PSFState, func: Vec<ASTItem>) -> (r: Result<Parada, Erro>)
    ensures
        final(estado).tabela() == old(estado).tabela(),
        final(estado).desfecho(r) == rodar(
            old(estado).tabela(),
            config(old(estado).pilha(), ver_corpo(func@)),
            PASSOS_POR_RODADA as nat,
        ),
{
    let mut func = func;
    estado.pendentes.clear();
    let ghost corpo = ver_corpo(func@);
    assert(fila_de(estado.pendentes@) =~= Seq::<Termo>::empty());
    while func.len() > 0
        invariant
            estado.tabela() == old(estado).tabela(),
            estado.pilha() == old(estado).pilha(),
            corpo == ver_corpo(func@) + fila_de(estado.pendentes@),
        decreases func.len(),
    {
        let ghost antes = ver_corpo(func@);
        let ghost fila = fila_de(estado.pendentes@);
        let item = func.pop().unwrap();
        estado.pendentes.push(item);
        assert(ver_corpo(func@) =~= antes.drop_last());
        assert(fila_de(estado.pendentes@) =~= seq![antes.last()] + fila);
        assert(antes =~= antes.drop_last() + seq![antes.last()]);
    }
    assert(corpo =~= estado.fila());
    estado.continuar()
}

} // verus!
