use vstd::prelude::*;
use vstd::std_specs::vec::axiom_vec_index_decreases;

verus! {

broadcast use axiom_vec_index_decreases;

/// A lexical unit of the source text.
#[derive(Debug, PartialEq, Eq)]
pub enum Token {
    Igual,
    ParenAbr,
    ParenFec,
    Interrogacao,
    Exclamacao,
    Mais,
    Menor,
    Maior,
    Numero(i32),
    Simbolo(String),
    String(String),
}

/// What a [`Token`] stands for: the same variants, with texts as character sequences.
pub enum Lexema {
    Igual,
    ParenAbr,
    ParenFec,
    Interrogacao,
    Exclamacao,
    Mais,
    Menor,
    Maior,
    Numero(i32),
    Simbolo(Seq<char>),
    Texto(Seq<char>),
}

impl View for Token {
    type V = Lexema;

    open spec fn view(&self) -> Lexema {
        match self {
            Token::Igual => Lexema::Igual,
            Token::ParenAbr => Lexema::ParenAbr,
            Token::ParenFec => Lexema::ParenFec,
            Token::Interrogacao => Lexema::Interrogacao,
            Token::Exclamacao => Lexema::Exclamacao,
            Token::Mais => Lexema::Mais,
            Token::Menor => Lexema::Menor,
            Token::Maior => Lexema::Maior,
            Token::Numero(n) => Lexema::Numero(*n),
            Token::Simbolo(s) => Lexema::Simbolo(s@),
            Token::String(s) => Lexema::Texto(s@),
        }
    }
}

/// The lexemes of a token sequence, in the same order.
pub open spec fn ver_tokens(tokens: Seq<Token>) -> Seq<Lexema> {
    Seq::new(tokens.len(), |i: int| tokens[i]@)
}

/// One item of a function body.
#[derive(Debug, PartialEq, Eq)]
pub enum ASTItem {
    Mais,
    Maior,
    Menor,
    Print,
    Input,
    Pop,
    Dup,
    Swap,
    SwapN,
    SSize,
    If,
    DebugS,
    True,
    False,
    Numero(i32),
    String(String),
    FuncDef(Vec<ASTItem>),
    FuncCallNamed(String),
    FuncCallTop,
}

/// What an [`ASTItem`] stands for. A function body is a `Seq<Termo>`.
pub enum Termo {
    Mais,
    Maior,
    Menor,
    Print,
    Input,
    Pop,
    Dup,
    Swap,
    SwapN,
    SSize,
    If,
    DebugS,
    True,
    False,
    Numero(i32),
    Texto(Seq<char>),
    FuncDef(Seq<Termo>),
    FuncCallNamed(Seq<char>),
    FuncCallTop,
}

impl View for ASTItem {
    type V = Termo;

    open spec fn view(&self) -> Termo
        decreases self,
    {
        match self {
            ASTItem::Mais => Termo::Mais,
            ASTItem::Maior => Termo::Maior,
            ASTItem::Menor => Termo::Menor,
            ASTItem::Print => Termo::Print,
            ASTItem::Input => Termo::Input,
            ASTItem::Pop => Termo::Pop,
            ASTItem::Dup => Termo::Dup,
            ASTItem::Swap => Termo::Swap,
            ASTItem::SwapN => Termo::SwapN,
            ASTItem::SSize => Termo::SSize,
            ASTItem::If => Termo::If,
            ASTItem::DebugS => Termo::DebugS,
            ASTItem::True => Termo::True,
            ASTItem::False => Termo::False,
            ASTItem::Numero(n) => Termo::Numero(*n),
            ASTItem::String(s) => Termo::Texto(s@),
            ASTItem::FuncDef(f) => Termo::FuncDef(ver_corpo(f@)),
            ASTItem::FuncCallNamed(nome) => Termo::FuncCallNamed(nome@),
            ASTItem::FuncCallTop => Termo::FuncCallTop,
        }
    }
}

/// The terms of a function body, in the same order.
pub open spec fn ver_corpo(corpo: Seq<ASTItem>) -> Seq<Termo>
    decreases corpo,
{
    Seq::new(
        corpo.len(),
        |i: int|
            if 0 <= i < corpo.len() {
                corpo[i]@
            } else {
                Termo::Mais
            },
    )
}

/// Copies a function body item by item.
pub fn clonar_corpo(corpo: &Vec<ASTItem>) -> (r: Vec<ASTItem>)
    ensures
        ver_corpo(r@) == ver_corpo(corpo@),
    decreases corpo,
{
    let mut r: Vec<ASTItem> = Vec::new();
    let mut i: usize = 0;
    while i < corpo.len()
        invariant
            i <= corpo.len(),
            r.len() == i,
            forall|j: int| 0 <= j < i ==> r@[j]@ == corpo@[j]@,
        decreases corpo.len() - i,
    {
        r.push(clonar_item(&corpo[i]));
        i += 1;
    }
    r
}

fn clonar_item(item: &ASTItem) -> (r: ASTItem)
    ensures
        r@ == item@,
    decreases item,
{
    match item {
        ASTItem::Mais => ASTItem::Mais,
        ASTItem::Maior => ASTItem::Maior,
        ASTItem::Menor => ASTItem::Menor,
        ASTItem::Print => ASTItem::Print,
        ASTItem::Input => ASTItem::Input,
        ASTItem::Pop => ASTItem::Pop,
        ASTItem::Dup => ASTItem::Dup,
        ASTItem::Swap => ASTItem::Swap,
        ASTItem::SwapN => ASTItem::SwapN,
        ASTItem::SSize => ASTItem::SSize,
        ASTItem::If => ASTItem::If,
        ASTItem::DebugS => ASTItem::DebugS,
        ASTItem::True => ASTItem::True,
        ASTItem::False => ASTItem::False,
        ASTItem::Numero(n) => ASTItem::Numero(*n),
        ASTItem::String(s) => ASTItem::String(s.clone()),
        ASTItem::FuncDef(f) => ASTItem::FuncDef(clonar_corpo(f)),
        ASTItem::FuncCallNamed(nome) => ASTItem::FuncCallNamed(nome.clone()),
        ASTItem::FuncCallTop => ASTItem::FuncCallTop,
    }
}

impl Clone for ASTItem {
    fn clone(&self) -> (r: ASTItem)
        ensures
            r@ == self@,
    {
        clonar_item(self)
    }
}

/// The definitions of a program as names with bodies, in the same order.
pub open spec fn ver_programa(ast: Seq<(String, Vec<ASTItem>)>) -> Seq<(Seq<char>, Seq<Termo>)> {
    Seq::new(ast.len(), |i: int| (ast[i].0@, ver_corpo(ast[i].1@)))
}

/// A value of the evaluation stack.
#[derive(Debug, PartialEq, Eq)]
pub enum Item {
    Bool(bool),
    Numero(i32),
    String(String),
    Func(Vec<ASTItem>),
}

/// What an [`Item`] stands for.
pub enum Valor {
    Bool(bool),
    Numero(i32),
    Texto(Seq<char>),
    Func(Seq<Termo>),
}

impl View for Item {
    type V = Valor;

    open spec fn view(&self) -> Valor {
        match self {
            Item::Bool(b) => Valor::Bool(*b),
            Item::Numero(n) => Valor::Numero(*n),
            Item::String(s) => Valor::Texto(s@),
            Item::Func(f) => Valor::Func(ver_corpo(f@)),
        }
    }
}

/// The values of a sequence of stack items, in the same order.
pub open spec fn ver_valores(itens: Seq<Item>) -> Seq<Valor> {
    Seq::new(itens.len(), |i: int| itens[i]@)
}

impl Clone for Item {
    fn clone(&self) -> (r: Item)
        ensures
            r@ == self@,
    {
        match self {
            Item::Bool(b) => Item::Bool(*b),
            Item::Numero(n) => Item::Numero(*n),
            Item::String(s) => Item::String(s.clone()),
            Item::Func(f) => Item::Func(clonar_corpo(f)),
        }
    }
}

} // verus!
