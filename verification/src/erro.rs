use vstd::prelude::*;

verus! {

/// A fatal condition met while lexing, parsing or evaluating. Each one ends the
/// current unit of work; the caller decides what to print and whether to go on.
#[derive(Debug, PartialEq, Eq)]
pub enum Erro {
    /// A character that starts no token.
    CaractereDesconhecido(char),
    /// A letter directly after the digits of a number.
    LetraAposNumero(char),
    /// A run of digits whose value does not fit a 32-bit signed integer.
    NumeroInvalido,
    /// The text ended inside a string literal.
    TextoNaoTerminado,
    /// An opening parenthesis with no quotation marker before it.
    ParentesesSemInterrogacao,
    /// An assignment sign inside a function body.
    IgualDentroDeFuncao,
    /// A definition that does not start with a name.
    FaltaNome,
    /// No assignment sign after the name of the given function.
    FaltaIgual(String),
    /// No opening parenthesis at the start of the given function.
    FaltaParenAbr(String),
    /// No closing parenthesis at the end of the given function.
    FaltaParenFec(String),
    /// The stack holds fewer values than the operation takes.
    PilhaInsuficiente,
    /// An operand is not of the kind the operation takes.
    TipoInvalido,
    /// A call of a name that the function table does not hold.
    FuncaoInexistente(String),
    /// `swapn` with a negative position.
    PosicaoNegativa(i32),
    /// `swapn` with a position that is not below the given stack size.
    PosicaoForaDaPilha(i32, usize),
    /// The stack would grow past its depth ceiling.
    PilhaMuitoGrande,
    /// A sum that does not fit a 32-bit signed integer.
    SomaForaDoIntervalo,
}

/// What an [`Erro`] stands for: the same variants, with names as character sequences.
pub enum Falha {
    CaractereDesconhecido(char),
    LetraAposNumero(char),
    NumeroInvalido,
    TextoNaoTerminado,
    ParentesesSemInterrogacao,
    IgualDentroDeFuncao,
    FaltaNome,
    FaltaIgual(Seq<char>),
    FaltaParenAbr(Seq<char>),
    FaltaParenFec(Seq<char>),
    PilhaInsuficiente,
    TipoInvalido,
    FuncaoInexistente(Seq<char>),
    PosicaoNegativa(i32),
    PosicaoForaDaPilha(i32, usize),
    PilhaMuitoGrande,
    SomaForaDoIntervalo,
}

impl View for Erro {
    type V = Falha;

    open spec fn view(&self) -> Falha {
        match self {
            Erro::CaractereDesconhecido(c) => Falha::CaractereDesconhecido(*c),
            Erro::LetraAposNumero(c) => Falha::LetraAposNumero(*c),
            Erro::NumeroInvalido => Falha::NumeroInvalido,
            Erro::TextoNaoTerminado => Falha::TextoNaoTerminado,
            Erro::ParentesesSemInterrogacao => Falha::ParentesesSemInterrogacao,
            Erro::IgualDentroDeFuncao => Falha::IgualDentroDeFuncao,
            Erro::FaltaNome => Falha::FaltaNome,
            Erro::FaltaIgual(nome) => Falha::FaltaIgual(nome@),
            Erro::FaltaParenAbr(nome) => Falha::FaltaParenAbr(nome@),
            Erro::FaltaParenFec(nome) => Falha::FaltaParenFec(nome@),
            Erro::PilhaInsuficiente => Falha::PilhaInsuficiente,
            Erro::TipoInvalido => Falha::TipoInvalido,
            Erro::FuncaoInexistente(nome) => Falha::FuncaoInexistente(nome@),
            Erro::PosicaoNegativa(pos) => Falha::PosicaoNegativa(*pos),
            Erro::PosicaoForaDaPilha(pos, tamanho) => Falha::PosicaoForaDaPilha(*pos, *tamanho),
            Erro::PilhaMuitoGrande => Falha::PilhaMuitoGrande,
            Erro::SomaForaDoIntervalo => Falha::SomaForaDoIntervalo,
        }
    }
}

} // verus!
