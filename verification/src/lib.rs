pub mod aninhamento;
pub mod erro;
pub mod estado;
pub mod leis;
pub mod lexico;
pub mod modelo;
pub mod pilha;
pub mod semantica;
pub mod sintaxe;
pub mod texto;

pub use erro::Erro;
pub use estado::{interpretar_func, PSFState, Parada, PASSOS_POR_RODADA};
pub use lexico::tokenizar;
pub use modelo::{clonar_corpo, ASTItem, Item, Token};
pub use pilha::Stack;
pub use semantica::LIMITE_PILHA;
pub use sintaxe::{gerar_ast, gerar_ast_funcao, tokenizar_e_gerar_ast};
pub use texto::{e_digito, ler_decimal, texto_de_inteiro};
