use crate::modelo::Lexema;
use crate::sintaxe::{corpo_analisado, corpo_de, Analise};
use vstd::prelude::*;

verus! {

/// What a token adds to the depth of nesting.
pub open spec fn degrau(l: Lexema) -> int {
    match l {
        Lexema::ParenAbr => 1,
        Lexema::ParenFec => -1,
        _ => 0,
    }
}

/// How many more parentheses open than close among the tokens from `i` up to `j`.
pub open spec fn nivel(t: Seq<Lexema>, i: int, j: int) -> int
    decreases j - i,
{
    if j <= i {
        0
    } else {
        nivel(t, i, j - 1) + degrau(t[j - 1])
    }
}

/// Whether an opening parenthesis stands at `k`.
pub open spec fn abre(t: Seq<Lexema>, k: int) -> bool {
    t[k] == Lexema::ParenAbr
}

/// Whether a quotation marker stands right before `k`.
pub open spec fn marcado(t: Seq<Lexema>, k: int) -> bool {
    t[k - 1] == Lexema::Interrogacao
}

/// Whether the tokens from `i` up to `j` are a well-formed body: every opening
/// parenthesis stands right after a quotation marker and has its closing
/// parenthesis, no closing parenthesis comes before its opening one, and there is
/// no assignment sign.
pub open spec fn bem_formado(t: Seq<Lexema>, i: int, j: int) -> bool {
    &&& 0 <= i <= j <= t.len()
    &&& nivel(t, i, j) == 0
    &&& forall|k: int| i <= k <= j ==> nivel(t, i, k) >= 0
    &&& forall|k: int| i <= k < j ==> t[k] != Lexema::Igual
    &&& forall|k: int| i <= k < j && #[trigger] abre(t, k) ==> i < k && marcado(t, k)
}

/// The depth over a stretch is the sum of the depths over its two parts.
proof fn lema_nivel_soma(t: Seq<Lexema>, i: int, m: int, j: int)
    requires
        i <= m <= j,
    ensures
        nivel(t, i, j) == nivel(t, i, m) + nivel(t, m, j),
    decreases j - m,
{
    if m < j {
        lema_nivel_soma(t, i, m, j - 1);
    }
}

/// What the induction needs of the stretch from `i` up to `j`, read with `marca`.
spec fn aninhado(t: Seq<Lexema>, i: int, j: int, marca: bool) -> bool {
    &&& 0 <= i <= j <= t.len()
    &&& nivel(t, i, j) == 0
    &&& forall|k: int| i <= k <= j ==> nivel(t, i, k) >= 0
    &&& forall|k: int| i <= k < j ==> t[k] != Lexema::Igual
    &&& forall|k: int|
        i <= k < j && #[trigger] abre(t, k) ==> if k == i {
            marca
        } else {
            marcado(t, k)
        }
    &&& j < t.len() ==> t[j] == Lexema::ParenFec
}

/// The parenthesis that closes the one at `i`: the first position from `k` on
/// where the depth counted from `i` comes back to zero.
proof fn achar_fecho(t: Seq<Lexema>, i: int, j: int, k: int) -> (m: int)
    requires
        0 <= i < k <= j <= t.len(),
        nivel(t, i, j) == 0,
        forall|x: int| i < x <= k ==> nivel(t, i, x) >= 1,
    ensures
        k <= m < j,
        t[m] == Lexema::ParenFec,
        nivel(t, i, m + 1) == 0,
        forall|x: int| i < x <= m ==> nivel(t, i, x) >= 1,
    decreases j - k,
{
    assert(nivel(t, i, k) >= 1);
    assert(nivel(t, i, k + 1) == nivel(t, i, k) + degrau(t[k]));
    if nivel(t, i, k + 1) == 0 {
        k
    } else {
        assert forall|x: int| i < x <= k + 1 implies nivel(t, i, x) >= 1 by {
            if x <= k {
                assert(nivel(t, i, x) >= 1);
            }
        }
        achar_fecho(t, i, j, k + 1)
    }
}

proof fn lema_aninhado(t: Seq<Lexema>, i: int, j: int, marca: bool)
    requires
        aninhado(t, i, j, marca),
    ensures
        match corpo_de(t, i, marca) {
            Analise::Fecha { pos, .. } => j < t.len() && pos == j,
            Analise::Acaba { .. } => j == t.len(),
            _ => false,
        },
    decreases j - i,
{
    if i < j {
        let i1 = i + 1;
        assert(nivel(t, i, i) == 0);
        assert(nivel(t, i, i1) == degrau(t[i]));
        assert(nivel(t, i, i1) >= 0);
        assert forall|k: int| i1 <= k <= j implies #[trigger] nivel(t, i1, k) == nivel(t, i, k) - degrau(
            t[i],
        ) by {
            lema_nivel_soma(t, i, i1, k);
        }
        match t[i] {
            Lexema::ParenFec => {},
            Lexema::Igual => {},
            Lexema::Interrogacao => {
                assert(aninhado(t, i1, j, true)) by {
                    assert forall|k: int| i1 <= k <= j implies #[trigger] nivel(t, i1, k) >= 0 by {
                        assert(nivel(t, i, k) >= 0);
                    }
                }
                lema_aninhado(t, i1, j, true);
            },
            Lexema::ParenAbr => {
                assert(abre(t, i));
                assert(marca);
                let m = achar_fecho(t, i, j, i1);
                let m1 = m + 1;
                assert(aninhado(t, i1, m, false)) by {
                    lema_nivel_soma(t, i, m, m1);
                    assert(nivel(t, m, m1) == nivel(t, m, m) + degrau(t[m]));
                    assert forall|k: int| i1 <= k <= m implies #[trigger] nivel(t, i1, k) >= 0 by {
                        assert(nivel(t, i, k) >= 1);
                    }
                }
                lema_aninhado(t, i1, m, false);
                let dentro = corpo_de(t, i1, false);
                assert(dentro is Fecha);
                let m2 = dentro->Fecha_marca;
                assert(aninhado(t, m1, j, m2)) by {
                    assert forall|k: int| m1 <= k <= j implies #[trigger] nivel(t, m1, k) >= 0 by {
                        lema_nivel_soma(t, i, m1, k);
                        assert(nivel(t, i, k) >= 0);
                    }
                    lema_nivel_soma(t, i, m1, j);
                }
                lema_aninhado(t, m1, j, m2);
            },
            _ => {
                assert(aninhado(t, i1, j, marca)) by {
                    assert forall|k: int| i1 <= k <= j implies #[trigger] nivel(t, i1, k) >= 0 by {
                        assert(nivel(t, i, k) >= 0);
                    }
                }
                lema_aninhado(t, i1, j, marca);
            },
        }
    }
}

/// Balanced quotations: where the tokens from `i` up to `j` are a well-formed
/// body and a closing parenthesis stands at `j`, or the tokens end there, reading
/// a body from `i` succeeds, takes exactly those tokens, and leaves the cursor at `j`.
pub proof fn lei_quotacoes_equilibradas(t: Seq<Lexema>, i: int, j: int)
    requires
        bem_formado(t, i, j),
        j < t.len() ==> t[j] == Lexema::ParenFec,
    ensures
        corpo_analisado(t, i) matches Ok((_, pos)) && pos == j,
{
    assert(aninhado(t, i, j, false));
    lema_aninhado(t, i, j, false);
}

} // verus!
