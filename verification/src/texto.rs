use vstd::prelude::*;

verus! {

/// Whether `c` has the Unicode property `Alphabetic`, as `char::is_alphabetic` decides it.
pub uninterp spec fn alfabetico(c: char) -> bool;

/// Whether `c` has the Unicode property `White_Space`, as `char::is_whitespace` decides it.
pub uninterp spec fn espaco(c: char) -> bool;

/// `char::is_alphabetic` depends on the character alone; its answer is what
/// [`alfabetico`] names. Nothing else is claimed about which characters are letters.
pub assume_specification[ char::is_alphabetic ](c: char) -> (b: bool)
    ensures
        b == alfabetico(c),
;

/// `char::is_whitespace` depends on the character alone; its answer is what
/// [`espaco`] names. Nothing else is claimed about which characters are white space.
pub assume_specification[ char::is_whitespace ](c: char) -> (b: bool)
    ensures
        b == espaco(c),
;

/// `String::push` appends one character at the end of the string and changes nothing else.
#[verifier::external_body]
pub(crate) fn acrescentar(s: &mut String, c: char)
    ensures
        final(s)@ == old(s)@.push(c),
{
    s.push(c)
}

/// `str`'s `==` compares two texts character by character: it holds exactly when
/// both have the same characters in the same order.
#[verifier::external_body]
pub(crate) fn mesmo_texto(a: &str, b: &str) -> (r: bool)
    ensures
        r == (a@ == b@),
{
    a == b
}

/// The ten decimal digits.
pub open spec fn digito(c: char) -> bool {
    '0' <= c <= '9'
}

/// Whether every character of `s` is a decimal digit.
pub open spec fn so_digitos(s: Seq<char>) -> bool {
    forall|i: int| 0 <= i < s.len() ==> digito(#[trigger] s[i])
}

/// The value of a decimal digit, and 0 for any other character.
pub open spec fn valor_digito(c: char) -> nat {
    if digito(c) {
        (c as int - '0' as int) as nat
    } else {
        0
    }
}

/// The digit that writes `d`, for `d` from 0 to 9.
pub open spec fn digito_de(d: nat) -> char {
    (d + '0' as nat) as char
}

/// The number that a run of decimal digits writes, most significant digit first.
pub open spec fn valor_decimal(s: Seq<char>) -> nat
    decreases s.len(),
{
    if s.len() == 0 {
        0
    } else {
        10 * valor_decimal(s.drop_last()) + valor_digito(s.last())
    }
}

/// The decimal digits of `n`, most significant first, without leading zeros.
pub open spec fn digitos(n: nat) -> Seq<char>
    decreases n,
{
    if n < 10 {
        seq![digito_de(n)]
    } else {
        digitos(n / 10).push(digito_de(n % 10))
    }
}

/// The printed form of an integer: its decimal digits, after a minus sign if it is negative.
pub open spec fn decimal(n: int) -> Seq<char> {
    if n < 0 {
        seq!['-'] + digitos((-n) as nat)
    } else {
        digitos(n as nat)
    }
}

/// Whether `c` is a decimal digit.
pub fn e_digito(c: char) -> (b: bool)
    ensures
        b == digito(c),
{
    '0' <= c && c <= '9'
}

/// A longer run of digits never writes a smaller number than one of its prefixes.
pub proof fn lema_prefixo_nao_excede(s: Seq<char>, k: int)
    requires
        0 <= k <= s.len(),
    ensures
        valor_decimal(s.take(k)) <= valor_decimal(s),
    decreases s.len() - k,
{
    if k < s.len() {
        lema_prefixo_nao_excede(s.drop_last(), k);
        assert(s.drop_last().take(k) =~= s.take(k));
    } else {
        assert(s.take(k) =~= s);
    }
}

/// Printing a natural number gives a non-empty run of digits that writes that number.
pub proof fn lema_digitos(n: nat)
    ensures
        digitos(n).len() >= 1,
        so_digitos(digitos(n)),
        valor_decimal(digitos(n)) == n,
    decreases n,
{
    if n < 10 {
        let s = digitos(n);
        assert(s.drop_last() =~= Seq::<char>::empty());
        assert(valor_decimal(s.drop_last()) == 0);
        assert(s.last() == digito_de(n));
    } else {
        lema_digitos(n / 10);
        let s = digitos(n);
        assert(s.drop_last() =~= digitos(n / 10));
        assert(s.last() == digito_de(n % 10));
        assert forall|i: int| 0 <= i < s.len() implies digito(#[trigger] s[i]) by {
            if i < s.len() - 1 {
                assert(s[i] == digitos(n / 10)[i]);
            }
        }
    }
}

/// What a text reads as: the number that it writes, if it is a non-empty run of
/// decimal digits whose value fits a 32-bit signed integer.
pub open spec fn inteiro_lido(s: Seq<char>) -> Option<i32> {
    if s.len() > 0 && so_digitos(s) && valor_decimal(s) <= i32::MAX {
        Some(valor_decimal(s) as i32)
    } else {
        None
    }
}

/// Reads a text as a 32-bit signed integer. Leading zeros are accepted; a sign,
/// a blank or any other character that is no digit is not.
pub fn ler_decimal(s: &str) -> (r: Option<i32>)
    ensures
        r == inteiro_lido(s@),
{
    let mut total: i64 = 0;
    let mut vazio = true;
    for c in it: s.chars()
        invariant
            it.seq() == s@,
            vazio == (it.index() == 0),
            so_digitos(s@.take(it.index() as int)),
            total == valor_decimal(s@.take(it.index() as int)),
            total <= i32::MAX,
    {
        let ghost k = it.index() as int;
        assert(s@.take(k + 1).drop_last() =~= s@.take(k));
        assert(s@.take(k + 1).last() == c);
        if !e_digito(c) {
            assert(!digito(s@[k]));
            return None;
        }
        assert forall|j: int| 0 <= j < k + 1 implies digito(#[trigger] s@.take(k + 1)[j]) by {
            if j < k {
                assert(s@.take(k + 1)[j] == s@.take(k)[j]);
            }
        }
        let d: i64 = (c as u32 - '0' as u32) as i64;
        total = total * 10 + d;
        vazio = false;
        if total > i32::MAX as i64 {
            proof {
                lema_prefixo_nao_excede(s@, k + 1);
            }
            return None;
        }
    }
    assert(s@.take(s@.len() as int) =~= s@);
    if vazio {
        None
    } else {
        Some(total as i32)
    }
}

fn caractere_de(d: u32) -> (c: char)
    requires
        d < 10,
    ensures
        c == digito_de(d as nat),
{
    match d {
        0 => '0',
        1 => '1',
        2 => '2',
        3 => '3',
        4 => '4',
        5 => '5',
        6 => '6',
        7 => '7',
        8 => '8',
        _ => '9',
    }
}

fn escrever_digitos(s: &mut String, n: u32)
    ensures
        final(s)@ == old(s)@ + digitos(n as nat),
    decreases n,
{
    if n >= 10 {
        escrever_digitos(s, n / 10);
    }
    acrescentar(s, caractere_de(n % 10));
    assert(final(s)@ =~= old(s)@ + digitos(n as nat));
}

/// The printed form of `n`.
pub fn texto_de_inteiro(n: i32) -> (s: String)
    ensures
        s@ == decimal(n as int),
{
    let mut s = String::new();
    let largo: i64 = n as i64;
    if largo < 0 {
        acrescentar(&mut s, '-');
        escrever_digitos(&mut s, (-largo) as u32);
    } else {
        escrever_digitos(&mut s, largo as u32);
    }
    assert(s@ =~= decimal(n as int));
    s
}

} // verus!
