//! Text handling shared by the producers and the registry: decoding,
//! pattern matching, trimming and splitting of raw messages.

use vstd::prelude::*;
use vstd::string::*;
use vstd::utf8::*;

verus! {

/// What a search with a pattern found in a text.
pub enum Busca {
    /// The pattern does not compile as a regular expression.
    PadraoInvalido,
    /// The pattern compiles and matches nowhere in the text.
    Nada,
    /// The leftmost match of the pattern in the text.
    Trecho(String),
}

/// What `Busca` stands for in contracts.
pub enum BuscaV {
    PadraoInvalido,
    Nada,
    Trecho(Seq<char>),
}

impl View for Busca {
    type V = BuscaV;

    open spec fn view(&self) -> BuscaV {
        match self {
            Busca::PadraoInvalido => BuscaV::PadraoInvalido,
            Busca::Nada => BuscaV::Nada,
            Busca::Trecho(s) => BuscaV::Trecho(s@),
        }
    }
}

/// Whether `padrao`, compiled as a regular expression, matches somewhere in
/// `texto`; `None` when `padrao` does not compile.
pub uninterp spec fn regex_casa(padrao: Seq<char>, texto: Seq<char>) -> Option<bool>;

/// The leftmost match of `padrao`, compiled as a regular expression, in
/// `texto`.
pub uninterp spec fn regex_trecho(padrao: Seq<char>, texto: Seq<char>) -> BuscaV;

/// Whether `c` has the Unicode property `White_Space`.
pub uninterp spec fn espaco(c: char) -> bool;

/// `regex::Regex::new` followed by `Regex::is_match`: both depend on the
/// pattern and the text alone, so the outcome is the named value.
#[verifier::external_body]
pub(crate) fn casa_padrao(padrao: &str, texto: &str) -> (r: Option<bool>)
    ensures
        r == regex_casa(padrao@, texto@),
{
    match regex::Regex::new(padrao) {
        Ok(re) => Some(re.is_match(texto)),
        Err(_) => None,
    }
}

/// `regex::Regex::new` followed by `Regex::find`: the text of the leftmost
/// match, which depends on the pattern and the text alone.
#[verifier::external_body]
pub(crate) fn achar_padrao(padrao: &str, texto: &str) -> (r: Busca)
    ensures
        r@ == regex_trecho(padrao@, texto@),
{
    match regex::Regex::new(padrao) {
        Ok(re) => match re.find(texto) {
            Some(m) => Busca::Trecho(m.as_str().to_owned()),
            None => Busca::Nada,
        },
        Err(_) => Busca::PadraoInvalido,
    }
}

/// `char::is_whitespace`: membership in the Unicode `White_Space` set.
#[verifier::external_body]
pub(crate) fn e_espaco(c: char) -> (r: bool)
    ensures
        r == espaco(c),
{
    c.is_whitespace()
}

/// `std::str::from_utf8`: succeeds exactly on well-formed UTF-8 and then
/// yields the text that the bytes encode.
#[verifier::external_body]
pub(crate) fn de_utf8(bytes: &[u8]) -> (r: Option<&str>)
    ensures
        r is Some <==> valid_utf8(bytes@),
        r is Some ==> r->0@ == decode_utf8(bytes@),
{
    match std::str::from_utf8(bytes) {
        Ok(s) => Some(s),
        Err(_) => None,
    }
}

/// The characters of a text, for indexing in constant time.
pub fn caracteres(s: &str) -> (v: Vec<char>)
    ensures
        v@ == s@,
{
    let mut v: Vec<char> = Vec::new();
    for c in it: s.chars()
        invariant
            it.seq() == s@,
            v@ == it.seq().take(it.index() as int),
    {
        v.push(c);
    }
    v
}

/// The views of a list of texts.
pub open spec fn textos(v: Seq<String>) -> Seq<Seq<char>> {
    Seq::new(v.len(), |i: int| v[i]@)
}

/// Whether two texts hold the same characters.
pub fn igual(a: &str, b: &str) -> (r: bool)
    ensures
        r == (a@ == b@),
{
    let x = a.to_owned();
    let y = b.to_owned();
    x == y
}

/// `s` without its leading white space.
pub open spec fn sem_espaco_inicial(s: Seq<char>) -> Seq<char>
    decreases s.len(),
{
    if s.len() > 0 && espaco(s[0]) {
        sem_espaco_inicial(s.drop_first())
    } else {
        s
    }
}

/// `s` without its trailing white space.
pub open spec fn sem_espaco_final(s: Seq<char>) -> Seq<char>
    decreases s.len(),
{
    if s.len() > 0 && espaco(s.last()) {
        sem_espaco_final(s.drop_last())
    } else {
        s
    }
}

/// `s` without leading and trailing white space.
pub open spec fn aparado(s: Seq<char>) -> Seq<char> {
    sem_espaco_final(sem_espaco_inicial(s))
}

/// Removes leading and trailing white space.
pub fn aparar(s: &str) -> (r: &str)
    ensures
        r@ == aparado(s@),
{
    let cs = caracteres(s);
    let n = cs.len();
    let mut i: usize = 0;
    assert(cs@.skip(0) =~= cs@);
    while i < n && e_espaco(cs[i])
        invariant
            i <= n,
            n == cs@.len(),
            sem_espaco_inicial(cs@) == sem_espaco_inicial(cs@.skip(i as int)),
        decreases n - i,
    {
        assert(cs@.skip(i as int).drop_first() =~= cs@.skip(i + 1));
        i = i + 1;
    }
    assert(sem_espaco_inicial(cs@) == cs@.skip(i as int));
    let mut j: usize = n;
    assert(cs@.skip(i as int) =~= cs@.subrange(i as int, j as int));
    while j > i && e_espaco(cs[j - 1])
        invariant
            i <= j <= n,
            n == cs@.len(),
            sem_espaco_final(cs@.skip(i as int)) == sem_espaco_final(
                cs@.subrange(i as int, j as int),
            ),
        decreases j - i,
    {
        assert(cs@.subrange(i as int, j as int).drop_last() =~= cs@.subrange(
            i as int,
            j - 1,
        ));
        j = j - 1;
    }
    s.substring_char(i, j)
}

/// The fields of `s`: the runs between separators, in order. A text with
/// `k` separators has `k + 1` fields, some of which may be empty.
pub open spec fn campos_de(s: Seq<char>, sep: char) -> Seq<Seq<char>>
    decreases s.len(),
{
    if s.len() == 0 {
        seq![Seq::<char>::empty()]
    } else {
        let antes = campos_de(s.drop_last(), sep);
        if s.last() == sep {
            antes.push(Seq::<char>::empty())
        } else {
            antes.drop_last().push(antes.last().push(s.last()))
        }
    }
}

/// A text always has at least one field.
pub proof fn lema_campos_nao_vazio(s: Seq<char>, sep: char)
    ensures
        campos_de(s, sep).len() >= 1,
    decreases s.len(),
{
    if s.len() > 0 {
        lema_campos_nao_vazio(s.drop_last(), sep);
    }
}

/// Splits a text at every occurrence of the separator.
pub fn separar(s: &str, sep: char) -> (v: Vec<String>)
    ensures
        textos(v@) == campos_de(s@, sep),
{
    let cs = caracteres(s);
    let n = cs.len();
    let mut v: Vec<String> = Vec::new();
    let mut inicio: usize = 0;
    let mut i: usize = 0;
    assert(cs@.take(0) =~= Seq::<char>::empty());
    assert(textos(v@).push(cs@.subrange(0, 0)) =~= seq![Seq::<char>::empty()]);
    while i < n
        invariant
            inicio <= i <= n,
            n == cs@.len(),
            cs@ == s@,
            campos_de(cs@.take(i as int), sep) == textos(v@).push(
                cs@.subrange(inicio as int, i as int),
            ),
        decreases n - i,
    {
        let ghost antes = textos(v@);
        assert(cs@.take(i + 1).drop_last() =~= cs@.take(i as int));
        if cs[i] == sep {
            let campo = s.substring_char(inicio, i).to_owned();
            v.push(campo);
            assert(textos(v@) =~= antes.push(cs@.subrange(inicio as int, i as int)));
            inicio = i + 1;
            assert(cs@.subrange(inicio as int, i + 1) =~= Seq::<char>::empty());
        } else {
            assert(antes.push(cs@.subrange(inicio as int, i as int)).drop_last() =~= antes);
            assert(cs@.subrange(inicio as int, i as int).push(cs@[i as int]) =~= cs@.subrange(
                inicio as int,
                i + 1,
            ));
        }
        i = i + 1;
    }
    assert(cs@.take(n as int) =~= cs@);
    let ghost antes = textos(v@);
    let campo = s.substring_char(inicio, n).to_owned();
    v.push(campo);
    assert(textos(v@) =~= antes.push(cs@.subrange(inicio as int, n as int)));
    v
}

/// Whether `c` is one of the ten ASCII digits.
pub open spec fn digito(c: char) -> bool {
    0x30 <= c as u32 <= 0x39
}

/// Whether `s` is a non-empty run of ASCII digits.
pub open spec fn so_digitos(s: Seq<char>) -> bool {
    s.len() > 0 && forall|i: int| 0 <= i < s.len() ==> digito(#[trigger] s[i])
}

/// `s` without its leading minus sign, if it has one.
pub open spec fn sem_sinal(s: Seq<char>) -> Seq<char> {
    if s.len() > 0 && s[0] == '-' {
        s.drop_first()
    } else {
        s
    }
}

/// Whether `s` is a plain decimal numeral: an optional minus sign, one or
/// more ASCII digits and, optionally, a point followed by one or more ASCII
/// digits.
pub open spec fn e_decimal(s: Seq<char>) -> bool {
    let corpo = sem_sinal(s);
    exists|k: int|
        0 < k <= corpo.len() && so_digitos(#[trigger] corpo.take(k)) && (k == corpo.len() || (
        corpo[k] == '.' && so_digitos(corpo.skip(k + 1))))
}

/// Tells whether a character is an ASCII digit.
pub fn e_digito(c: char) -> (r: bool)
    ensures
        r == digito(c),
{
    let u: u32 = c as u32;
    0x30 <= u && u <= 0x39
}

/// Tells whether a text is a plain decimal numeral.
pub fn decimal(s: &str) -> (r: bool)
    ensures
        r == e_decimal(s@),
{
    let cs = caracteres(s);
    let n = cs.len();
    let ini: usize = if n > 0 && cs[0] == '-' {
        1
    } else {
        0
    };
    let ghost corpo = sem_sinal(cs@);
    assert(corpo =~= cs@.skip(ini as int));
    let mut i: usize = ini;
    while i < n && e_digito(cs[i])
        invariant
            ini <= i <= n,
            n == cs@.len(),
            forall|j: int| ini <= j < i ==> digito(#[trigger] cs@[j]),
        decreases n - i,
    {
        i = i + 1;
    }
    let ghost k = i - ini;
    // Any split point of a decimal numeral is where the leading digits end.
    assert forall|q: int|
        0 < q <= corpo.len() && so_digitos(#[trigger] corpo.take(q)) && (q == corpo.len() || (
        corpo[q] == '.' && so_digitos(corpo.skip(q + 1)))) implies q == k by {
        if q > k {
            assert(corpo.take(q)[k] == corpo[k]);
        }
        if q < k {
            assert(digito(cs@[ini + q]));
        }
    }
    if i == ini {
        return false;
    }
    assert(so_digitos(corpo.take(k))) by {
        assert forall|j: int| 0 <= j < k implies digito(#[trigger] corpo.take(k)[j]) by {
            assert(digito(cs@[ini + j]));
        }
    }
    if i == n {
        return true;
    }
    if cs[i] != '.' {
        return false;
    }
    let f: usize = i + 1;
    let mut j: usize = f;
    while j < n && e_digito(cs[j])
        invariant
            f <= j <= n,
            n == cs@.len(),
            forall|m: int| f <= m < j ==> digito(#[trigger] cs@[m]),
        decreases n - j,
    {
        j = j + 1;
    }
    let ghost resto = corpo.skip(k + 1);
    assert(resto =~= cs@.skip(f as int));
    if j == n && j > f {
        assert(so_digitos(resto));
        true
    } else {
        if j < n {
            assert(!digito(resto[j - f]));
        }
        false
    }
}

} // verus!
