//! Character-level helpers shared by the parsers and the formatters:
//! whitespace, trimming, decimal numbers, ASCII case and the conversions
//! between bytes, characters and strings.
use vstd::prelude::*;
use vstd::utf8::{valid_utf8, decode_utf8};

verus! {

broadcast use vstd::string::group_string_axioms;

/// The characters with the Unicode `White_Space` property, which are those
/// for which `char::is_whitespace` holds.
pub open spec fn es_blanco_spec(c: char) -> bool {
    let u = c as u32;
    ||| 0x09 <= u <= 0x0d
    ||| u == 0x20
    ||| u == 0x85
    ||| u == 0xa0
    ||| u == 0x1680
    ||| 0x2000 <= u <= 0x200a
    ||| u == 0x2028
    ||| u == 0x2029
    ||| u == 0x202f
    ||| u == 0x205f
    ||| u == 0x3000
}

/// `s` without its leading whitespace.
pub open spec fn sin_blancos_inicio(s: Seq<char>) -> Seq<char>
    decreases s.len(),
{
    if s.len() > 0 && es_blanco_spec(s[0]) {
        sin_blancos_inicio(s.drop_first())
    } else {
        s
    }
}

/// `s` without its trailing whitespace.
pub open spec fn sin_blancos_final(s: Seq<char>) -> Seq<char>
    decreases s.len(),
{
    if s.len() > 0 && es_blanco_spec(s.last()) {
        sin_blancos_final(s.drop_last())
    } else {
        s
    }
}

/// `s` without leading and trailing whitespace, as `str::trim` gives it.
pub open spec fn recortado(s: Seq<char>) -> Seq<char> {
    sin_blancos_final(sin_blancos_inicio(s))
}

/// The decimal digit for `d`, which is below ten.
pub open spec fn digito(d: nat) -> char {
    ((d % 10) as u8 + 48) as u8 as char
}

/// The decimal notation of `n`, without leading zeros.
pub open spec fn decimal(n: nat) -> Seq<char>
    decreases n,
{
    if n < 10 {
        seq![digito(n)]
    } else {
        decimal(n / 10).push(digito(n % 10))
    }
}

/// The ASCII lower case of `c`; any other character stays as it is.
pub open spec fn minuscula(c: char) -> char {
    if 'A' <= c <= 'Z' {
        ((c as u8) + 32) as u8 as char
    } else {
        c
    }
}

/// `s` with each ASCII upper case letter turned to lower case.
pub open spec fn minusculas(s: Seq<char>) -> Seq<char> {
    Seq::new(s.len(), |i: int| minuscula(s[i]))
}

/// The text that `String::from_utf8_lossy` makes of `bytes`: each invalid
/// UTF-8 sequence is replaced by U+FFFD.
pub uninterp spec fn texto_con_reemplazos(bytes: Seq<u8>) -> Seq<char>;

/// The text that `format!("{:?}", s)` makes of a string `s`: `s` in double
/// quotes, with its special characters escaped.
pub uninterp spec fn texto_debug(s: Seq<char>) -> Seq<char>;

/// The debug notation of a string, `format!("{:?}", s)`. How the characters
/// are escaped is only named, not stated.
#[verifier::external_body]
pub(crate) fn formato_debug(s: &str) -> (r: String)
    ensures
        r@ == texto_debug(s@),
{
    format!("{:?}", s)
}

/// Appends `c` to `s` (`String::push`).
#[verifier::external_body]
pub(crate) fn agregar_caracter(s: &mut String, c: char)
    ensures
        final(s)@ == old(s)@.push(c),
{
    s.push(c);
}

/// Reads `bytes` as UTF-8 text (`std::str::from_utf8`): the text when the
/// bytes are valid UTF-8, `None` otherwise.
#[verifier::external_body]
pub(crate) fn leer_utf8(bytes: &[u8]) -> (r: Option<&str>)
    ensures
        r is Some <==> valid_utf8(bytes@),
        r matches Some(s) ==> s@ == decode_utf8(bytes@),
{
    std::str::from_utf8(bytes).ok()
}

/// Reads `bytes` as UTF-8 text, replacing each invalid sequence by U+FFFD
/// (`String::from_utf8_lossy`). Valid UTF-8 comes back unchanged; what the
/// replacement gives on invalid input is only named, not stated.
#[verifier::external_body]
pub(crate) fn leer_utf8_con_reemplazos(bytes: &[u8]) -> (r: String)
    ensures
        r@ == texto_con_reemplazos(bytes@),
        valid_utf8(bytes@) ==> r@ == decode_utf8(bytes@),
{
    String::from_utf8_lossy(bytes).into_owned()
}

/// The characters of `s`, in order.
pub fn caracteres(s: &str) -> (v: Vec<char>)
    ensures
        v@ == s@,
{
    let mut v: Vec<char> = Vec::new();
    for c in it: s.chars()
        invariant
            v@ == it.seq().take(it.index()),
    {
        v.push(c);
        assert(it.seq().take(it.index() + 1) =~= v@);
    }
    v
}

/// The string made of the characters `v[desde..hasta]`.
pub fn texto_de(v: &Vec<char>, desde: usize, hasta: usize) -> (s: String)
    requires
        desde <= hasta <= v.len(),
    ensures
        s@ == v@.subrange(desde as int, hasta as int),
{
    let mut s = String::new();
    let mut i = desde;
    while i < hasta
        invariant
            desde <= i <= hasta <= v.len(),
            s@ == v@.subrange(desde as int, i as int),
        decreases hasta - i,
    {
        agregar_caracter(&mut s, v[i]);
        i = i + 1;
        assert(s@ =~= v@.subrange(desde as int, i as int));
    }
    s
}

/// Whether `c` is whitespace (`char::is_whitespace`).
pub fn es_blanco(c: char) -> (r: bool)
    ensures
        r == es_blanco_spec(c),
{
    let u = c as u32;
    (0x09 <= u && u <= 0x0d) || u == 0x20 || u == 0x85 || u == 0xa0 || u == 0x1680 || (0x2000
        <= u && u <= 0x200a) || u == 0x2028 || u == 0x2029 || u == 0x202f || u == 0x205f || u
        == 0x3000
}

proof fn lema_inicio_paso(s: Seq<char>, i: int)
    requires
        0 <= i < s.len(),
        es_blanco_spec(s[i]),
    ensures
        sin_blancos_inicio(s.subrange(i, s.len() as int)) == sin_blancos_inicio(
            s.subrange(i + 1, s.len() as int),
        ),
{
    assert(s.subrange(i, s.len() as int).drop_first() =~= s.subrange(i + 1, s.len() as int));
}

proof fn lema_final_paso(s: Seq<char>, j: int)
    requires
        0 < j <= s.len(),
        es_blanco_spec(s[j - 1]),
    ensures
        sin_blancos_final(s.subrange(0, j)) == sin_blancos_final(s.subrange(0, j - 1)),
{
    assert(s.subrange(0, j).drop_last() =~= s.subrange(0, j - 1));
}

/// The positions `(i, j)` such that `v[i..j]` is `v` trimmed.
pub fn limites_recortado(v: &Vec<char>) -> (r: (usize, usize))
    ensures
        r.0 <= r.1 <= v.len(),
        v@.subrange(r.0 as int, r.1 as int) == recortado(v@),
{
    let n = v.len();
    let mut i: usize = 0;
    assert(v@.subrange(0, n as int) =~= v@);
    while i < n && es_blanco(v[i])
        invariant
            i <= n == v.len(),
            sin_blancos_inicio(v@) == sin_blancos_inicio(v@.subrange(i as int, n as int)),
        decreases n - i,
    {
        proof {
            lema_inicio_paso(v@, i as int);
        }
        i = i + 1;
    }
    let ghost resto = v@.subrange(i as int, n as int);
    assert(sin_blancos_inicio(resto) == resto);
    let mut j: usize = n;
    assert(resto.subrange(0, (j - i) as int) =~= resto);
    while j > i && es_blanco(v[j - 1])
        invariant
            i <= j <= n == v.len(),
            resto == v@.subrange(i as int, n as int),
            sin_blancos_final(resto) == sin_blancos_final(resto.subrange(0, (j - i) as int)),
        decreases j - i,
    {
        proof {
            lema_final_paso(resto, (j - i) as int);
            assert(resto.subrange(0, (j - i - 1) as int) =~= resto.subrange(0, (j - i) as int).drop_last());
        }
        j = j - 1;
    }
    let ghost fin = resto.subrange(0, (j - i) as int);
    assert(sin_blancos_final(fin) == fin);
    assert(fin =~= v@.subrange(i as int, j as int));
    (i, j)
}

/// `s` without leading and trailing whitespace (`str::trim`).
pub fn recortar(s: &str) -> (r: String)
    ensures
        r@ == recortado(s@),
{
    let v = caracteres(s);
    let (i, j) = limites_recortado(&v);
    texto_de(&v, i, j)
}

/// The decimal notation of `n` (`usize::to_string`).
pub fn a_decimal(n: usize) -> (r: String)
    ensures
        r@ == decimal(n as nat),
{
    let mut x = n;
    let mut digitos: Vec<char> = Vec::new();
    digitos.push(((x % 10) as u8 + 48u8) as char);
    assert(digitos@ =~= seq![digito((x % 10) as nat)]);
    while x >= 10
        invariant
            decimal(n as nat) == (if x < 10 {
                Seq::<char>::empty()
            } else {
                decimal((x / 10) as nat)
            }) + digitos@,
        decreases x,
    {
        x = x / 10;
        digitos.insert(0, ((x % 10) as u8 + 48u8) as char);
        proof {
            let d = digito((x % 10) as nat);
            if x < 10 {
                assert(decimal(x as nat) == seq![d]);
            } else {
                assert(decimal(x as nat) == decimal((x / 10) as nat).push(d));
            }
        }
        assert(decimal(n as nat) =~= (if x < 10 {
            Seq::<char>::empty()
        } else {
            decimal((x / 10) as nat)
        }) + digitos@);
    }
    assert(digitos@ =~= decimal(n as nat));
    texto_de(&digitos, 0, digitos.len())
}

/// `s` with each ASCII upper case letter turned to lower case
/// (`str::to_ascii_lowercase`).
pub fn a_minusculas(s: &str) -> (r: String)
    ensures
        r@ == minusculas(s@),
{
    let v = caracteres(s);
    let mut r = String::new();
    let mut i: usize = 0;
    while i < v.len()
        invariant
            i <= v.len(),
            v@ == s@,
            r@ == minusculas(v@).take(i as int),
        decreases v.len() - i,
    {
        let c = v[i];
        let m = if 'A' <= c && c <= 'Z' {
            ((c as u8) + 32u8) as char
        } else {
            c
        };
        agregar_caracter(&mut r, m);
        i = i + 1;
        assert(r@ =~= minusculas(v@).take(i as int));
    }
    assert(minusculas(v@).take(i as int) =~= minusculas(v@));
    r
}

} // verus!

verus! {

/// Whether `a` and `b` are the same text.
pub fn mismo_texto(a: &str, b: &str) -> (r: bool)
    ensures
        r == (a@ == b@),
{
    let va = caracteres(a);
    let vb = caracteres(b);
    if va.len() != vb.len() {
        return false;
    }
    let mut i: usize = 0;
    while i < va.len()
        invariant
            i <= va.len() == vb.len(),
            va@ == a@,
            vb@ == b@,
            forall|j: int| 0 <= j < i ==> va@[j] == vb@[j],
        decreases va.len() - i,
    {
        if va[i] != vb[i] {
            return false;
        }
        i = i + 1;
    }
    assert(va@ =~= vb@);
    true
}

/// The views of a list of strings.
pub open spec fn vistas(v: Seq<String>) -> Seq<Seq<char>> {
    Seq::new(v.len(), |i: int| v[i]@)
}

} // verus!

verus! {

/// Whether the characters `v` start with the text `p`.
pub fn empieza_con(v: &Vec<char>, p: &str) -> (r: bool)
    ensures
        r == (p@.len() <= v@.len() && v@.take(p@.len() as int) == p@),
{
    let vp = caracteres(p);
    if vp.len() > v.len() {
        return false;
    }
    let mut i: usize = 0;
    while i < vp.len()
        invariant
            i <= vp.len() <= v.len(),
            vp@ == p@,
            forall|j: int| 0 <= j < i ==> v@[j] == vp@[j],
        decreases vp.len() - i,
    {
        if v[i] != vp[i] {
            assert(v@.take(vp.len() as int)[i as int] != p@[i as int]);
            return false;
        }
        i = i + 1;
    }
    assert(v@.take(vp.len() as int) =~= p@);
    true
}

} // verus!

verus! {

/// Every character of `d` is an ASCII digit.
pub open spec fn son_digitos(d: Seq<char>) -> bool {
    forall|i: int| 0 <= i < d.len() ==> '0' <= #[trigger] d[i] <= '9'
}

/// The number that the decimal digits `d` write.
pub open spec fn valor_digitos(d: Seq<char>) -> nat
    decreases d.len(),
{
    if d.len() == 0 {
        0
    } else {
        valor_digitos(d.drop_last()) * 10 + ((d.last() as u32) - 48) as nat
    }
}

/// The number that `s` writes, as `u64::from_str` reads it: an optional `+`,
/// then one or more decimal digits, with a value that fits in 64 bits.
pub open spec fn leer_u64_spec(s: Seq<char>) -> Option<u64> {
    let d = if s.len() > 0 && s[0] == '+' {
        s.drop_first()
    } else {
        s
    };
    if d.len() > 0 && son_digitos(d) && valor_digitos(d) <= u64::MAX {
        Some(valor_digitos(d) as u64)
    } else {
        None
    }
}

proof fn lema_valor_prefijo(d: Seq<char>, k: int)
    requires
        son_digitos(d),
        0 <= k <= d.len(),
    ensures
        valor_digitos(d.take(k)) <= valor_digitos(d),
    decreases d.len(),
{
    if k == d.len() {
        assert(d.take(k) =~= d);
    } else {
        let previo = d.drop_last();
        assert(son_digitos(previo)) by {
            assert forall|i: int| 0 <= i < previo.len() implies '0' <= #[trigger] previo[i] <= '9' by {
                assert(previo[i] == d[i]);
            }
        }
        lema_valor_prefijo(previo, k);
        assert(previo.take(k) =~= d.take(k));
    }
}

/// Reads a number as `u64::from_str` does; `None` for anything else.
pub fn leer_u64(s: &str) -> (r: Option<u64>)
    ensures
        r == leer_u64_spec(s@),
{
    let v = caracteres(s);
    let inicio: usize = if v.len() > 0 && v[0] == '+' {
        1
    } else {
        0
    };
    let ghost d = if s@.len() > 0 && s@[0] == '+' {
        s@.drop_first()
    } else {
        s@
    };
    assert(d =~= v@.skip(inicio as int));
    if inicio >= v.len() {
        assert(d.len() == 0);
        return None;
    }
    let mut acumulado: u64 = 0;
    let mut i: usize = inicio;
    assert(d.take(0) =~= Seq::<char>::empty());
    while i < v.len()
        invariant
            inicio <= i <= v.len(),
            v@ == s@,
            d == v@.skip(inicio as int),
            d == (if s@.len() > 0 && s@[0] == '+' {
                s@.drop_first()
            } else {
                s@
            }),
            son_digitos(d.take(i - inicio)),
            acumulado == valor_digitos(d.take(i - inicio)),
        decreases v.len() - i,
    {
        let c = v[i];
        let ghost k = i - inicio;
        assert(d[k as int] == c);
        if c < '0' || c > '9' {
            assert(!son_digitos(d));
            return None;
        }
        let digito = ((c as u32) - 48) as u64;
        assert(d.take(k + 1).drop_last() =~= d.take(k as int));
        assert(son_digitos(d.take(k + 1))) by {
            assert forall|j: int| 0 <= j < k + 1 implies '0' <= #[trigger] d.take(k + 1)[j] <= '9' by {
                if j < k {
                    assert(d.take(k + 1)[j] == d.take(k as int)[j]);
                }
            }
        }
        assert(valor_digitos(d.take(k + 1)) == valor_digitos(d.take(k as int)) * 10 + digito);
        match acumulado.checked_mul(10) {
            None => {
                assert(acumulado * 10 > u64::MAX);
                proof {
                    if son_digitos(d) {
                        lema_valor_prefijo(d, k + 1);
                        assert(valor_digitos(d) > u64::MAX);
                    }
                }
                return None;
            },
            Some(por_diez) => match por_diez.checked_add(digito) {
                None => {
                    proof {
                        if son_digitos(d) {
                            lema_valor_prefijo(d, k + 1);
                        }
                    }
                    return None;
                },
                Some(nuevo) => {
                    acumulado = nuevo;
                },
            },
        }
        i = i + 1;
    }
    assert(d.take(i - inicio) =~= d);
    Some(acumulado)
}

} // verus!
