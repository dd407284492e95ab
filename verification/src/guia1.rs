//! Hangman: the word shown so far, the reading of a guessed letter and one
//! turn of the game. The game ends when the word is guessed or when no
//! attempt is left; a letter that is not in the word costs an attempt.
use vstd::prelude::*;
use crate::minikv::texto::{agregar_caracter, caracteres, recortado, recortar};

verus! {

/// Whether `c` is in `v`.
fn contiene(v: &Vec<char>, c: char) -> (r: bool)
    ensures
        r == v@.contains(c),
{
    let mut i: usize = 0;
    while i < v.len()
        invariant
            i <= v.len(),
            forall|j: int| 0 <= j < i ==> v@[j] != c,
        decreases v.len() - i,
    {
        if v[i] == c {
            return true;
        }
        i = i + 1;
    }
    false
}

/// How one letter of the word is shown: itself once guessed, `_` before.
pub open spec fn simbolo(c: char, adivinadas: Seq<char>) -> char {
    if adivinadas.contains(c) {
        c
    } else {
        '_'
    }
}

/// The word as shown: one symbol per letter (the letter once guessed, `_`
/// before), separated by single spaces, as in `_ _ _ _ _ r`.
pub open spec fn palabra_mostrada(palabra: Seq<char>, adivinadas: Seq<char>) -> Seq<char>
    decreases palabra.len(),
{
    if palabra.len() == 0 {
        seq![]
    } else if palabra.len() == 1 {
        seq![simbolo(palabra[0], adivinadas)]
    } else {
        palabra_mostrada(palabra.drop_last(), adivinadas) + seq![' ', simbolo(palabra.last(), adivinadas)]
    }
}

/// What the word shows at each position: the display has one symbol per
/// letter of the word, at even positions, separated by spaces; the symbol
/// for the `i`-th letter is that letter when it is among those guessed,
/// wherever else it occurs, and `_` otherwise.
pub proof fn ley_palabra_mostrada(palabra: Seq<char>, adivinadas: Seq<char>)
    ensures
        palabra.len() == 0 ==> palabra_mostrada(palabra, adivinadas).len() == 0,
        palabra.len() > 0 ==> palabra_mostrada(palabra, adivinadas).len() == 2 * palabra.len() - 1,
        forall|i: int|
            0 <= i < palabra.len() ==> #[trigger] palabra_mostrada(palabra, adivinadas)[2 * i] == (if adivinadas.contains(
                palabra[i],
            ) {
                palabra[i]
            } else {
                '_'
            }),
        forall|i: int|
            0 <= i < palabra.len() - 1 ==> #[trigger] palabra_mostrada(palabra, adivinadas)[2 * i + 1] == ' ',
    decreases palabra.len(),
{
    if palabra.len() > 1 {
        let previa = palabra.drop_last();
        ley_palabra_mostrada(previa, adivinadas);
        let d = palabra_mostrada(palabra, adivinadas);
        let dp = palabra_mostrada(previa, adivinadas);
        assert forall|i: int| 0 <= i < palabra.len() implies #[trigger] d[2 * i] == (if adivinadas.contains(
            palabra[i],
        ) {
            palabra[i]
        } else {
            '_'
        }) by {
            if i < palabra.len() - 1 {
                assert(d[2 * i] == dp[2 * i]);
                assert(previa[i] == palabra[i]);
            } else {
                assert(d[2 * i] == simbolo(palabra.last(), adivinadas));
            }
        }
        assert forall|i: int| 0 <= i < palabra.len() - 1 implies #[trigger] d[2 * i + 1] == ' ' by {
            if i < palabra.len() - 2 {
                assert(d[2 * i + 1] == dp[2 * i + 1]);
            }
        }
    }
}

/// The word as shown: one symbol per letter (the letter once guessed, `_`
/// before), separated by single spaces.
pub fn mostrar_palabra(palabra: String, letras_adivinadas: Vec<char>) -> (r: String)
    ensures
        r@ == palabra_mostrada(palabra@, letras_adivinadas@),
{
    let v = caracteres(palabra.as_str());
    let mut resultado = String::new();
    let mut i: usize = 0;
    assert(v@.take(0) =~= Seq::<char>::empty());
    while i < v.len()
        invariant
            i <= v.len(),
            v@ == palabra@,
            resultado@ == palabra_mostrada(v@.take(i as int), letras_adivinadas@),
        decreases v.len() - i,
    {
        let letra = v[i];
        let ghost previo = resultado@;
        if i > 0 {
            agregar_caracter(&mut resultado, ' ');
        }
        if contiene(&letras_adivinadas, letra) {
            agregar_caracter(&mut resultado, letra);
        } else {
            agregar_caracter(&mut resultado, '_');
        }
        let ghost tomadas = v@.take(i + 1);
        assert(tomadas.drop_last() =~= v@.take(i as int));
        assert(tomadas.last() == letra);
        if i == 0 {
            assert(resultado@ =~= palabra_mostrada(tomadas, letras_adivinadas@));
        } else {
            assert(resultado@ =~= palabra_mostrada(tomadas, letras_adivinadas@));
        }
        i = i + 1;
    }
    assert(v@.take(i as int) =~= v@);
    resultado
}

/// An ASCII letter.
pub open spec fn es_letra_ascii(c: char) -> bool {
    ('a' <= c && c <= 'z') || ('A' <= c && c <= 'Z')
}

/// The letter that the player typed: the input without surrounding
/// whitespace must be a single letter (one ASCII letter); otherwise there
/// is none and the player is asked again.
pub fn validar_letra(entrada: &str) -> (r: Option<char>)
    ensures
        ({
            let t = recortado(entrada@);
            match r {
                Some(c) => t.len() == 1 && es_letra_ascii(t[0]) && c == t[0],
                None => !(t.len() == 1 && es_letra_ascii(t[0])),
            }
        }),
{
    let t = recortar(entrada);
    let v = caracteres(t.as_str());
    if v.len() == 1 && (('a' <= v[0] && v[0] <= 'z') || ('A' <= v[0] && v[0] <= 'Z')) {
        Some(v[0])
    } else {
        None
    }
}

/// One turn on the letters guessed and the attempts left: a letter of the
/// word joins those guessed, any other costs an attempt.
pub open spec fn turno(palabra: Seq<char>, adivinadas: Seq<char>, intentos: int, letra: char) -> (Seq<char>, int) {
    if palabra.contains(letra) {
        (adivinadas.push(letra), intentos)
    } else {
        (adivinadas, intentos - 1)
    }
}

/// The letters guessed and the attempts left after the letters `letras`,
/// one turn each.
pub open spec fn partida(palabra: Seq<char>, adivinadas: Seq<char>, intentos: int, letras: Seq<char>) -> (Seq<char>, int)
    decreases letras.len(),
{
    if letras.len() == 0 {
        (adivinadas, intentos)
    } else {
        let (a, i) = partida(palabra, adivinadas, intentos, letras.drop_last());
        turno(palabra, a, i, letras.last())
    }
}

/// The letters of `letras` that are in the word, in order.
pub open spec fn aciertos(palabra: Seq<char>, letras: Seq<char>) -> Seq<char>
    decreases letras.len(),
{
    if letras.len() == 0 {
        seq![]
    } else if palabra.contains(letras.last()) {
        aciertos(palabra, letras.drop_last()).push(letras.last())
    } else {
        aciertos(palabra, letras.drop_last())
    }
}

/// How many letters of `letras` are not in the word.
pub open spec fn fallos(palabra: Seq<char>, letras: Seq<char>) -> nat
    decreases letras.len(),
{
    if letras.len() == 0 {
        0
    } else if palabra.contains(letras.last()) {
        fallos(palabra, letras.drop_last())
    } else {
        fallos(palabra, letras.drop_last()) + 1
    }
}

/// Over a whole game, each letter not in the word costs exactly one
/// attempt and a letter in it costs none; the letters in the word are those
/// guessed, in the order played. So the game ends, by `terminado`, once the
/// misses have used up the attempts or every letter of the word is guessed.
pub proof fn ley_partida(palabra: Seq<char>, adivinadas: Seq<char>, intentos: int, letras: Seq<char>)
    ensures
        partida(palabra, adivinadas, intentos, letras) == (adivinadas + aciertos(palabra, letras), intentos
            - fallos(palabra, letras)),
    decreases letras.len(),
{
    if letras.len() == 0 {
        assert(adivinadas + Seq::<char>::empty() =~= adivinadas);
    } else {
        ley_partida(palabra, adivinadas, intentos, letras.drop_last());
        let previas = aciertos(palabra, letras.drop_last());
        assert((adivinadas + previas).push(letras.last()) =~= adivinadas + previas.push(letras.last()));
    }
}

/// A game of hangman.
pub struct Ahorcado {
    pub palabra: String,
    pub letras_adivinadas: Vec<char>,
    pub intentos_restantes: u32,
}

impl Ahorcado {
    /// A new game for `palabra` with `intentos` attempts.
    pub fn new(palabra: String, intentos: u32) -> (r: Self)
        ensures
            r.palabra == palabra,
            r.letras_adivinadas@ == Seq::<char>::empty(),
            r.intentos_restantes == intentos,
    {
        Ahorcado { palabra, letras_adivinadas: Vec::new(), intentos_restantes: intentos }
    }

    /// One turn: a letter of the word is added to those guessed; any other
    /// letter costs an attempt.
    pub fn jugar_letra(&mut self, letra: char)
        requires
            old(self).palabra@.contains(letra) || old(self).intentos_restantes > 0,
        ensures
            final(self).palabra == old(self).palabra,
            old(self).palabra@.contains(letra) ==> final(self).letras_adivinadas@ == old(self).letras_adivinadas@.push(letra)
                && final(self).intentos_restantes == old(self).intentos_restantes,
            !old(self).palabra@.contains(letra) ==> final(self).letras_adivinadas@ == old(self).letras_adivinadas@
                && final(self).intentos_restantes == old(self).intentos_restantes - 1,
            (final(self).letras_adivinadas@, final(self).intentos_restantes as int) == turno(
                old(self).palabra@,
                old(self).letras_adivinadas@,
                old(self).intentos_restantes as int,
                letra,
            ),
    {
        let v = caracteres(self.palabra.as_str());
        if contiene(&v, letra) {
            self.letras_adivinadas.push(letra);
        } else {
            self.intentos_restantes = self.intentos_restantes - 1;
        }
    }

    /// Whether the game is over: no attempt is left, or every letter of the
    /// word has been guessed.
    pub fn terminado(&self) -> (r: bool)
        ensures
            r == (self.intentos_restantes == 0 || forall|i: int|
                0 <= i < self.palabra@.len() ==> self.letras_adivinadas@.contains(#[trigger] self.palabra@[i])),
    {
        if self.intentos_restantes == 0 {
            return true;
        }
        let v = caracteres(self.palabra.as_str());
        let mut i: usize = 0;
        while i < v.len()
            invariant
                i <= v.len(),
                v@ == self.palabra@,
                self.intentos_restantes != 0,
                forall|j: int| 0 <= j < i ==> self.letras_adivinadas@.contains(#[trigger] self.palabra@[j]),
            decreases v.len() - i,
        {
            if !contiene(&self.letras_adivinadas, v[i]) {
                assert(!self.letras_adivinadas@.contains(self.palabra@[i as int]));
                return false;
            }
            i = i + 1;
        }
        true
    }
}

} // verus!
