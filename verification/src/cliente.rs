//! The client's logic: reading the user's command from its input, and
//! reading the server's answers.
use vstd::prelude::*;
use vstd::utf8::{valid_utf8, decode_utf8, is_char_boundary, is_leading_byte_width_1, is_continuation_byte,
    length_of_first_scalar, pop_first_scalar, valid_first_scalar, is_char_boundary_iff_not_is_continuation_byte,
    valid_utf8_split};
use crate::minikv::comunicacion::{ResultadoComunicacion, ResultadoVista};
use crate::minikv::errores::KvErrores;
use crate::minikv::parseo::no_vacias;
use crate::minikv::texto::{caracteres, empieza_con, leer_u64, leer_u64_spec, leer_utf8, leer_utf8_con_reemplazos,
    recortado, recortar, texto_con_reemplazos, texto_de};

verus! {

/// The first line of `b`, with its line break: the bytes up to and
/// including the first `\n`, or all of them when there is none.
pub open spec fn primera_linea(b: Seq<u8>) -> Seq<u8>
    decreases b.len(),
{
    if b.len() == 0 {
        b
    } else if b[0] == 10 {
        seq![b[0]]
    } else {
        seq![b[0]] + primera_linea(b.drop_first())
    }
}

proof fn lema_primera_linea(b: Seq<u8>, i: int)
    requires
        0 <= i <= b.len(),
        forall|j: int| 0 <= j < i ==> b[j] != 10,
    ensures
        i < b.len() && b[i] == 10 ==> primera_linea(b) == b.take(i + 1),
        i == b.len() ==> primera_linea(b) == b,
    decreases i,
{
    if i > 0 {
        let resto = b.drop_first();
        assert forall|j: int| 0 <= j < i - 1 implies resto[j] != 10 by {
            assert(resto[j] == b[j + 1]);
        }
        lema_primera_linea(resto, i - 1);
        assert(b[0] != 10);
        if i < b.len() && b[i] == 10 {
            assert(resto[i - 1] == b[i]);
            assert(seq![b[0]] + resto.take(i) =~= b.take(i + 1));
        }
        if i == b.len() {
            assert(seq![b[0]] + resto =~= b);
        }
    } else {
        if b.len() > 0 && b[0] == 10 {
            assert(seq![b[0]] =~= b.take(1));
        }
        if b.len() == 0 {
            assert(primera_linea(b) == b);
        }
    }
}

/// In valid UTF-8, a one-byte character that starts at a character
/// boundary is followed by another boundary.
proof fn lema_frontera_tras_ascii(b: Seq<u8>, i: int)
    requires
        valid_utf8(b),
        0 <= i < b.len(),
        is_char_boundary(b, i),
        is_leading_byte_width_1(b[i]),
    ensures
        is_char_boundary(b, i + 1),
    decreases b.len(),
{
    let largo = length_of_first_scalar(b);
    let resto = pop_first_scalar(b);
    assert(valid_first_scalar(b) && valid_utf8(resto));
    if i == 0 {
        assert(largo == 1);
        assert(is_char_boundary(resto, 0));
    } else {
        assert(is_char_boundary(resto, i - largo));
        assert(i - largo >= 0);
        assert(resto[i - largo] == b[i]);
        lema_frontera_tras_ascii(resto, i - largo);
    }
}

/// The position of the first line break at or after `i`, or the end.
proof fn primer_salto(b: Seq<u8>, i: int) -> (k: int)
    requires
        0 <= i <= b.len(),
        forall|j: int| 0 <= j < i ==> b[j] != 10,
    ensures
        i <= k <= b.len(),
        forall|j: int| 0 <= j < k ==> b[j] != 10,
        k < b.len() ==> b[k] == 10,
    decreases b.len() - i,
{
    if i == b.len() || b[i] == 10 {
        i
    } else {
        primer_salto(b, i + 1)
    }
}

/// The first line of valid UTF-8 input is valid UTF-8 itself.
pub proof fn ley_primera_linea_valida(b: Seq<u8>)
    requires
        valid_utf8(b),
    ensures
        valid_utf8(primera_linea(b)),
{
    let k = primer_salto(b, 0);
    lema_primera_linea(b, k);
    if k < b.len() {
        is_char_boundary_iff_not_is_continuation_byte(b, k);
        assert(!is_continuation_byte(b[k]));
        lema_frontera_tras_ascii(b, k);
        valid_utf8_split(b, k + 1);
        assert(b.subrange(0, k + 1) =~= b.take(k + 1));
    }
}

/// Reads the user's command from the bytes waiting in its input: the first
/// line, without surrounding whitespace.
/// # Errors
/// * `EOF` when there is nothing to read
/// * `EMPTY` when the line is blank
/// * `Error("LECTURA FALLIDA")` when the line is not UTF-8 text
pub fn obtener_entrada(entrada: &[u8]) -> (r: Result<String, KvErrores>)
    ensures
        ({
            let l = primera_linea(entrada@);
            match r {
                Ok(s) => l.len() > 0 && valid_utf8(l) && recortado(decode_utf8(l)).len() > 0 && s@
                    == recortado(decode_utf8(l)),
                Err(KvErrores::EOF) => l.len() == 0,
                Err(KvErrores::EMPTY) => l.len() > 0 && valid_utf8(l) && recortado(decode_utf8(l)).len()
                    == 0,
                Err(KvErrores::Error(m)) => l.len() > 0 && !valid_utf8(l) && m@ == "LECTURA FALLIDA"@,
                Err(_) => false,
            }
        }),
        valid_utf8(entrada@) ==> valid_utf8(primera_linea(entrada@)),
{
    proof {
        if valid_utf8(entrada@) {
            ley_primera_linea_valida(entrada@);
        }
    }
    let mut i: usize = 0;
    while i < entrada.len() && entrada[i] != 10
        invariant
            i <= entrada.len(),
            forall|j: int| 0 <= j < i ==> entrada@[j] != 10,
        decreases entrada.len() - i,
    {
        i = i + 1;
    }
    proof {
        lema_primera_linea(entrada@, i as int);
    }
    let fin = if i < entrada.len() {
        i + 1
    } else {
        i
    };
    if fin == 0 {
        return Err(KvErrores::EOF);
    }
    let linea = vstd::slice::slice_subrange(entrada, 0, fin);
    assert(linea@ =~= primera_linea(entrada@));
    match leer_utf8(linea) {
        None => Err(KvErrores::Error(String::from_str("LECTURA FALLIDA"))),
        Some(texto) => {
            let recortada = recortar(texto);
            if recortada.as_str().is_empty() {
                Err(KvErrores::EMPTY)
            } else {
                Ok(recortada)
            }
        },
    }
}

/// What the client makes of the server's answer: `ERR_REC: <m>` is a
/// recoverable error and the client goes on, `ERR_NO_REC: <m>` is not and
/// the client stops (both shown as `ERROR: <m>`), anything else is an
/// answer, shown without surrounding whitespace.
pub open spec fn traducir_spec(r: Seq<char>) -> ResultadoVista {
    let rec = "ERR_REC:"@;
    let no_rec = "ERR_NO_REC:"@;
    if rec.len() <= r.len() && r.take(rec.len() as int) == rec {
        ResultadoVista::Continuar("ERROR: <"@ + recortado(r.skip(rec.len() as int)) + ">"@)
    } else if no_rec.len() <= r.len() && r.take(no_rec.len() as int) == no_rec {
        ResultadoVista::Cerrar("ERROR: <"@ + recortado(r.skip(no_rec.len() as int)) + ">"@)
    } else {
        ResultadoVista::Continuar(recortado(r))
    }
}

/// The server's answer as bytes, read as text (invalid UTF-8 replaced) and
/// then as `traducir_texto` reads it.
pub fn traducir_respuesta(buffer: &[u8]) -> (r: ResultadoComunicacion)
    ensures
        r@ == traducir_spec(texto_con_reemplazos(buffer@)),
        valid_utf8(buffer@) ==> r@ == traducir_spec(decode_utf8(buffer@)),
{
    let respuesta = leer_utf8_con_reemplazos(buffer);
    traducir_texto(respuesta.as_str())
}

/// What the client makes of the server's answer, once read as text.
pub fn traducir_texto(respuesta: &str) -> (r: ResultadoComunicacion)
    ensures
        r@ == traducir_spec(respuesta@),
{
    let v = caracteres(respuesta);
    let largo_rec: usize = 8;
    let largo_no_rec: usize = 11;
    proof {
        reveal_strlit("ERR_REC:");
        reveal_strlit("ERR_NO_REC:");
    }
    if empieza_con(&v, "ERR_REC:") {
        let resto = texto_de(&v, largo_rec, v.len());
        assert(resto@ =~= respuesta@.skip(8));
        let mut s = String::from_str("ERROR: <");
        let limpio = recortar(resto.as_str());
        s.append(limpio.as_str());
        s.append(">");
        ResultadoComunicacion::Continuar(s)
    } else if empieza_con(&v, "ERR_NO_REC:") {
        let resto = texto_de(&v, largo_no_rec, v.len());
        assert(resto@ =~= respuesta@.skip(11));
        let mut s = String::from_str("ERROR: <");
        let limpio = recortar(resto.as_str());
        s.append(limpio.as_str());
        s.append(">");
        ResultadoComunicacion::Cerrar(s)
    } else {
        ResultadoComunicacion::Continuar(recortar(respuesta))
    }
}

/// Seconds the client waits for an answer when `TIMEOUT` gives none.
pub const TIMEOUT_POR_DEFECTO: u64 = 10;

/// The seconds to wait for an answer, from the value of the environment
/// variable `TIMEOUT` (`None` when it is not set).
/// # Errors
/// * `Error("MISSING TIMEOUT")` when the variable is not set
/// * `Error("TIMEOUT INVALIDO")` when it is not a number of seconds
pub fn obtener_timeout(valor: Option<String>) -> (r: Result<u64, KvErrores>)
    ensures
        match valor {
            None => r matches Err(KvErrores::Error(m)) && m@ == "MISSING TIMEOUT"@,
            Some(t) => match leer_u64_spec(t@) {
                Some(n) => r == Ok::<u64, KvErrores>(n),
                None => r matches Err(KvErrores::Error(m)) && m@ == "TIMEOUT INVALIDO"@,
            },
        },
{
    match valor {
        None => Err(KvErrores::Error(String::from_str("MISSING TIMEOUT"))),
        Some(t) => match leer_u64(t.as_str()) {
            Some(n) => Ok(n),
            None => Err(KvErrores::Error(String::from_str("TIMEOUT INVALIDO"))),
        },
    }
}

/// What the client does with what it read from its input.
pub enum PasoCliente {
    /// Send this command to the server.
    Enviar(String),
    /// Nothing to send: read again.
    Saltear,
    /// Stop, after showing the message, if any.
    Terminar(Option<String>),
}

/// What the client does with what it read from its input: a command is
/// sent, a blank line is skipped, the end of the input stops it quietly and
/// any other error stops it with `ERROR: <text>`.
pub fn paso_entrada(entrada: Result<String, KvErrores>) -> (r: PasoCliente)
    ensures
        match entrada {
            Ok(c) => r == PasoCliente::Enviar(c),
            Err(KvErrores::EOF) => r == PasoCliente::Terminar(None),
            Err(KvErrores::EMPTY) => r == PasoCliente::Saltear,
            Err(e) => r matches PasoCliente::Terminar(Some(m)) && m@ == "ERROR: <"@ + e.texto() + ">"@,
        },
{
    match entrada {
        Ok(c) => PasoCliente::Enviar(c),
        Err(KvErrores::EOF) => PasoCliente::Terminar(None),
        Err(KvErrores::EMPTY) => PasoCliente::Saltear,
        Err(e) => {
            let mut m = String::from_str("ERROR: <");
            let t = e.to_str();
            m.append(t.as_str());
            m.append(">");
            PasoCliente::Terminar(Some(m))
        },
    }
}

/// What the client shows of an answer, and whether it goes on: an answer
/// is shown as `Respuesta del servidor: <text>`, an error that closes the
/// connection as `ERROR <text>`, and then the client stops.
pub fn paso_respuesta(resultado: ResultadoComunicacion) -> (r: (String, bool))
    ensures
        match resultado {
            ResultadoComunicacion::Continuar(t) => r.0@ == "Respuesta del servidor: <"@ + recortado(t@) + ">"@ && r.1,
            ResultadoComunicacion::Cerrar(t) => r.0@ == "ERROR <"@ + recortado(t@) + ">"@ && !r.1,
        },
{
    match resultado {
        ResultadoComunicacion::Continuar(t) => {
            let mut m = String::from_str("Respuesta del servidor: <");
            let limpio = recortar(t.as_str());
            m.append(limpio.as_str());
            m.append(">");
            (m, true)
        },
        ResultadoComunicacion::Cerrar(t) => {
            let mut m = String::from_str("ERROR <");
            let limpio = recortar(t.as_str());
            m.append(limpio.as_str());
            m.append(">");
            (m, false)
        },
    }
}

/// Why reading the server's answer failed.
pub enum FalloLectura {
    /// No answer within the timeout.
    Timeout,
    /// The server reset the connection.
    ConexionPerdida,
    /// Any other failure.
    Otro,
}

/// What the client makes of its attempt to read an answer line (the bytes
/// read, or why the read failed): no bytes means the server closed the
/// connection; a line of UTF-8 text is read as `traducir_respuesta` reads
/// it; a line that is not UTF-8 text is a failed read; a failed read closes
/// with `TIMEOUT`, `CONEXION PERDIDA` or `ERROR DE COMUNICACION`.
pub fn recibir_respuesta(lectura: Result<Vec<u8>, FalloLectura>) -> (r: ResultadoComunicacion)
    ensures
        match lectura {
            Ok(b) => if b@.len() == 0 {
                r@ == ResultadoVista::Cerrar("CONNECTION CLOSED"@)
            } else if valid_utf8(b@) {
                r@ == traducir_spec(decode_utf8(b@))
            } else {
                r@ == ResultadoVista::Cerrar("ERROR DE COMUNICACION"@)
            },
            Err(FalloLectura::Timeout) => r@ == ResultadoVista::Cerrar("TIMEOUT"@),
            Err(FalloLectura::ConexionPerdida) => r@ == ResultadoVista::Cerrar("CONEXION PERDIDA"@),
            Err(FalloLectura::Otro) => r@ == ResultadoVista::Cerrar("ERROR DE COMUNICACION"@),
        },
{
    match lectura {
        Ok(b) => if b.len() == 0 {
            ResultadoComunicacion::Cerrar(String::from_str("CONNECTION CLOSED"))
        } else {
            match leer_utf8(b.as_slice()) {
                Some(texto) => traducir_texto(texto),
                None => ResultadoComunicacion::Cerrar(String::from_str("ERROR DE COMUNICACION")),
            }
        },
        Err(FalloLectura::Timeout) => ResultadoComunicacion::Cerrar(String::from_str("TIMEOUT")),
        Err(FalloLectura::ConexionPerdida) => ResultadoComunicacion::Cerrar(String::from_str("CONEXION PERDIDA")),
        Err(FalloLectura::Otro) => ResultadoComunicacion::Cerrar(String::from_str("ERROR DE COMUNICACION")),
    }
}

/// The commands a client session sends: each line read from the input (as
/// `obtener_entrada` reads it) is sent trimmed, a blank line sends nothing,
/// the end of the input or a line that is not UTF-8 text ends the session,
/// and after each command sent the session goes on only if the answer lets
/// it (`sigue`, as `paso_respuesta` gives it).
pub open spec fn enviados_sesion(lineas: Seq<Seq<u8>>, sigue: Seq<bool>) -> Seq<Seq<char>>
    decreases lineas.len(),
{
    if lineas.len() == 0 {
        seq![]
    } else {
        let l = primera_linea(lineas[0]);
        if l.len() == 0 || !valid_utf8(l) {
            seq![]
        } else {
            let t = recortado(decode_utf8(l));
            if t.len() == 0 {
                enviados_sesion(lineas.drop_first(), sigue)
            } else if sigue.len() > 0 && sigue[0] {
                seq![t] + enviados_sesion(lineas.drop_first(), sigue.drop_first())
            } else {
                seq![t]
            }
        }
    }
}

/// The trimmed text of each input line.
pub open spec fn textos_entrada(lineas: Seq<Seq<u8>>) -> Seq<Seq<char>> {
    lineas.map_values(|b: Seq<u8>| recortado(decode_utf8(primera_linea(b))))
}

/// How many answers, from the first, let the session go on.
pub open spec fn continuaciones(sigue: Seq<bool>) -> nat
    decreases sigue.len(),
{
    if sigue.len() > 0 && sigue[0] {
        continuaciones(sigue.drop_first()) + 1
    } else {
        0
    }
}

proof fn lema_no_vacias_primero(x: Seq<char>, resto: Seq<Seq<char>>)
    ensures
        no_vacias(seq![x] + resto) == (if x.len() > 0 {
            seq![x]
        } else {
            Seq::<Seq<char>>::empty()
        }) + no_vacias(resto),
    decreases resto.len(),
{
    if resto.len() == 0 {
        assert(seq![x] + resto =~= seq![x]);
        assert(seq![x].drop_last() =~= Seq::<Seq<char>>::empty());
        assert(no_vacias(Seq::<Seq<char>>::empty()) == Seq::<Seq<char>>::empty());
        if x.len() > 0 {
            assert(Seq::<Seq<char>>::empty().push(x) =~= seq![x] + Seq::<Seq<char>>::empty());
        } else {
            assert(Seq::<Seq<char>>::empty() + Seq::<Seq<char>>::empty() =~= Seq::<Seq<char>>::empty());
        }
    } else {
        lema_no_vacias_primero(x, resto.drop_last());
        assert((seq![x] + resto).drop_last() =~= seq![x] + resto.drop_last());
        assert((seq![x] + resto).last() == resto.last());
        let cabeza = if x.len() > 0 {
            seq![x]
        } else {
            Seq::<Seq<char>>::empty()
        };
        assert((cabeza + no_vacias(resto.drop_last())).push(resto.last()) =~= cabeza + no_vacias(
            resto.drop_last(),
        ).push(resto.last()));
    }
}

/// A client session whose lines are all read as text and whose answers all
/// let it go on sends every non-blank line, trimmed, in order; in any
/// session, no command is sent after the first answer that ends it.
pub proof fn ley_sesion_cliente(lineas: Seq<Seq<u8>>, sigue: Seq<bool>)
    ensures
        (forall|i: int|
            0 <= i < lineas.len() ==> primera_linea(#[trigger] lineas[i]).len() > 0 && valid_utf8(
                primera_linea(lineas[i]),
            )) && sigue.len() >= lineas.len() && (forall|i: int| 0 <= i < sigue.len() ==> #[trigger] sigue[i])
            ==> enviados_sesion(lineas, sigue) == no_vacias(textos_entrada(lineas)),
        enviados_sesion(lineas, sigue).len() <= continuaciones(sigue) + 1,
    decreases lineas.len(),
{
    if lineas.len() > 0 {
        let resto = lineas.drop_first();
        ley_sesion_cliente(resto, sigue);
        if sigue.len() > 0 {
            ley_sesion_cliente(resto, sigue.drop_first());
        }
        let t = recortado(decode_utf8(primera_linea(lineas[0])));
        assert(textos_entrada(lineas) =~= seq![t] + textos_entrada(resto));
        lema_no_vacias_primero(t, textos_entrada(resto));
        if (forall|i: int|
            0 <= i < lineas.len() ==> primera_linea(#[trigger] lineas[i]).len() > 0 && valid_utf8(
                primera_linea(lineas[i]),
            )) && sigue.len() >= lineas.len() && (forall|i: int| 0 <= i < sigue.len() ==> #[trigger] sigue[i]) {
            assert forall|i: int| 0 <= i < resto.len() implies primera_linea(#[trigger] resto[i]).len() > 0
                && valid_utf8(primera_linea(resto[i])) by {
                assert(resto[i] == lineas[i + 1]);
            }
            assert(sigue[0]);
            assert forall|i: int| 0 <= i < sigue.drop_first().len() implies #[trigger] sigue.drop_first()[i] by {
                assert(sigue.drop_first()[i] == sigue[i + 1]);
            }
            if t.len() == 0 {
                assert(Seq::<Seq<char>>::empty() + no_vacias(textos_entrada(resto)) =~= no_vacias(textos_entrada(resto)));
            }
        }
    } else {
        assert(textos_entrada(lineas) =~= Seq::<Seq<char>>::empty());
    }
}

/// `r` starts with `p`.
pub open spec fn empieza(r: Seq<char>, p: Seq<char>) -> bool {
    p.len() <= r.len() && r.take(p.len() as int) == p
}

/// How the client reads an answer line: only a line that starts with
/// `ERR_NO_REC:` ends the session; one that starts with `ERR_REC:` is shown
/// as an error and the session goes on; any other line, error texts such as
/// `ERROR: <NOT FOUND>` included, is shown trimmed and the session goes on.
pub proof fn ley_traduccion_respuesta(r: Seq<char>)
    ensures
        !empieza(r, "ERR_REC:"@) && !empieza(r, "ERR_NO_REC:"@) ==> traducir_spec(r) == ResultadoVista::Continuar(
            recortado(r),
        ),
        (traducir_spec(r) is Cerrar) <==> empieza(r, "ERR_NO_REC:"@),
        empieza(r, "ERR_REC:"@) ==> traducir_spec(r) == ResultadoVista::Continuar(
            "ERROR: <"@ + recortado(r.skip(8)) + ">"@,
        ),
        empieza(r, "ERR_NO_REC:"@) ==> traducir_spec(r) == ResultadoVista::Cerrar(
            "ERROR: <"@ + recortado(r.skip(11)) + ">"@,
        ),
{
    reveal_strlit("ERR_REC:");
    reveal_strlit("ERR_NO_REC:");
    if empieza(r, "ERR_REC:"@) && empieza(r, "ERR_NO_REC:"@) {
        assert(r.take(8)[4] == 'R');
        assert(r.take(11)[4] == 'N');
        assert(r.take(8)[4] == r[4]);
        assert(r.take(11)[4] == r[4]);
    }
}

} // verus!
