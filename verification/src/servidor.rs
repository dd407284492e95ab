//! The server's logic: what a request line leads to and the line that
//! answers it.
use vstd::prelude::*;
use crate::minikv::base_datos::BaseDatos;
use crate::minikv::comandos::{Efecto, EfectoVista, efecto_spec, envio_spec, error_lectura, resultado_envio, vista_base, vista_opcion};
use crate::minikv::texto::decimal;
use crate::minikv::estructuras::{MensajePersistencia, MensajeVista};
use crate::minikv::errores::KvErrores;
use crate::minikv::parseo::{decidir_comando, decidir_spec, partes_de_linea, procesar_linea};
use crate::minikv::texto::{recortado, recortar, vistas};

verus! {

/// What a request line leads to: its first word names the command, the
/// others are its arguments; or the message of the error.
pub open spec fn procesar_spec(linea: Seq<char>, base: Option<Map<Seq<char>, Seq<char>>>) -> Result<EfectoVista, Seq<char>> {
    let p = partes_de_linea(linea);
    if p.len() == 0 {
        Err("Error: comando no especificado"@)
    } else {
        match decidir_spec(p[0], p.skip(1)) {
            Ok(c) => Ok(efecto_spec(c, base)),
            Err(e) => Err(e),
        }
    }
}

/// Handles a request line against the database (`None` when it cannot be
/// read): splits it into words, decides the command and runs it.
/// # Errors
/// * `Error(m)` with the message of a command that is missing, unknown or
///   has the wrong number of arguments
pub fn procesar_comando(linea: &str, base: Option<&BaseDatos>) -> (r: Result<Efecto, KvErrores>)
    ensures
        match r {
            Ok(e) => procesar_spec(linea@, vista_base(base)) == Ok::<EfectoVista, Seq<char>>(e@),
            Err(KvErrores::Error(m)) => procesar_spec(linea@, vista_base(base)) == Err::<EfectoVista, Seq<char>>(m@),
            Err(_) => false,
        },
{
    let mut args = procesar_linea(linea);
    if args.len() == 0 {
        return Err(KvErrores::Error(String::from_str("Error: comando no especificado")));
    }
    let ghost todos = vistas(args@);
    let nombre = args.remove(0);
    assert(vistas(args@) =~= todos.skip(1));
    let decidido = decidir_comando(nombre.as_str(), args);
    match decidido {
        Ok(comando) => Ok(comando.ejecutar(base)),
        Err(m) => Err(KvErrores::Error(m)),
    }
}

/// The line that answers a request: the result, or `ERROR: <message>`.
pub fn respuesta(resultado: Result<String, String>) -> (r: String)
    ensures
        match resultado {
            Ok(s) => r@ == s@,
            Err(e) => r@ == "ERROR: <"@ + e@ + ">"@,
        },
{
    match resultado {
        Ok(s) => s,
        Err(e) => respuesta_error(&KvErrores::Error(e)),
    }
}

/// The line that reports an error to the client: `ERROR: <text>`.
pub fn respuesta_error(e: &KvErrores) -> (r: String)
    ensures
        r@ == "ERROR: <"@ + e.texto() + ">"@,
{
    let mut s = String::from_str("ERROR: <");
    let t = e.to_str();
    s.append(t.as_str());
    s.append(">");
    s
}

/// What the server does with a request line.
pub enum Atencion {
    /// Answer with this line.
    Responder(String),
    /// Hand this message to the persistence worker, then answer as
    /// `respuesta_persistencia` says.
    Persistir(MensajePersistencia),
}

/// The answer line that a result makes: the text, or `ERROR: <message>`.
pub open spec fn linea_respuesta(r: Result<Seq<char>, Seq<char>>) -> Seq<char> {
    match r {
        Ok(s) => s,
        Err(e) => "ERROR: <"@ + e + ">"@,
    }
}

/// What the server does with a request line, once trimmed: answer it at
/// once, or hand a message to the persistence worker.
pub fn atender_linea(linea: &str, base: Option<&BaseDatos>) -> (r: Atencion)
    ensures
        match procesar_spec(recortado(linea@), vista_base(base)) {
            Ok(EfectoVista::Respuesta(res)) => r matches Atencion::Responder(s) && s@ == linea_respuesta(res),
            Ok(EfectoVista::Enviar(m)) => r matches Atencion::Persistir(mp) && mp@ == m,
            Err(e) => r matches Atencion::Responder(s) && s@ == linea_respuesta(Err(e)),
        },
{
    let linea = recortar(linea);
    match procesar_comando(linea.as_str(), base) {
        Ok(Efecto::Respuesta(res)) => Atencion::Responder(respuesta(res)),
        Ok(Efecto::Enviar(m)) => Atencion::Persistir(m),
        Err(e) => Atencion::Responder(respuesta_error(&e)),
    }
}

/// The answer line once the message for an operation was sent (`None`) or
/// could not be sent (the error's text).
pub fn respuesta_persistencia(operacion: &str, error_envio: Option<String>) -> (r: String)
    ensures
        r@ == linea_respuesta(envio_spec(operacion@, vista_opcion(error_envio))),
{
    respuesta(resultado_envio(operacion, error_envio))
}

/// The name of an operation, as error messages give it.
pub open spec fn nombre_operacion(m: MensajeVista) -> Seq<char> {
    match m {
        MensajeVista::Snapshot => "snapshot"@,
        MensajeVista::Asignar { .. } => "set"@,
        MensajeVista::Delete { .. } => "delete"@,
    }
}

/// The answer line to a request line, given the database at that moment
/// (`None` when it cannot be read) and, for an operation handed to the
/// persistence worker, why its message could not be delivered (`None` when
/// it was): what `atender_linea` and then `respuesta_persistencia` give.
pub open spec fn respuesta_spec(
    linea: Seq<char>,
    base: Option<Map<Seq<char>, Seq<char>>>,
    error_envio: Option<Seq<char>>,
) -> Seq<char> {
    match procesar_spec(recortado(linea), base) {
        Ok(EfectoVista::Respuesta(r)) => linea_respuesta(r),
        Ok(EfectoVista::Enviar(m)) => linea_respuesta(envio_spec(nombre_operacion(m), error_envio)),
        Err(e) => linea_respuesta(Err(e)),
    }
}

/// The answer lines of a server session: one per request line, in order,
/// while request lines come.
pub open spec fn respuestas_sesion(
    lineas: Seq<Seq<char>>,
    bases: Seq<Option<Map<Seq<char>, Seq<char>>>>,
    errores: Seq<Option<Seq<char>>>,
) -> Seq<Seq<char>>
    decreases lineas.len(),
{
    if lineas.len() == 0 || bases.len() == 0 || errores.len() == 0 {
        seq![]
    } else {
        seq![respuesta_spec(lineas[0], bases[0], errores[0])] + respuestas_sesion(
            lineas.drop_first(),
            bases.drop_first(),
            errores.drop_first(),
        )
    }
}

/// A server session answers every request line, blank and wrong ones
/// included, exactly once and in order: an error answer does not end it.
pub proof fn ley_sesion_servidor(
    lineas: Seq<Seq<char>>,
    bases: Seq<Option<Map<Seq<char>, Seq<char>>>>,
    errores: Seq<Option<Seq<char>>>,
)
    requires
        bases.len() >= lineas.len(),
        errores.len() >= lineas.len(),
    ensures
        respuestas_sesion(lineas, bases, errores).len() == lineas.len(),
        forall|i: int|
            0 <= i < lineas.len() ==> #[trigger] respuestas_sesion(lineas, bases, errores)[i] == respuesta_spec(
                lineas[i],
                bases[i],
                errores[i],
            ),
    decreases lineas.len(),
{
    if lineas.len() > 0 {
        ley_sesion_servidor(lineas.drop_first(), bases.drop_first(), errores.drop_first());
        assert forall|i: int| 0 <= i < lineas.len() implies #[trigger] respuestas_sesion(lineas, bases, errores)[i]
            == respuesta_spec(lineas[i], bases[i], errores[i]) by {
            if i > 0 {
                assert(lineas.drop_first()[i - 1] == lineas[i]);
                assert(bases.drop_first()[i - 1] == bases[i]);
                assert(errores.drop_first()[i - 1] == errores[i]);
            }
        }
    }
}

/// What a request line does, by its words (split as `procesar_linea`
/// splits it): `set <k> <v>` hands the binding of `v` to `k`
/// to the persistence worker, `set <k>` hands the removal of `k`,
/// `snapshot` hands a snapshot; `get <k>` answers `k`'s value or
/// `NOT FOUND`, and `length` the number of keys in decimal.
pub proof fn ley_procesar_por_palabras(linea: Seq<char>, base: Option<Map<Seq<char>, Seq<char>>>)
    ensures
        partes_de_linea(linea).len() == 3 && partes_de_linea(linea)[0] == "set"@ ==> procesar_spec(linea, base)
            == Ok::<EfectoVista, Seq<char>>(
            EfectoVista::Enviar(
                MensajeVista::Asignar { clave: partes_de_linea(linea)[1], valor: partes_de_linea(linea)[2] },
            ),
        ),
        partes_de_linea(linea).len() == 2 && partes_de_linea(linea)[0] == "set"@ ==> procesar_spec(linea, base)
            == Ok::<EfectoVista, Seq<char>>(EfectoVista::Enviar(MensajeVista::Delete { clave: partes_de_linea(linea)[1] })),
        partes_de_linea(linea).len() == 1 && partes_de_linea(linea)[0] == "snapshot"@ ==> procesar_spec(linea, base)
            == Ok::<EfectoVista, Seq<char>>(EfectoVista::Enviar(MensajeVista::Snapshot)),
        partes_de_linea(linea).len() == 2 && partes_de_linea(linea)[0] == "get"@ ==> procesar_spec(linea, base)
            == Ok::<EfectoVista, Seq<char>>(
            EfectoVista::Respuesta(
                match base {
                    None => Err(error_lectura()),
                    Some(m) => if m.contains_key(partes_de_linea(linea)[1]) {
                        Ok(m[partes_de_linea(linea)[1]])
                    } else {
                        Err("NOT FOUND"@)
                    },
                },
            ),
        ),
        partes_de_linea(linea).len() == 1 && partes_de_linea(linea)[0] == "length"@ ==> procesar_spec(linea, base)
            == Ok::<EfectoVista, Seq<char>>(
            EfectoVista::Respuesta(
                match base {
                    None => Err(error_lectura()),
                    Some(m) => Ok(decimal(m.len())),
                },
            ),
        ),
{
    reveal_strlit("set");
    reveal_strlit("get");
    reveal_strlit("length");
    reveal_strlit("snapshot");
    assert("set"@.len() == 3 && "get"@.len() == 3 && "length"@.len() == 6 && "snapshot"@.len() == 8);
    assert("set"@[0] == 's' && "get"@[0] == 'g');
    let p = partes_de_linea(linea);
    if p.len() > 0 {
        assert(p.skip(1).len() == p.len() - 1);
        if p.len() >= 2 {
            assert(p.skip(1)[0] == p[1]);
        }
        if p.len() >= 3 {
            assert(p.skip(1)[1] == p[2]);
        }
        if p[0] == "snapshot"@ {
            assert(p[0] != "set"@ && p[0] != "get"@ && p[0] != "length"@);
        }
        if p[0] == "get"@ {
            assert(p[0] != "set"@);
        }
        if p[0] == "length"@ {
            assert(p[0] != "set"@ && p[0] != "get"@);
        }
    }
}

} // verus!
