//! The commands that minikv understands (SET, GET, DELETE, LENGTH, SNAPSHOT)
//! and what running each of them does.
use vstd::prelude::*;
use crate::minikv::base_datos::BaseDatos;
use crate::minikv::estructuras::{MensajePersistencia, MensajeVista};
use crate::minikv::persistencia::aplicar_spec;
use crate::minikv::texto::{a_decimal, decimal};

verus! {

/// The commands:
/// * `Asignar` (SET): binds a value to a key; a value the key had is replaced.
/// * `Get`: the value of a key, or an error when the key is absent.
/// * `Delete`: removes a key; an absent key is no error.
/// * `Length`: the number of keys in the database.
/// * `Snapshot`: writes the database to the data file and empties the log.
pub enum Comando {
    Asignar { clave: String, valor: String },
    Get { clave: String },
    Delete { clave: String },
    Length,
    Snapshot,
}

/// A command, with its keys and values as character sequences.
pub enum ComandoVista {
    Asignar { clave: Seq<char>, valor: Seq<char> },
    Get { clave: Seq<char> },
    Delete { clave: Seq<char> },
    Length,
    Snapshot,
}

impl View for Comando {
    type V = ComandoVista;

    open spec fn view(&self) -> ComandoVista {
        match self {
            Comando::Asignar { clave, valor } => ComandoVista::Asignar { clave: clave@, valor: valor@ },
            Comando::Get { clave } => ComandoVista::Get { clave: clave@ },
            Comando::Delete { clave } => ComandoVista::Delete { clave: clave@ },
            Comando::Length => ComandoVista::Length,
            Comando::Snapshot => ComandoVista::Snapshot,
        }
    }
}

/// What running a command leads to.
pub enum Efecto {
    /// The answer: the result text, or the error message.
    Respuesta(Result<String, String>),
    /// A message for the persistence worker; the answer depends on its delivery.
    Enviar(MensajePersistencia),
}

/// What running a command leads to, as character sequences.
pub enum EfectoVista {
    Respuesta(Result<Seq<char>, Seq<char>>),
    Enviar(MensajeVista),
}

impl View for Efecto {
    type V = EfectoVista;

    open spec fn view(&self) -> EfectoVista {
        match self {
            Efecto::Respuesta(Ok(s)) => EfectoVista::Respuesta(Ok(s@)),
            Efecto::Respuesta(Err(e)) => EfectoVista::Respuesta(Err(e@)),
            Efecto::Enviar(m) => EfectoVista::Enviar(m@),
        }
    }
}

/// The database as a map, or `None` when it could not be read (its lock
/// was poisoned).
pub open spec fn vista_base(base: Option<&BaseDatos>) -> Option<Map<Seq<char>, Seq<char>>> {
    match base {
        Some(b) => Some(b@),
        None => None,
    }
}

/// The message when the database could not be read.
pub open spec fn error_lectura() -> Seq<char> {
    "Error al obtener el lock de lectura"@
}

/// What running a command leads to: SET, DELETE and SNAPSHOT are handed to
/// the persistence worker; GET answers the key's value, or `NOT FOUND`;
/// LENGTH answers the number of keys in decimal.
pub open spec fn efecto_spec(c: ComandoVista, base: Option<Map<Seq<char>, Seq<char>>>) -> EfectoVista {
    match c {
        ComandoVista::Asignar { clave, valor } => EfectoVista::Enviar(MensajeVista::Asignar { clave, valor }),
        ComandoVista::Delete { clave } => EfectoVista::Enviar(MensajeVista::Delete { clave }),
        ComandoVista::Snapshot => EfectoVista::Enviar(MensajeVista::Snapshot),
        ComandoVista::Get { clave } => EfectoVista::Respuesta(
            match base {
                None => Err(error_lectura()),
                Some(m) => if m.contains_key(clave) {
                    Ok(m[clave])
                } else {
                    Err("NOT FOUND"@)
                },
            },
        ),
        ComandoVista::Length => EfectoVista::Respuesta(
            match base {
                None => Err(error_lectura()),
                Some(m) => Ok(decimal(m.len())),
            },
        ),
    }
}

/// The view of an optional string.
pub open spec fn vista_opcion(o: Option<String>) -> Option<Seq<char>> {
    match o {
        Some(s) => Some(s@),
        None => None,
    }
}

/// The answer once the persistence worker's message was sent: `OK`, or,
/// when it could not be delivered, the error naming the operation.
pub open spec fn envio_spec(operacion: Seq<char>, error_envio: Option<Seq<char>>) -> Result<Seq<char>, Seq<char>> {
    match error_envio {
        None => Ok("OK"@),
        Some(e) => Err("Error al enviar el mensaje de "@ + operacion + ": "@ + e),
    }
}

impl Comando {
    /// Runs the command against the database (`None` when it cannot be
    /// read): shared by all commands, without objects.
    pub fn ejecutar(self, base: Option<&BaseDatos>) -> (r: Efecto)
        ensures
            r@ == efecto_spec(self@, vista_base(base)),
    {
        match self {
            Comando::Asignar { clave, valor } => Efecto::Enviar(ejecutar_set(clave, valor)),
            Comando::Get { clave } => Efecto::Respuesta(ejecutar_get(clave, base)),
            Comando::Delete { clave } => Efecto::Enviar(ejecutar_delete(clave)),
            Comando::Length => Efecto::Respuesta(ejecutar_length(base)),
            Comando::Snapshot => Efecto::Enviar(ejecutar_snapshot()),
        }
    }
}

/// SET: the message that binds `valor` to `clave`.
fn ejecutar_set(clave: String, valor: String) -> (m: MensajePersistencia)
    ensures
        m@ == (MensajeVista::Asignar { clave: clave@, valor: valor@ }),
{
    MensajePersistencia::Asignar { clave, valor }
}

/// GET: the value bound to `clave`, or `NOT FOUND`.
fn ejecutar_get(clave: String, base: Option<&BaseDatos>) -> (r: Result<String, String>)
    ensures
        EfectoVista::Respuesta(match r {
            Ok(s) => Ok(s@),
            Err(e) => Err(e@),
        }) == efecto_spec(ComandoVista::Get { clave: clave@ }, vista_base(base)),
{
    match base {
        None => Err(String::from_str("Error al obtener el lock de lectura")),
        Some(b) => match b.obtener(&clave) {
            Some(valor) => Ok(valor),
            None => Err(String::from_str("NOT FOUND")),
        },
    }
}

/// DELETE: the message that removes `clave`; an absent key is no error.
fn ejecutar_delete(clave: String) -> (m: MensajePersistencia)
    ensures
        m@ == (MensajeVista::Delete { clave: clave@ }),
{
    MensajePersistencia::Delete { clave }
}

/// LENGTH: the number of keys, in decimal.
fn ejecutar_length(base: Option<&BaseDatos>) -> (r: Result<String, String>)
    ensures
        EfectoVista::Respuesta(match r {
            Ok(s) => Ok(s@),
            Err(e) => Err(e@),
        }) == efecto_spec(ComandoVista::Length, vista_base(base)),
{
    match base {
        None => Err(String::from_str("Error al obtener el lock de lectura")),
        Some(b) => Ok(a_decimal(b.cantidad())),
    }
}

/// SNAPSHOT: the message that writes the data file and empties the log.
fn ejecutar_snapshot() -> (m: MensajePersistencia)
    ensures
        m@ == MensajeVista::Snapshot,
{
    MensajePersistencia::Snapshot
}

/// The answer to a command handed to the persistence worker, given the name
/// of its operation and, when the message could not be sent, the error.
pub fn resultado_envio(operacion: &str, error_envio: Option<String>) -> (r: Result<String, String>)
    ensures
        match r {
            Ok(s) => envio_spec(operacion@, vista_opcion(error_envio)) == Ok::<Seq<char>, Seq<char>>(s@),
            Err(s) => envio_spec(operacion@, vista_opcion(error_envio)) == Err::<Seq<char>, Seq<char>>(s@),
        },
{
    match error_envio {
        None => Ok(String::from_str("OK")),
        Some(e) => {
            let mut s = String::from_str("Error al enviar el mensaje de ");
            s.append(operacion);
            s.append(": ");
            s.append(e.as_str());
            Err(s)
        },
    }
}

/// A read gives back what a write wrote: once SET `clave` `valor` has been
/// applied, GET `clave` answers `valor`.
pub proof fn ley_get_tras_set(m: Map<Seq<char>, Seq<char>>, clave: String, valor: String)
    ensures
        efecto_spec(
            ComandoVista::Get { clave: clave@ },
            Some(aplicar_spec(m, MensajePersistencia::Asignar { clave, valor })),
        ) == EfectoVista::Respuesta(Ok(valor@)),
{
}

/// Once a key has been deleted, GET of it answers `NOT FOUND`.
pub proof fn ley_get_tras_delete(m: Map<Seq<char>, Seq<char>>, clave: String)
    ensures
        efecto_spec(ComandoVista::Get { clave: clave@ }, Some(aplicar_spec(m, MensajePersistencia::Delete { clave })))
            == EfectoVista::Respuesta(Err("NOT FOUND"@)),
{
}

/// Writing one key leaves what GET answers for any other key unchanged.
pub proof fn ley_otras_claves_intactas(m: Map<Seq<char>, Seq<char>>, mensaje: MensajePersistencia, otra: Seq<char>)
    requires
        match mensaje {
            MensajePersistencia::Asignar { clave, .. } => clave@ != otra,
            MensajePersistencia::Delete { clave } => clave@ != otra,
            MensajePersistencia::Snapshot => true,
        },
    ensures
        efecto_spec(ComandoVista::Get { clave: otra }, Some(aplicar_spec(m, mensaje)))
            == efecto_spec(ComandoVista::Get { clave: otra }, Some(m)),
{
}

/// LENGTH counts keys: SET of a new key adds one, SET of a present key and
/// DELETE of an absent one change nothing.
pub proof fn ley_length_tras_set(m: Map<Seq<char>, Seq<char>>, clave: String, valor: String)
    requires
        m.dom().finite(),
    ensures
        aplicar_spec(m, MensajePersistencia::Asignar { clave, valor }).len() == if m.contains_key(clave@) {
            m.len()
        } else {
            m.len() + 1
        },
        !m.contains_key(clave@) ==> aplicar_spec(m, MensajePersistencia::Delete { clave }).len() == m.len(),
{
    if !m.contains_key(clave@) {
        assert(m.remove(clave@) =~= m);
    }
}

} // verus!
