//! minikv: a key-value store that keeps its database in memory, records
//! each change in a log (`.minikv.log`) and writes the whole database to a
//! data file (`.minikv.data`) at a snapshot.
//!
//! This module also keeps the first command-line front end: it recognises
//! the command, without case, and describes it.
pub mod errores;
pub mod texto;
pub mod base_datos;
pub mod comandos;
pub mod parseo;
pub mod estructuras;
pub mod comunicacion;
pub mod archivo;
pub mod persistencia;
pub mod recuperacion;

use vstd::prelude::*;
use crate::minikv::texto::{a_minusculas, formato_debug, minusculas, mismo_texto, texto_debug, vistas};

verus! {

/// The commands of the command-line front end; a missing argument is `None`.
pub enum Comando {
    Asignar { clave: Option<String>, valor: Option<String> },
    Get { clave: Option<String> },
    Delete { clave: Option<String> },
    Length,
    Snapshot,
}

/// A command of the front end, with its arguments as character sequences.
pub enum ComandoBorrador {
    Asignar { clave: Option<Seq<char>>, valor: Option<Seq<char>> },
    Get { clave: Option<Seq<char>> },
    Delete { clave: Option<Seq<char>> },
    Length,
    Snapshot,
}

/// The view of an optional string.
pub open spec fn vista_opcional(o: Option<String>) -> Option<Seq<char>> {
    match o {
        Some(s) => Some(s@),
        None => None,
    }
}

impl View for Comando {
    type V = ComandoBorrador;

    open spec fn view(&self) -> ComandoBorrador {
        match self {
            Comando::Asignar { clave, valor } => ComandoBorrador::Asignar {
                clave: vista_opcional(*clave),
                valor: vista_opcional(*valor),
            },
            Comando::Get { clave } => ComandoBorrador::Get { clave: vista_opcional(*clave) },
            Comando::Delete { clave } => ComandoBorrador::Delete { clave: vista_opcional(*clave) },
            Comando::Length => ComandoBorrador::Length,
            Comando::Snapshot => ComandoBorrador::Snapshot,
        }
    }
}

/// The debug notation of an optional string: `None`, or `Some(...)` around
/// the string's debug notation.
pub open spec fn debug_opcional(o: Option<Seq<char>>) -> Seq<char> {
    match o {
        None => "None"@,
        Some(s) => "Some("@ + texto_debug(s) + ")"@,
    }
}

/// The description of a command.
pub open spec fn descripcion(c: ComandoBorrador) -> Seq<char> {
    match c {
        ComandoBorrador::Asignar { clave, valor } => "Comando Set: clave = "@ + debug_opcional(clave)
            + ", valor = "@ + debug_opcional(valor),
        ComandoBorrador::Get { clave } => "Comando Get: clave = "@ + debug_opcional(clave),
        ComandoBorrador::Delete { clave } => "Comando Delete: clave = "@ + debug_opcional(clave),
        ComandoBorrador::Length => "Comando Length"@,
        ComandoBorrador::Snapshot => "Comando Snapshot"@,
    }
}

/// The message for a SET with no argument or more than two.
pub open spec fn error_set() -> Seq<char> {
    "Error: comando set invalido,\n                uso: minikv set <key> <value> o minikv set <key>"@
}

/// The command that a (lower case) command name and its arguments make, or
/// the error message. SET with one argument deletes the key.
pub open spec fn decidir_borrador(nombre: Seq<char>, args: Seq<Seq<char>>) -> Result<ComandoBorrador, Seq<char>> {
    if nombre == "set"@ {
        if args.len() < 1 || args.len() > 2 {
            Err(error_set())
        } else if args.len() == 1 {
            Ok(ComandoBorrador::Delete { clave: Some(args[0]) })
        } else {
            Ok(ComandoBorrador::Asignar { clave: Some(args[0]), valor: Some(args[1]) })
        }
    } else if nombre == "get"@ {
        if args.len() != 1 {
            Err("Error: comando get invalido, uso: minikv get <key>"@)
        } else {
            Ok(ComandoBorrador::Get { clave: Some(args[0]) })
        }
    } else if nombre == "length"@ {
        if args.len() != 0 {
            Err("Error: comando length invalido, uso: minikv length"@)
        } else {
            Ok(ComandoBorrador::Length)
        }
    } else if nombre == "snapshot"@ {
        if args.len() != 0 {
            Err("Error: comando snapshot invalido, uso: minikv snapshot"@)
        } else {
            Ok(ComandoBorrador::Snapshot)
        }
    } else {
        Err("Error: comando no reconocido"@)
    }
}

/// The message that the front end gives for the program's arguments: the
/// description of the command (whose name is read without case), or the error.
pub open spec fn parseo_borrador(args: Seq<Seq<char>>) -> Option<Seq<char>> {
    if args.len() < 2 {
        Some("Error: comando no especificado"@)
    } else {
        match decidir_borrador(minusculas(args[1]), args.skip(2)) {
            Ok(c) => Some("Comando ejecutado: "@ + descripcion(c)),
            Err(e) => Some(e),
        }
    }
}

/// The debug notation of an optional string.
fn formato_opcional(o: &Option<String>) -> (r: String)
    ensures
        r@ == debug_opcional(vista_opcional(*o)),
{
    match o {
        None => String::from_str("None"),
        Some(s) => {
            let mut r = String::from_str("Some(");
            let d = formato_debug(s.as_str());
            r.append(d.as_str());
            r.append(")");
            r
        },
    }
}

impl Comando {
    /// A description of the command, with its arguments in debug notation.
    pub fn imprimir_comando(&self) -> (r: String)
        ensures
            r@ == descripcion(self@),
    {
        match self {
            Comando::Asignar { clave, valor } => {
                let mut r = String::from_str("Comando Set: clave = ");
                let c = formato_opcional(clave);
                r.append(c.as_str());
                r.append(", valor = ");
                let v = formato_opcional(valor);
                r.append(v.as_str());
                r
            },
            Comando::Get { clave } => {
                let mut r = String::from_str("Comando Get: clave = ");
                let c = formato_opcional(clave);
                r.append(c.as_str());
                r
            },
            Comando::Delete { clave } => {
                let mut r = String::from_str("Comando Delete: clave = ");
                let c = formato_opcional(clave);
                r.append(c.as_str());
                r
            },
            Comando::Length => String::from_str("Comando Length"),
            Comando::Snapshot => String::from_str("Comando Snapshot"),
        }
    }
}

/// The message for the program's arguments (`minikv <command> <args>`):
/// the description of the command, or the error. The command's name is
/// read without case (SET = set = Set).
pub fn parseo_comando(args: Vec<String>) -> (r: Option<String>)
    ensures
        vista_opcional(r) == parseo_borrador(vistas(args@)),
{
    if args.len() < 2 {
        return Some(String::from_str("Error: comando no especificado"));
    }
    let ghost todos = vistas(args@);
    let mut valores = args;
    let _programa = valores.remove(0);
    let nombre = valores.remove(0);
    assert(vistas(valores@) =~= todos.skip(2));
    let tag_comando = a_minusculas(nombre.as_str());
    match decidir_comando(tag_comando, valores) {
        Ok(comando) => {
            let mut r = String::from_str("Comando ejecutado: ");
            let d = comando.imprimir_comando();
            r.append(d.as_str());
            Some(r)
        },
        Err(error) => Some(error),
    }
}

/// The command that a (lower case) command name and its arguments make, or
/// the error message.
pub fn decidir_comando(comando: String, argumentos: Vec<String>) -> (r: Result<Comando, String>)
    ensures
        match r {
            Ok(c) => decidir_borrador(comando@, vistas(argumentos@)) == Ok::<ComandoBorrador, Seq<char>>(c@),
            Err(e) => decidir_borrador(comando@, vistas(argumentos@)) == Err::<ComandoBorrador, Seq<char>>(e@),
        },
{
    let mut valores = argumentos;
    let n = valores.len();
    if mismo_texto(comando.as_str(), "set") {
        if n < 1 || n > 2 {
            Err(String::from_str("Error: comando set invalido,\n                uso: minikv set <key> <value> o minikv set <key>"))
        } else if n == 1 {
            let clave = valores.remove(0);
            Ok(Comando::Delete { clave: Some(clave) })
        } else {
            let clave = valores.remove(0);
            let valor = valores.remove(0);
            Ok(Comando::Asignar { clave: Some(clave), valor: Some(valor) })
        }
    } else if mismo_texto(comando.as_str(), "get") {
        if n != 1 {
            Err(String::from_str("Error: comando get invalido, uso: minikv get <key>"))
        } else {
            let clave = valores.remove(0);
            Ok(Comando::Get { clave: Some(clave) })
        }
    } else if mismo_texto(comando.as_str(), "length") {
        if n != 0 {
            Err(String::from_str("Error: comando length invalido, uso: minikv length"))
        } else {
            Ok(Comando::Length)
        }
    } else if mismo_texto(comando.as_str(), "snapshot") {
        if n != 0 {
            Err(String::from_str("Error: comando snapshot invalido, uso: minikv snapshot"))
        } else {
            Ok(Comando::Snapshot)
        }
    } else {
        Err(String::from_str("Error: comando no reconocido"))
    }
}

/// Lower-casing twice is lower-casing once.
proof fn lema_minusculas_idempotente(s: Seq<char>)
    ensures
        minusculas(minusculas(s)) == minusculas(s),
{
    assert(minusculas(minusculas(s)) =~= minusculas(s));
}

/// The front end reads only the command's name without case: the
/// arguments after it reach the command exactly as given, and a name that
/// differs only in ASCII case gives the same message.
pub proof fn ley_parseo_conserva_argumentos(args: Seq<Seq<char>>)
    requires
        args.len() >= 2,
    ensures
        minusculas(args[1]) == "set"@ && args.len() == 4 ==> parseo_borrador(args) == Some(
            "Comando ejecutado: "@ + ("Comando Set: clave = "@ + debug_opcional(Some(args[2])) + ", valor = "@
                + debug_opcional(Some(args[3]))),
        ),
        minusculas(args[1]) == "set"@ && args.len() == 3 ==> parseo_borrador(args) == Some(
            "Comando ejecutado: "@ + ("Comando Delete: clave = "@ + debug_opcional(Some(args[2]))),
        ),
        minusculas(args[1]) == "get"@ && args.len() == 3 ==> parseo_borrador(args) == Some(
            "Comando ejecutado: "@ + ("Comando Get: clave = "@ + debug_opcional(Some(args[2]))),
        ),
        parseo_borrador(args) == parseo_borrador(args.update(1, minusculas(args[1]))),
{
    reveal_strlit("set");
    reveal_strlit("get");
    assert("set"@.len() == 3 && "get"@.len() == 3 && "set"@[0] == 's' && "get"@[0] == 'g');
    let resto = args.skip(2);
    if args.len() >= 3 {
        assert(resto[0] == args[2]);
    }
    if args.len() >= 4 {
        assert(resto[1] == args[3]);
    }
    lema_minusculas_idempotente(args[1]);
    let otra = args.update(1, minusculas(args[1]));
    assert(otra.skip(2) =~= resto);
    assert(otra[1] == minusculas(args[1]));
}

} // verus!
