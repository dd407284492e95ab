//! Parsing of user input: splitting a line into its words, and deciding
//! which command the words name.
use vstd::prelude::*;
use crate::minikv::comandos::{Comando, ComandoVista};
use crate::minikv::texto::{agregar_caracter, caracteres, es_blanco, es_blanco_spec, mismo_texto, vistas};

verus! {

/// Where the splitting of a line stands after some of its characters.
pub struct EstadoLinea {
    /// The words completed so far.
    pub partes: Seq<Seq<char>>,
    /// The word being read.
    pub actual: Seq<char>,
    /// Inside double quotes.
    pub en_comillas: bool,
    /// The previous character was a backslash.
    pub escapado: bool,
}

pub open spec fn estado_inicial() -> EstadoLinea {
    EstadoLinea { partes: seq![], actual: seq![], en_comillas: false, escapado: false }
}

/// One character of a line: a backslash takes the next character as it is,
/// a double quote opens or closes a quoted part, whitespace outside quotes
/// ends a word, and anything else belongs to the word.
pub open spec fn paso_linea(e: EstadoLinea, c: char) -> EstadoLinea {
    if e.escapado {
        EstadoLinea { actual: e.actual.push(c), escapado: false, ..e }
    } else if c == '\\' {
        EstadoLinea { escapado: true, ..e }
    } else if c == '"' {
        EstadoLinea { en_comillas: !e.en_comillas, ..e }
    } else if es_blanco_spec(c) && !e.en_comillas {
        if e.actual.len() > 0 {
            EstadoLinea { partes: e.partes.push(e.actual), actual: seq![], ..e }
        } else {
            e
        }
    } else {
        EstadoLinea { actual: e.actual.push(c), ..e }
    }
}

/// The state after reading `s` from `e`, one character after the other.
pub open spec fn recorrer_linea(e: EstadoLinea, s: Seq<char>) -> EstadoLinea
    decreases s.len(),
{
    if s.len() == 0 {
        e
    } else {
        paso_linea(recorrer_linea(e, s.drop_last()), s.last())
    }
}

/// The words once the line has ended: the word being read, if not empty, is the last one.
pub open spec fn cerrar_linea(e: EstadoLinea) -> Seq<Seq<char>> {
    if e.actual.len() > 0 {
        e.partes.push(e.actual)
    } else {
        e.partes
    }
}

/// The words of a line.
pub open spec fn partes_de_linea(s: Seq<char>) -> Seq<Seq<char>> {
    cerrar_linea(recorrer_linea(estado_inicial(), s))
}

/// The pieces of `s` between whitespace characters, empty ones included.
pub open spec fn trozos(s: Seq<char>) -> Seq<Seq<char>>
    decreases s.len(),
{
    if s.len() == 0 {
        seq![seq![]]
    } else {
        let previos = trozos(s.drop_last());
        if es_blanco_spec(s.last()) {
            previos.push(seq![])
        } else {
            previos.update(previos.len() - 1, previos.last().push(s.last()))
        }
    }
}

/// The texts of `ws` that are not empty, in order.
pub open spec fn no_vacias(ws: Seq<Seq<char>>) -> Seq<Seq<char>>
    decreases ws.len(),
{
    if ws.len() == 0 {
        seq![]
    } else if ws.last().len() > 0 {
        no_vacias(ws.drop_last()).push(ws.last())
    } else {
        no_vacias(ws.drop_last())
    }
}

/// The words of `s` split at whitespace, empty words dropped
/// (`str::split_whitespace`).
pub open spec fn palabras(s: Seq<char>) -> Seq<Seq<char>> {
    no_vacias(trozos(s))
}

/// Splits a line into its words: words are separated by whitespace, a part
/// in double quotes may hold whitespace, and a backslash takes the next
/// character as it is. Empty words are dropped.
pub fn procesar_linea(linea: &str) -> (partes: Vec<String>)
    ensures
        vistas(partes@) == partes_de_linea(linea@),
{
    let v = caracteres(linea);
    let mut partes: Vec<String> = Vec::new();
    let mut actual = String::new();
    let mut en_comillas = false;
    let mut escapado = false;
    let mut i: usize = 0;
    assert(vistas(partes@) =~= Seq::<Seq<char>>::empty());
    assert(v@.take(0) =~= Seq::<char>::empty());
    while i < v.len()
        invariant
            i <= v.len(),
            v@ == linea@,
            recorrer_linea(estado_inicial(), v@.take(i as int)) == (EstadoLinea {
                partes: vistas(partes@),
                actual: actual@,
                en_comillas,
                escapado,
            }),
        decreases v.len() - i,
    {
        let c = v[i];
        let ghost antes = EstadoLinea { partes: vistas(partes@), actual: actual@, en_comillas, escapado };
        if escapado {
            agregar_caracter(&mut actual, c);
            escapado = false;
        } else if c == '\\' {
            escapado = true;
        } else if c == '"' {
            en_comillas = !en_comillas;
        } else if es_blanco(c) && !en_comillas {
            if !actual.as_str().is_empty() {
                partes.push(actual);
                actual = String::new();
                assert(vistas(partes@) =~= antes.partes.push(antes.actual));
            }
        } else {
            agregar_caracter(&mut actual, c);
        }
        assert(v@.take(i + 1).drop_last() =~= v@.take(i as int));
        i = i + 1;
        assert(recorrer_linea(estado_inicial(), v@.take(i as int)) == paso_linea(antes, c));
        assert(recorrer_linea(estado_inicial(), v@.take(i as int)) =~= (EstadoLinea {
            partes: vistas(partes@),
            actual: actual@,
            en_comillas,
            escapado,
        }));
    }
    assert(v@.take(i as int) =~= v@);
    let ghost fin = EstadoLinea { partes: vistas(partes@), actual: actual@, en_comillas, escapado };
    if !actual.as_str().is_empty() {
        partes.push(actual);
        assert(vistas(partes@) =~= fin.partes.push(fin.actual));
    }
    partes
}

/// The command that a command name and its arguments make, or the error
/// message: SET takes a key and a value (a key alone deletes it), GET takes a
/// key, LENGTH and SNAPSHOT take nothing.
pub open spec fn decidir_spec(nombre: Seq<char>, args: Seq<Seq<char>>) -> Result<ComandoVista, Seq<char>> {
    if nombre == "set"@ {
        set_spec(args)
    } else if nombre == "get"@ {
        get_spec(args)
    } else if nombre == "length"@ {
        sin_argumentos_spec(args, ComandoVista::Length)
    } else if nombre == "snapshot"@ {
        sin_argumentos_spec(args, ComandoVista::Snapshot)
    } else {
        Err("UNKNOWN COMMAND"@)
    }
}

/// SET with a key and a value binds it; with a key alone it deletes it.
pub open spec fn set_spec(args: Seq<Seq<char>>) -> Result<ComandoVista, Seq<char>> {
    if args.len() == 0 {
        Err("MISSING ARGUMENT"@)
    } else if args.len() == 1 {
        Ok(ComandoVista::Delete { clave: args[0] })
    } else if args.len() == 2 {
        Ok(ComandoVista::Asignar { clave: args[0], valor: args[1] })
    } else {
        Err("EXTRA ARGUMENT"@)
    }
}

/// GET takes exactly one key.
pub open spec fn get_spec(args: Seq<Seq<char>>) -> Result<ComandoVista, Seq<char>> {
    if args.len() == 0 {
        Err("MISSING ARGUMENT"@)
    } else if args.len() == 1 {
        Ok(ComandoVista::Get { clave: args[0] })
    } else {
        Err("EXTRA ARGUMENT"@)
    }
}

/// LENGTH and SNAPSHOT take no argument.
pub open spec fn sin_argumentos_spec(args: Seq<Seq<char>>, c: ComandoVista) -> Result<ComandoVista, Seq<char>> {
    if args.len() == 0 {
        Ok(c)
    } else {
        Err("EXTRA ARGUMENT"@)
    }
}

/// The command that the program's arguments make: the first argument is the
/// program's name, the second the command's name, the rest its arguments.
pub open spec fn parseo_spec(args: Seq<Seq<char>>) -> Result<ComandoVista, Seq<char>> {
    if args.len() < 2 {
        Err("Error: comando no especificado"@)
    } else {
        decidir_spec(args[1], args.skip(2))
    }
}

/// A parsed command, or the error message, as character sequences.
pub open spec fn vista_resultado(r: Result<Comando, String>) -> Result<ComandoVista, Seq<char>> {
    match r {
        Ok(c) => Ok(c@),
        Err(e) => Err(e@),
    }
}

/// Parses the program's arguments into a command.
pub fn parseo_comando(args: Vec<String>) -> (r: Result<Comando, String>)
    ensures
        vista_resultado(r) == parseo_spec(vistas(args@)),
{
    if args.len() < 2 {
        return Err(String::from_str("Error: comando no especificado"));
    }
    let ghost todos = vistas(args@);
    let mut resto = args;
    let _programa = resto.remove(0);
    let nombre = resto.remove(0);
    assert(vistas(resto@) =~= todos.skip(2));
    decidir_comando(nombre.as_str(), resto)
}

/// The command named `comando` with the arguments `argumentos`, or the
/// error message.
pub fn decidir_comando(comando: &str, argumentos: Vec<String>) -> (r: Result<Comando, String>)
    ensures
        vista_resultado(r) == decidir_spec(comando@, vistas(argumentos@)),
{
    if mismo_texto(comando, "set") {
        parse_set(argumentos)
    } else if mismo_texto(comando, "get") {
        parseo_get(argumentos)
    } else if mismo_texto(comando, "length") {
        parseo_length(argumentos)
    } else if mismo_texto(comando, "snapshot") {
        parseo_snapshot(argumentos)
    } else {
        Err(String::from_str("UNKNOWN COMMAND"))
    }
}

fn parse_set(args: Vec<String>) -> (r: Result<Comando, String>)
    ensures
        vista_resultado(r) == set_spec(vistas(args@)),
{
    let mut args = args;
    let n = args.len();
    if n == 0 {
        Err(String::from_str("MISSING ARGUMENT"))
    } else if n == 1 {
        let clave = args.remove(0);
        Ok(Comando::Delete { clave })
    } else if n == 2 {
        let clave = args.remove(0);
        let valor = args.remove(0);
        Ok(Comando::Asignar { clave, valor })
    } else {
        Err(String::from_str("EXTRA ARGUMENT"))
    }
}

fn parseo_get(args: Vec<String>) -> (r: Result<Comando, String>)
    ensures
        vista_resultado(r) == get_spec(vistas(args@)),
{
    let mut args = args;
    let n = args.len();
    if n == 0 {
        Err(String::from_str("MISSING ARGUMENT"))
    } else if n == 1 {
        let clave = args.remove(0);
        Ok(Comando::Get { clave })
    } else {
        Err(String::from_str("EXTRA ARGUMENT"))
    }
}

fn parseo_length(args: Vec<String>) -> (r: Result<Comando, String>)
    ensures
        vista_resultado(r) == sin_argumentos_spec(vistas(args@), ComandoVista::Length),
{
    if args.len() == 0 {
        Ok(Comando::Length)
    } else {
        Err(String::from_str("EXTRA ARGUMENT"))
    }
}

fn parseo_snapshot(args: Vec<String>) -> (r: Result<Comando, String>)
    ensures
        vista_resultado(r) == sin_argumentos_spec(vistas(args@), ComandoVista::Snapshot),
{
    if args.len() == 0 {
        Ok(Comando::Snapshot)
    } else {
        Err(String::from_str("EXTRA ARGUMENT"))
    }
}

} // verus!
