//! What the persistence worker writes and does: the log line of each
//! operation, the contents of the data file at a snapshot, and the change
//! to the database once the log line is written.
use vstd::prelude::*;
use crate::minikv::base_datos::BaseDatos;
use crate::minikv::estructuras::MensajePersistencia;
use crate::minikv::texto::{agregar_caracter, caracteres};

verus! {

/// `v` with a backslash before each double quote.
pub open spec fn escapar_comillas(v: Seq<char>) -> Seq<char>
    decreases v.len(),
{
    if v.len() == 0 {
        seq![]
    } else {
        escapar_comillas(v.drop_last()) + (if v.last() == '"' {
            seq!['\\', '"']
        } else {
            seq![v.last()]
        })
    }
}

/// `s` between double quotes.
pub open spec fn entre_comillas(s: Seq<char>) -> Seq<char> {
    seq!['"'] + s + seq!['"']
}

/// The line of the data file for a pair, without its line break: `"<clave>" "<valor>"`.
pub open spec fn linea_data_spec(clave: Seq<char>, valor: Seq<char>) -> Seq<char> {
    entre_comillas(clave) + seq![' '] + entre_comillas(valor)
}

/// The contents of the data file for a list of entries: one line per entry,
/// in order, each ended by a line break. With `escapar`, the double quotes
/// of the values are escaped.
pub open spec fn contenido_data_spec(entradas: Seq<(Seq<char>, Seq<char>)>, escapar: bool) -> Seq<char>
    decreases entradas.len(),
{
    if entradas.len() == 0 {
        seq![]
    } else {
        let (clave, valor) = entradas.last();
        contenido_data_spec(entradas.drop_last(), escapar) + linea_data_spec(
            clave,
            if escapar {
                escapar_comillas(valor)
            } else {
                valor
            },
        ) + seq!['\n']
    }
}

/// The log line, with its line break, that records an operation:
/// `set "<clave>" "<valor>"` (double quotes of the value escaped) for a
/// binding, `set "<clave>"` for a removal. A snapshot has none.
pub open spec fn linea_log_spec(mensaje: MensajePersistencia) -> Option<Seq<char>> {
    match mensaje {
        MensajePersistencia::Asignar { clave, valor } => Some(
            "set"@ + seq![' '] + entre_comillas(clave@) + seq![' '] + entre_comillas(
                escapar_comillas(valor@),
            ) + seq!['\n'],
        ),
        MensajePersistencia::Delete { clave } => Some(
            "set"@ + seq![' '] + entre_comillas(clave@) + seq!['\n'],
        ),
        MensajePersistencia::Snapshot => None,
    }
}

/// The database after an operation has been applied to `m`.
pub open spec fn aplicar_spec(m: Map<Seq<char>, Seq<char>>, mensaje: MensajePersistencia) -> Map<Seq<char>, Seq<char>> {
    match mensaje {
        MensajePersistencia::Asignar { clave, valor } => m.insert(clave@, valor@),
        MensajePersistencia::Delete { clave } => m.remove(clave@),
        MensajePersistencia::Snapshot => m,
    }
}

/// Appends `v`, with a backslash before each double quote, to `s`.
fn agregar_escapado(s: &mut String, v: &str)
    ensures
        final(s)@ == old(s)@ + escapar_comillas(v@),
{
    let cs = caracteres(v);
    let mut i: usize = 0;
    assert(cs@.take(0) =~= Seq::<char>::empty());
    assert(s@ =~= old(s)@ + escapar_comillas(cs@.take(0)));
    while i < cs.len()
        invariant
            i <= cs.len(),
            cs@ == v@,
            s@ == old(s)@ + escapar_comillas(cs@.take(i as int)),
        decreases cs.len() - i,
    {
        let c = cs[i];
        if c == '"' {
            agregar_caracter(s, '\\');
        }
        agregar_caracter(s, c);
        assert(cs@.take(i + 1).drop_last() =~= cs@.take(i as int));
        i = i + 1;
        assert(s@ =~= old(s)@ + escapar_comillas(cs@.take(i as int)));
    }
    assert(cs@.take(i as int) =~= cs@);
}

/// Appends `"<t>"` to `s`, escaping double quotes in `t` when `escapar` holds.
fn agregar_entre_comillas(s: &mut String, t: &str, escapar: bool)
    ensures
        final(s)@ == old(s)@ + entre_comillas(if escapar { escapar_comillas(t@) } else { t@ }),
{
    agregar_caracter(s, '"');
    if escapar {
        agregar_escapado(s, t);
    } else {
        s.append(t);
    }
    agregar_caracter(s, '"');
    assert(s@ =~= old(s)@ + entre_comillas(if escapar { escapar_comillas(t@) } else { t@ }));
}

/// The log line that records `mensaje`; `None` for a snapshot.
pub fn linea_log(mensaje: &MensajePersistencia) -> (r: Option<String>)
    ensures
        match r {
            Some(l) => linea_log_spec(*mensaje) == Some(l@),
            None => linea_log_spec(*mensaje) is None,
        },
{
    match mensaje {
        MensajePersistencia::Asignar { clave, valor } => {
            let mut l = String::from_str("set");
            agregar_caracter(&mut l, ' ');
            agregar_entre_comillas(&mut l, clave.as_str(), false);
            agregar_caracter(&mut l, ' ');
            agregar_entre_comillas(&mut l, valor.as_str(), true);
            agregar_caracter(&mut l, '\n');
            assert(l@ =~= "set"@ + seq![' '] + entre_comillas(clave@) + seq![' '] + entre_comillas(
                escapar_comillas(valor@),
            ) + seq!['\n']);
            Some(l)
        },
        MensajePersistencia::Delete { clave } => {
            let mut l = String::from_str("set");
            agregar_caracter(&mut l, ' ');
            agregar_entre_comillas(&mut l, clave.as_str(), false);
            agregar_caracter(&mut l, '\n');
            assert(l@ =~= "set"@ + seq![' '] + entre_comillas(clave@) + seq!['\n']);
            Some(l)
        },
        MensajePersistencia::Snapshot => None,
    }
}

/// The contents of the data file for `base`: one `"<key>" "<value>"` line
/// per key. With `escapar` (as at a snapshot) the double quotes of the
/// values are escaped; without it (as `escrbir_data` writes) they are not.
pub fn contenido_data(base: &BaseDatos, escapar: bool) -> (r: String)
    ensures
        r@ == contenido_data_spec(base.entradas_vista(), escapar),
{
    let mut r = String::new();
    let n = base.largo();
    let mut i: usize = 0;
    assert(base.entradas_vista().take(0) =~= Seq::<(Seq<char>, Seq<char>)>::empty());
    while i < n
        invariant
            i <= n == base.entradas_vista().len(),
            r@ == contenido_data_spec(base.entradas_vista().take(i as int), escapar),
        decreases n - i,
    {
        let (clave, valor) = base.entrada(i);
        let ghost previo = r@;
        agregar_entre_comillas(&mut r, clave.as_str(), false);
        agregar_caracter(&mut r, ' ');
        agregar_entre_comillas(&mut r, valor.as_str(), escapar);
        agregar_caracter(&mut r, '\n');
        let ghost tomadas = base.entradas_vista().take(i + 1);
        assert(tomadas.drop_last() =~= base.entradas_vista().take(i as int));
        assert(tomadas.last() == (clave@, valor@));
        i = i + 1;
        assert(r@ =~= contenido_data_spec(base.entradas_vista().take(i as int), escapar));
    }
    assert(base.entradas_vista().take(i as int) =~= base.entradas_vista());
    r
}

/// Applies `mensaje` to `base` once the worker has tried to write its log
/// line: a binding is applied only when the line was written, a removal is
/// applied in any case, a snapshot changes nothing.
pub fn aplicar_mensaje(base: &mut BaseDatos, mensaje: MensajePersistencia, log_escrito: bool)
    ensures
        match mensaje {
            MensajePersistencia::Asignar { .. } => if log_escrito {
                final(base)@ == aplicar_spec(old(base)@, mensaje)
            } else {
                final(base)@ == old(base)@
            },
            _ => final(base)@ == aplicar_spec(old(base)@, mensaje),
        },
{
    match mensaje {
        MensajePersistencia::Asignar { clave, valor } => {
            if log_escrito {
                base.insertar(clave, valor);
            }
        },
        MensajePersistencia::Delete { clave } => {
            base.eliminar(&clave);
        },
        MensajePersistencia::Snapshot => {},
    }
}

} // verus!
