//! Loading the database from the contents of the data file and of the log.
//! The data file holds one `"<key>" "<value>"` pair per line; the log holds
//! one operation per line, `set <key> <value>` or `set <key>` (a removal).
use vstd::prelude::*;
use vstd::utf8::{valid_utf8, decode_utf8};
use crate::minikv::base_datos::BaseDatos;
use crate::minikv::errores::KvErrores;
use crate::minikv::estructuras::LogCommand;
use crate::minikv::parseo::{partes_de_linea, procesar_linea};
use crate::minikv::texto::{caracteres, leer_utf8, mismo_texto, recortado, recortar, texto_de, vistas};

verus! {

/// The lines of a text: the pieces between line breaks. A text that ends
/// with a line break has an empty last line.
pub open spec fn lineas(t: Seq<char>) -> Seq<Seq<char>>
    decreases t.len(),
{
    if t.len() == 0 {
        seq![seq![]]
    } else {
        let previas = lineas(t.drop_last());
        if t.last() == '\n' {
            previas.push(seq![])
        } else {
            previas.update(previas.len() - 1, previas.last().push(t.last()))
        }
    }
}

/// A text has at least one line.
pub proof fn lema_lineas_no_vacio(t: Seq<char>)
    ensures
        lineas(t).len() >= 1,
    decreases t.len(),
{
    if t.len() > 0 {
        lema_lineas_no_vacio(t.drop_last());
    }
}

/// A data line `<key> <value>` binds the value to the key.
pub open spec fn aplicar_data_spec(m: Map<Seq<char>, Seq<char>>, p: Seq<Seq<char>>) -> Option<Map<Seq<char>, Seq<char>>> {
    if p.len() == 2 {
        Some(m.insert(p[0], p[1]))
    } else {
        None
    }
}

/// A log line `set <key> <value>` binds the value to the key, `set <key>`
/// removes the key.
pub open spec fn aplicar_log_spec(m: Map<Seq<char>, Seq<char>>, p: Seq<Seq<char>>) -> Option<Map<Seq<char>, Seq<char>>> {
    if p.len() == 3 && p[0] == "set"@ {
        Some(m.insert(p[1], p[2]))
    } else if p.len() == 2 && p[0] == "set"@ {
        Some(m.remove(p[1]))
    } else {
        None
    }
}

/// The database after one line of the data file (`es_log` false) or of the
/// log (`es_log` true); `None` when the line is malformed. Blank lines change nothing.
pub open spec fn cargar_linea(m: Map<Seq<char>, Seq<char>>, linea: Seq<char>, es_log: bool) -> Option<Map<Seq<char>, Seq<char>>> {
    let t = recortado(linea);
    if t.len() == 0 {
        Some(m)
    } else if es_log {
        aplicar_log_spec(m, partes_de_linea(t))
    } else {
        aplicar_data_spec(m, partes_de_linea(t))
    }
}

/// The database after the lines `ls`, in order, starting from `m`; `None`
/// when a line is malformed.
pub open spec fn cargar_lineas(m: Map<Seq<char>, Seq<char>>, ls: Seq<Seq<char>>, es_log: bool) -> Option<Map<Seq<char>, Seq<char>>>
    decreases ls.len(),
{
    if ls.len() == 0 {
        Some(m)
    } else {
        match cargar_lineas(m, ls.drop_last(), es_log) {
            Some(m2) => cargar_linea(m2, ls.last(), es_log),
            None => None,
        }
    }
}

/// The database that the contents of the data file and of the log give:
/// the data file's pairs, then the log's operations. A file that is not
/// valid UTF-8 or has a malformed line is refused with its own error.
pub open spec fn cargar_spec(data: Seq<u8>, log: Seq<u8>) -> Result<Map<Seq<char>, Seq<char>>, KvErrores> {
    if !valid_utf8(data) {
        Err(KvErrores::InvalidDataFile)
    } else {
        match cargar_lineas(Map::empty(), lineas(decode_utf8(data)), false) {
            None => Err(KvErrores::InvalidDataFile),
            Some(m) => if !valid_utf8(log) {
                Err(KvErrores::InvalidLogFile)
            } else {
                match cargar_lineas(m, lineas(decode_utf8(log)), true) {
                    None => Err(KvErrores::InvalidLogFile),
                    Some(m2) => Ok(m2),
                }
            },
        }
    }
}

/// Builds the database from the contents of the data file and of the log.
/// # Errors
/// * `InvalidDataFile` when the data file is not UTF-8 text or has a line
///   that is not a `"<key>" "<value>"` pair
/// * `InvalidLogFile` likewise for the log and its `set` lines
pub fn cargar_hashmap(data: &[u8], log: &[u8]) -> (r: Result<BaseDatos, KvErrores>)
    ensures
        match r {
            Ok(b) => cargar_spec(data@, log@) == Ok::<Map<Seq<char>, Seq<char>>, KvErrores>(b@),
            Err(e) => cargar_spec(data@, log@) == Err::<Map<Seq<char>, Seq<char>>, KvErrores>(e),
        },
{
    let mut base = BaseDatos::new();
    if let Err(e) = cargar_hashmap_data(data, &mut base) {
        return Err(e);
    }
    if let Err(e) = cargar_hashmap_log(log, &mut base) {
        return Err(e);
    }
    Ok(base)
}

/// Adds the pairs of the data file to `base`.
fn cargar_hashmap_data(data: &[u8], base: &mut BaseDatos) -> (r: Result<(), KvErrores>)
    ensures
        match r {
            Ok(()) => valid_utf8(data@) && cargar_lineas(old(base)@, lineas(decode_utf8(data@)), false) == Some(final(base)@),
            Err(e) => e == KvErrores::InvalidDataFile && (!valid_utf8(data@) || cargar_lineas(old(base)@, lineas(decode_utf8(data@)), false) is None),
        },
{
    match leer_utf8(data) {
        None => Err(KvErrores::InvalidDataFile),
        Some(texto) => if recorrer_lineas(base, texto, false) {
            Ok(())
        } else {
            Err(KvErrores::InvalidDataFile)
        },
    }
}

/// Applies the operations of the log to `base`.
fn cargar_hashmap_log(log: &[u8], base: &mut BaseDatos) -> (r: Result<(), KvErrores>)
    ensures
        match r {
            Ok(()) => valid_utf8(log@) && cargar_lineas(old(base)@, lineas(decode_utf8(log@)), true) == Some(final(base)@),
            Err(e) => e == KvErrores::InvalidLogFile && (!valid_utf8(log@) || cargar_lineas(old(base)@, lineas(decode_utf8(log@)), true) is None),
        },
{
    match leer_utf8(log) {
        None => Err(KvErrores::InvalidLogFile),
        Some(texto) => if recorrer_lineas(base, texto, true) {
            Ok(())
        } else {
            Err(KvErrores::InvalidLogFile)
        },
    }
}

/// The operation that the words of a log line name, if any.
pub fn interpretar_linea_log(partes: Vec<String>) -> (r: Option<LogCommand>)
    ensures
        match r {
            Some(LogCommand::SET { clave, valor }) => vistas(partes@).len() == 3 && vistas(partes@)[0] == "set"@
                && clave@ == vistas(partes@)[1] && valor@ == vistas(partes@)[2],
            Some(LogCommand::DELETE { clave }) => vistas(partes@).len() == 2 && vistas(partes@)[0] == "set"@
                && clave@ == vistas(partes@)[1],
            None => !((vistas(partes@).len() == 3 || vistas(partes@).len() == 2) && vistas(partes@)[0] == "set"@),
        },
{
    let mut partes = partes;
    let n = partes.len();
    if n != 2 && n != 3 {
        return None;
    }
    if !mismo_texto(partes[0].as_str(), "set") {
        return None;
    }
    let _op = partes.remove(0);
    let clave = partes.remove(0);
    if n == 3 {
        let valor = partes.remove(0);
        Some(LogCommand::SET { clave, valor })
    } else {
        Some(LogCommand::DELETE { clave })
    }
}

/// Applies one line (`linea[desde..hasta]`) to `base`; false when it is malformed.
fn cargar_una_linea(base: &mut BaseDatos, v: &Vec<char>, desde: usize, hasta: usize, es_log: bool) -> (ok: bool)
    requires
        desde <= hasta <= v.len(),
    ensures
        ok ==> cargar_linea(old(base)@, v@.subrange(desde as int, hasta as int), es_log) == Some(final(base)@),
        !ok ==> cargar_linea(old(base)@, v@.subrange(desde as int, hasta as int), es_log) is None,
{
    let linea = texto_de(v, desde, hasta);
    let t = recortar(linea.as_str());
    if t.as_str().is_empty() {
        return true;
    }
    let partes = procesar_linea(t.as_str());
    if es_log {
        match interpretar_linea_log(partes) {
            Some(LogCommand::SET { clave, valor }) => {
                base.insertar(clave, valor);
                true
            },
            Some(LogCommand::DELETE { clave }) => {
                base.eliminar(&clave);
                true
            },
            None => false,
        }
    } else {
        let mut partes = partes;
        if partes.len() == 2 {
            let clave = partes.remove(0);
            let valor = partes.remove(0);
            base.insertar(clave, valor);
            true
        } else {
            false
        }
    }
}

/// Applies the lines of `texto` to `base`, in order; false when a line is
/// malformed. Once a line has failed, the rest are not applied.
fn recorrer_lineas(base: &mut BaseDatos, texto: &str, es_log: bool) -> (ok: bool)
    ensures
        ok ==> cargar_lineas(old(base)@, lineas(texto@), es_log) == Some(final(base)@),
        !ok ==> cargar_lineas(old(base)@, lineas(texto@), es_log) is None,
{
    let v = caracteres(texto);
    let ghost inicial = base@;
    let ghost mut hechas: Seq<Seq<char>> = seq![];
    let mut ok = true;
    let mut inicio: usize = 0;
    let mut i: usize = 0;
    assert(v@.take(0) =~= Seq::<char>::empty());
    assert(lineas(v@.take(0)) =~= hechas.push(v@.subrange(0, 0)));
    while i < v.len()
        invariant
            inicio <= i <= v.len(),
            v@ == texto@,
            lineas(v@.take(i as int)) == hechas.push(v@.subrange(inicio as int, i as int)),
            ok ==> cargar_lineas(inicial, hechas, es_log) == Some(base@),
            !ok ==> cargar_lineas(inicial, hechas, es_log) is None,
        decreases v.len() - i,
    {
        let c = v[i];
        assert(v@.take(i + 1).drop_last() =~= v@.take(i as int));
        if c == '\n' {
            let ghost linea = v@.subrange(inicio as int, i as int);
            if ok {
                ok = cargar_una_linea(base, &v, inicio, i, es_log);
            }
            proof {
                let nuevas = hechas.push(linea);
                assert(nuevas.drop_last() =~= hechas);
                hechas = nuevas;
            }
            let ghost antes = v@.take(i as int);
            inicio = i + 1;
            i = i + 1;
            assert(v@.take(i as int).last() == '\n');
            assert(v@.take(i as int).drop_last() == antes);
            assert(lineas(v@.take(i as int)) == lineas(antes).push(seq![]));
            assert(v@.subrange(inicio as int, i as int) =~= Seq::<char>::empty());
            assert(lineas(v@.take(i as int)) =~= hechas.push(v@.subrange(inicio as int, i as int)));
        } else {
            i = i + 1;
            assert(v@.subrange(inicio as int, i as int) =~= v@.subrange(inicio as int, i - 1).push(c));
            assert(lineas(v@.take(i as int)) =~= hechas.push(v@.subrange(inicio as int, i as int)));
        }
    }
    assert(v@.take(i as int) =~= v@);
    let ghost ultima = v@.subrange(inicio as int, i as int);
    if ok {
        ok = cargar_una_linea(base, &v, inicio, i, es_log);
    }
    assert(hechas.push(ultima).drop_last() =~= hechas);
    ok
}

} // verus!
