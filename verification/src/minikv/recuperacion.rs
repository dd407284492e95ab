//! What makes the database survive a restart: the data file written at a
//! snapshot loads back into the same database, and each line appended to
//! the log replays, at the next load, the operation that wrote it.
use vstd::prelude::*;
use vstd::utf8::{valid_utf8, decode_utf8, encode_utf8, encode_utf8_decode_utf8,
    encode_utf8_valid_utf8, decode_utf8_encode_utf8, valid_utf8_concat};
use crate::minikv::archivo::{cargar_linea, cargar_lineas, cargar_spec, lineas, lema_lineas_no_vacio};
use crate::minikv::base_datos::{BaseDatos, mapa_de};
use crate::minikv::errores::KvErrores;
use crate::minikv::estructuras::MensajePersistencia;
use crate::minikv::parseo::{EstadoLinea, estado_inicial, paso_linea, recorrer_linea, partes_de_linea, trozos, no_vacias, palabras};
use crate::minikv::persistencia::{escapar_comillas, entre_comillas, linea_data_spec, contenido_data_spec,
    linea_log_spec, aplicar_spec};
use crate::minikv::texto::{es_blanco_spec, recortado, sin_blancos_inicio, sin_blancos_final};

verus! {

/// `c` does not occur in `s`.
pub open spec fn sin_caracter(s: Seq<char>, c: char) -> bool {
    forall|i: int| 0 <= i < s.len() ==> s[i] != c
}

/// A key that the data file and the log can hold: not empty, and without
/// double quote, backslash or line break (keys are written as they are).
pub open spec fn clave_representable(k: Seq<char>) -> bool {
    &&& k.len() > 0
    &&& sin_caracter(k, '"')
    &&& sin_caracter(k, '\\')
    &&& sin_caracter(k, '\n')
}

/// A value that the data file and the log can hold: not empty, and without
/// backslash or line break (double quotes are escaped when written).
pub open spec fn valor_representable(v: Seq<char>) -> bool {
    &&& v.len() > 0
    &&& sin_caracter(v, '\\')
    &&& sin_caracter(v, '\n')
}

/// An operation whose log line the log can hold.
pub open spec fn mensaje_representable(mensaje: MensajePersistencia) -> bool {
    match mensaje {
        MensajePersistencia::Asignar { clave, valor } => clave_representable(clave@) && valor_representable(valor@),
        MensajePersistencia::Delete { clave } => clave_representable(clave@),
        MensajePersistencia::Snapshot => false,
    }
}

proof fn lema_recorrer_uno(e: EstadoLinea, c: char)
    ensures
        recorrer_linea(e, seq![c]) == paso_linea(e, c),
{
    let s = seq![c];
    assert(s.drop_last() =~= Seq::<char>::empty());
    assert(s.last() == c);
    assert(recorrer_linea(e, s.drop_last()) == e);
}

proof fn lema_recorrer_concat(e: EstadoLinea, s1: Seq<char>, s2: Seq<char>)
    ensures
        recorrer_linea(e, s1 + s2) == recorrer_linea(recorrer_linea(e, s1), s2),
    decreases s2.len(),
{
    if s2.len() == 0 {
        assert(s1 + s2 =~= s1);
    } else {
        lema_recorrer_concat(e, s1, s2.drop_last());
        assert((s1 + s2).drop_last() =~= s1 + s2.drop_last());
        assert((s1 + s2).last() == s2.last());
    }
}

/// Characters that are neither quote nor backslash, read outside an escape,
/// join the word being read, provided they are not whitespace outside quotes.
proof fn lema_recorrer_literal(e: EstadoLinea, s: Seq<char>)
    requires
        !e.escapado,
        sin_caracter(s, '"'),
        sin_caracter(s, '\\'),
        e.en_comillas || (forall|i: int| 0 <= i < s.len() ==> !es_blanco_spec(#[trigger] s[i])),
    ensures
        recorrer_linea(e, s) == (EstadoLinea { actual: e.actual + s, ..e }),
    decreases s.len(),
{
    if s.len() == 0 {
        assert(e.actual + s =~= e.actual);
    } else {
        let previo = s.drop_last();
        assert forall|i: int| 0 <= i < previo.len() implies previo[i] != '"' && previo[i] != '\\' by {
            assert(previo[i] == s[i]);
        }
        if !e.en_comillas {
            assert forall|i: int| 0 <= i < previo.len() implies !es_blanco_spec(#[trigger] previo[i]) by {
                assert(previo[i] == s[i]);
            }
        }
        lema_recorrer_literal(e, previo);
        assert(s.last() == s[s.len() - 1]);
        assert((e.actual + previo).push(s.last()) =~= e.actual + s);
    }
}

/// Inside quotes, an escaped text is read back as the text itself.
proof fn lema_recorrer_escapado(e: EstadoLinea, v: Seq<char>)
    requires
        !e.escapado,
        e.en_comillas,
        sin_caracter(v, '\\'),
    ensures
        recorrer_linea(e, escapar_comillas(v)) == (EstadoLinea { actual: e.actual + v, ..e }),
    decreases v.len(),
{
    if v.len() == 0 {
        assert(e.actual + v =~= e.actual);
        assert(escapar_comillas(v) == Seq::<char>::empty());
        assert(recorrer_linea(e, Seq::<char>::empty()) == e);
    } else {
        let previo = v.drop_last();
        assert forall|i: int| 0 <= i < previo.len() implies previo[i] != '\\' by {
            assert(previo[i] == v[i]);
        }
        lema_recorrer_escapado(e, previo);
        let c = v.last();
        assert(c == v[v.len() - 1]);
        let medio = EstadoLinea { actual: e.actual + previo, ..e };
        if c == '"' {
            lema_recorrer_concat(e, escapar_comillas(previo), seq!['\\', '"']);
            assert(seq!['\\'] + seq!['"'] =~= seq!['\\', '"']);
            lema_recorrer_concat(medio, seq!['\\'], seq!['"']);
            lema_recorrer_uno(medio, '\\');
            lema_recorrer_uno(paso_linea(medio, '\\'), '"');
        } else {
            lema_recorrer_concat(e, escapar_comillas(previo), seq![c]);
            lema_recorrer_uno(medio, c);
        }
        assert((e.actual + previo).push(c) =~= e.actual + v);
    }
}

/// A quoted field, read between words, becomes the word being read.
proof fn lema_campo(e: EstadoLinea, escrito: Seq<char>, leido: Seq<char>, escapado: bool)
    requires
        !e.escapado,
        !e.en_comillas,
        e.actual.len() == 0,
        sin_caracter(leido, '\\'),
        escapado ==> escrito == escapar_comillas(leido),
        !escapado ==> escrito == leido && sin_caracter(leido, '"'),
    ensures
        recorrer_linea(e, entre_comillas(escrito)) == (EstadoLinea { actual: leido, ..e }),
{
    let abre = paso_linea(e, '"');
    lema_recorrer_uno(e, '"');
    if escapado {
        lema_recorrer_escapado(abre, leido);
    } else {
        lema_recorrer_literal(abre, leido);
    }
    assert(abre.actual + leido =~= leido);
    let dentro = EstadoLinea { actual: leido, ..abre };
    lema_recorrer_uno(dentro, '"');
    lema_recorrer_concat(e, seq!['"'], escrito);
    lema_recorrer_concat(e, seq!['"'] + escrito, seq!['"']);
}

/// A space after a word ends it.
proof fn lema_espacio(e: EstadoLinea)
    requires
        !e.escapado,
        !e.en_comillas,
        e.actual.len() > 0,
    ensures
        recorrer_linea(e, seq![' ']) == (EstadoLinea { partes: e.partes.push(e.actual), actual: seq![], ..e }),
{
    lema_recorrer_uno(e, ' ');
    assert(es_blanco_spec(' '));
}

/// The words of a data line are its key and its value.
proof fn lema_partes_linea_data(k: Seq<char>, v: Seq<char>)
    requires
        clave_representable(k),
        valor_representable(v),
    ensures
        partes_de_linea(linea_data_spec(k, escapar_comillas(v))) == seq![k, v],
{
    let e0 = estado_inicial();
    lema_campo(e0, k, k, false);
    let e1 = EstadoLinea { actual: k, ..e0 };
    lema_espacio(e1);
    let e2 = EstadoLinea { partes: seq![k], actual: seq![], ..e0 };
    assert(e1.partes.push(e1.actual) =~= seq![k]);
    lema_campo(e2, escapar_comillas(v), v, true);
    lema_recorrer_concat(e0, entre_comillas(k), seq![' ']);
    lema_recorrer_concat(e0, entre_comillas(k) + seq![' '], entre_comillas(escapar_comillas(v)));
    assert(seq![k].push(v) =~= seq![k, v]);
}

/// The words of a log line are `set`, the key and, for a binding, the value.
proof fn lema_partes_linea_log(k: Seq<char>, v: Option<Seq<char>>)
    requires
        clave_representable(k),
        v matches Some(v) ==> valor_representable(v),
    ensures
        v matches Some(v) ==> partes_de_linea("set"@ + seq![' '] + entre_comillas(k) + seq![' '] + entre_comillas(escapar_comillas(v))) == seq!["set"@, k, v],
        v is None ==> partes_de_linea("set"@ + seq![' '] + entre_comillas(k)) == seq!["set"@, k],
{
    reveal_strlit("set");
    let set = "set"@;
    let e0 = estado_inicial();
    assert(set =~= seq!['s', 'e', 't']);
    lema_recorrer_literal(e0, set);
    let e1 = EstadoLinea { actual: set, ..e0 };
    assert(e0.actual + set =~= set);
    lema_espacio(e1);
    let e2 = EstadoLinea { partes: seq![set], actual: seq![], ..e0 };
    assert(e1.partes.push(e1.actual) =~= seq![set]);
    lema_recorrer_concat(e0, set, seq![' ']);
    lema_campo(e2, k, k, false);
    lema_recorrer_concat(e0, set + seq![' '], entre_comillas(k));
    let e3 = EstadoLinea { actual: k, ..e2 };
    if let Some(v) = v {
        lema_espacio(e3);
        let e4 = EstadoLinea { partes: seq![set, k], actual: seq![], ..e0 };
        assert(e3.partes.push(e3.actual) =~= seq![set, k]);
        lema_recorrer_concat(e0, set + seq![' '] + entre_comillas(k), seq![' ']);
        lema_campo(e4, escapar_comillas(v), v, true);
        lema_recorrer_concat(e0, set + seq![' '] + entre_comillas(k) + seq![' '], entre_comillas(escapar_comillas(v)));
        assert(seq![set, k].push(v) =~= seq![set, k, v]);
    } else {
        assert(seq![set].push(k) =~= seq![set, k]);
    }
}

/// Trimming leaves alone a text that neither starts nor ends with whitespace.
proof fn lema_recortado_igual(s: Seq<char>)
    requires
        s.len() > 0,
        !es_blanco_spec(s[0]),
        !es_blanco_spec(s.last()),
    ensures
        recortado(s) == s,
{
    assert(sin_blancos_inicio(s) == s);
    assert(sin_blancos_final(s) == s);
}

/// Escaping adds no line break.
proof fn lema_escapar_sin_salto(v: Seq<char>)
    requires
        sin_caracter(v, '\n'),
    ensures
        sin_caracter(escapar_comillas(v), '\n'),
    decreases v.len(),
{
    if v.len() > 0 {
        let previo = v.drop_last();
        assert forall|i: int| 0 <= i < previo.len() implies previo[i] != '\n' by {
            assert(previo[i] == v[i]);
        }
        lema_escapar_sin_salto(previo);
        assert(v.last() == v[v.len() - 1]);
    }
}

/// A text without line breaks is one line.
proof fn lema_lineas_sin_salto(l: Seq<char>)
    requires
        sin_caracter(l, '\n'),
    ensures
        lineas(l) == seq![l],
    decreases l.len(),
{
    if l.len() == 0 {
        assert(l =~= Seq::<char>::empty());
        assert(lineas(l) =~= seq![l]);
    } else {
        let previo = l.drop_last();
        assert forall|i: int| 0 <= i < previo.len() implies previo[i] != '\n' by {
            assert(previo[i] == l[i]);
        }
        lema_lineas_sin_salto(previo);
        assert(l.last() == l[l.len() - 1]);
        assert(previo.push(l.last()) =~= l);
        assert(seq![previo].update(0, previo.push(l.last())) =~= seq![l]);
    }
}

/// A line break followed by more text: the lines of the whole are those
/// before the break followed by the lines of the rest.
proof fn lema_lineas_concat(x: Seq<char>, y: Seq<char>)
    requires
        lineas(x).last() == Seq::<char>::empty(),
    ensures
        lineas(x + y) == lineas(x).drop_last() + lineas(y),
    decreases y.len(),
{
    lema_lineas_no_vacio(x);
    lema_lineas_no_vacio(y);
    if y.len() == 0 {
        assert(x + y =~= x);
        assert(lineas(x).drop_last() + lineas(y) =~= lineas(x));
    } else {
        let yp = y.drop_last();
        lema_lineas_concat(x, yp);
        lema_lineas_no_vacio(yp);
        assert((x + y).drop_last() =~= x + yp);
        assert((x + y).last() == y.last());
        let a = lineas(x).drop_last();
        let b = lineas(yp);
        if y.last() == '\n' {
            assert((a + b).push(seq![]) =~= a + b.push(seq![]));
        } else {
            assert((a + b).update((a + b).len() - 1, (a + b).last().push(y.last())) =~= a + b.update(
                b.len() - 1,
                b.last().push(y.last()),
            ));
        }
    }
}

/// A line followed by a line break makes that line and an empty one.
proof fn lema_lineas_linea(l: Seq<char>)
    requires
        sin_caracter(l, '\n'),
    ensures
        lineas(l + seq!['\n']) == seq![l, Seq::<char>::empty()],
{
    lema_lineas_sin_salto(l);
    let t = l + seq!['\n'];
    assert(t.drop_last() =~= l);
    assert(seq![l].push(Seq::<char>::empty()) =~= seq![l, Seq::<char>::empty()]);
}

/// An empty last line changes nothing.
proof fn lema_cargar_linea_vacia(m: Map<Seq<char>, Seq<char>>, ls: Seq<Seq<char>>, es_log: bool)
    ensures
        cargar_lineas(m, ls.push(Seq::<char>::empty()), es_log) == cargar_lineas(m, ls, es_log),
{
    let t = ls.push(Seq::<char>::empty());
    assert(t.drop_last() =~= ls);
    assert(recortado(Seq::<char>::empty()) =~= Seq::<char>::empty());
}

/// The lines of the data file written for `es`, and what they load.
proof fn lema_cargar_contenido(es: Seq<(Seq<char>, Seq<char>)>)
    requires
        forall|i: int|
            0 <= i < es.len() ==> clave_representable(#[trigger] es[i].0) && valor_representable(es[i].1),
    ensures
        lineas(contenido_data_spec(es, true)) == Seq::new(
            es.len(),
            |i: int| linea_data_spec(es[i].0, escapar_comillas(es[i].1)),
        ).push(Seq::<char>::empty()),
        cargar_lineas(Map::empty(), lineas(contenido_data_spec(es, true)), false) == Some(mapa_de(es)),
    decreases es.len(),
{
    let q = Seq::new(es.len(), |i: int| linea_data_spec(es[i].0, escapar_comillas(es[i].1)));
    if es.len() == 0 {
        assert(lineas(contenido_data_spec(es, true)) =~= q.push(Seq::<char>::empty()));
        lema_cargar_linea_vacia(Map::empty(), q, false);
        assert(mapa_de(es) == Map::<Seq<char>, Seq<char>>::empty());
    } else {
        let previas = es.drop_last();
        assert forall|i: int| 0 <= i < previas.len() implies clave_representable(#[trigger] previas[i].0)
            && valor_representable(previas[i].1) by {
            assert(previas[i] == es[i]);
        }
        lema_cargar_contenido(previas);
        let qp = Seq::new(previas.len(), |i: int| linea_data_spec(previas[i].0, escapar_comillas(previas[i].1)));
        let (k, v) = es.last();
        assert(clave_representable(es[es.len() - 1].0));
        let linea = linea_data_spec(k, escapar_comillas(v));
        let x = contenido_data_spec(previas, true);
        assert(contenido_data_spec(es, true) =~= x + (linea + seq!['\n']));
        lema_escapar_sin_salto(v);
        assert(sin_caracter(linea, '\n')) by {
            assert forall|i: int| 0 <= i < linea.len() implies linea[i] != '\n' by {
                let ev = escapar_comillas(v);
                if 1 <= i < 1 + k.len() {
                    assert(linea[i] == k[i - 1]);
                } else if 4 + k.len() <= i < 4 + k.len() + ev.len() {
                    assert(linea[i] == ev[i - 4 - k.len()]);
                }
            }
        }
        lema_lineas_linea(linea);
        assert(lineas(x).last() == Seq::<char>::empty());
        lema_lineas_concat(x, linea + seq!['\n']);
        assert(lineas(x).drop_last() =~= qp);
        assert(q =~= qp.push(linea));
        assert(lineas(contenido_data_spec(es, true)) =~= q.push(Seq::<char>::empty()));
        // what the lines load
        lema_cargar_linea_vacia(Map::empty(), q, false);
        lema_cargar_linea_vacia(Map::empty(), qp, false);
        assert(q.drop_last() =~= qp);
        assert(linea[0] == '"');
        assert(linea.last() == '"');
        lema_recortado_igual(linea);
        lema_partes_linea_data(k, v);
    }
}

/// UTF-8 encoding of a concatenation is the concatenation of the encodings.
proof fn lema_encode_concat(a: Seq<char>, b: Seq<char>)
    ensures
        encode_utf8(a + b) == encode_utf8(a) + encode_utf8(b),
    decreases a.len(),
{
    if a.len() == 0 {
        assert(a + b =~= b);
        assert(encode_utf8(a) + encode_utf8(b) =~= encode_utf8(b));
    } else {
        lema_encode_concat(a.drop_first(), b);
        assert((a + b).drop_first() =~= a.drop_first() + b);
        assert((a + b)[0] == a[0]);
        assert(encode_utf8(a + b) =~= encode_utf8(a) + encode_utf8(b));
    }
}

/// A snapshot loads back: the data file written for a database, with an
/// empty log, loads into that same database, provided its keys and values
/// are ones the files can hold.
pub proof fn ley_snapshot_recupera_base(base: BaseDatos)
    requires
        base.bien_formada(),
        forall|k: Seq<char>|
            #[trigger] base@.contains_key(k) ==> clave_representable(k) && valor_representable(base@[k]),
    ensures
        cargar_spec(encode_utf8(contenido_data_spec(base.entradas_vista(), true)), Seq::<u8>::empty())
            == Ok::<Map<Seq<char>, Seq<char>>, KvErrores>(base@),
{
    base.lema_entradas();
    let es = base.entradas_vista();
    assert forall|i: int| 0 <= i < es.len() implies clave_representable(#[trigger] es[i].0)
        && valor_representable(es[i].1) by {
        assert(base@.contains_key(es[i].0));
    }
    lema_cargar_contenido(es);
    let texto = contenido_data_spec(es, true);
    encode_utf8_valid_utf8(texto);
    encode_utf8_decode_utf8(texto);
    let vacio = Seq::<u8>::empty();
    assert(valid_utf8(vacio));
    assert(decode_utf8(vacio) =~= Seq::<char>::empty());
    assert(lineas(Seq::<char>::empty()) =~= seq![Seq::<char>::empty()]);
    assert(seq![Seq::<char>::empty()] =~= Seq::<Seq<char>>::empty().push(Seq::<char>::empty()));
    lema_cargar_linea_vacia(base@, Seq::<Seq<char>>::empty(), true);
}

/// A character absent from two texts is absent from their concatenation.
proof fn lema_sin_concat(a: Seq<char>, b: Seq<char>, c: char)
    requires
        sin_caracter(a, c),
        sin_caracter(b, c),
    ensures
        sin_caracter(a + b, c),
{
    assert forall|i: int| 0 <= i < (a + b).len() implies (a + b)[i] != c by {
        if i < a.len() {
            assert((a + b)[i] == a[i]);
        } else {
            assert((a + b)[i] == b[i - a.len()]);
        }
    }
}

/// The log line of an operation, without its line break.
pub open spec fn cuerpo_log(mensaje: MensajePersistencia) -> Seq<char> {
    match mensaje {
        MensajePersistencia::Asignar { clave, valor } => "set"@ + seq![' '] + entre_comillas(clave@) + seq![' ']
            + entre_comillas(escapar_comillas(valor@)),
        MensajePersistencia::Delete { clave } => "set"@ + seq![' '] + entre_comillas(clave@),
        MensajePersistencia::Snapshot => Seq::empty(),
    }
}

/// One log line loads as the operation that wrote it.
#[verifier::spinoff_prover]
#[verifier::rlimit(40)]
proof fn lema_cargar_linea_log(m: Map<Seq<char>, Seq<char>>, mensaje: MensajePersistencia)
    requires
        mensaje_representable(mensaje),
    ensures
        linea_log_spec(mensaje) == Some(cuerpo_log(mensaje) + seq!['\n']),
        sin_caracter(cuerpo_log(mensaje), '\n'),
        cuerpo_log(mensaje).len() > 0,
        !es_blanco_spec(cuerpo_log(mensaje)[0]),
        !es_blanco_spec(cuerpo_log(mensaje).last()),
        cargar_linea(m, cuerpo_log(mensaje), true) == Some(aplicar_spec(m, mensaje)),
{
    reveal_strlit("set");
    let set = "set"@;
    assert(set =~= seq!['s', 'e', 't']);
    assert(sin_caracter(set + seq![' '], '\n'));
    assert(sin_caracter(seq!['"'], '\n'));
    let cuerpo = cuerpo_log(mensaje);
    match mensaje {
        MensajePersistencia::Asignar { clave, valor } => {
            let k = clave@;
            let v = valor@;
            lema_escapar_sin_salto(v);
            lema_sin_concat(seq!['"'], k, '\n');
            lema_sin_concat(seq!['"'] + k, seq!['"'], '\n');
            lema_sin_concat(seq!['"'], escapar_comillas(v), '\n');
            lema_sin_concat(seq!['"'] + escapar_comillas(v), seq!['"'], '\n');
            lema_sin_concat(set + seq![' '], entre_comillas(k), '\n');
            assert(sin_caracter(seq![' '], '\n'));
            lema_sin_concat(set + seq![' '] + entre_comillas(k), seq![' '], '\n');
            lema_sin_concat(set + seq![' '] + entre_comillas(k) + seq![' '], entre_comillas(escapar_comillas(v)), '\n');
            assert(linea_log_spec(mensaje) == Some(cuerpo + seq!['\n']));
            lema_partes_linea_log(k, Some(v));
            assert(cuerpo[0] == 's');
            assert(cuerpo.last() == '"');
            lema_recortado_igual(cuerpo);
        },
        MensajePersistencia::Delete { clave } => {
            let k = clave@;
            lema_sin_concat(seq!['"'], k, '\n');
            lema_sin_concat(seq!['"'] + k, seq!['"'], '\n');
            lema_sin_concat(set + seq![' '], entre_comillas(k), '\n');
            assert(linea_log_spec(mensaje) == Some(cuerpo + seq!['\n']));
            lema_partes_linea_log(k, None);
            assert(cuerpo[0] == 's');
            assert(cuerpo.last() == '"');
            lema_recortado_igual(cuerpo);
        },
        MensajePersistencia::Snapshot => {},
    }
}

/// The lines of a concatenation: the last line of the first text runs on
/// into the first line of the second.
proof fn lema_lineas_concat_general(x: Seq<char>, y: Seq<char>)
    ensures
        lineas(x + y) == lineas(x).drop_last() + seq![lineas(x).last() + lineas(y)[0]] + lineas(y).skip(1),
    decreases y.len(),
{
    lema_lineas_no_vacio(x);
    lema_lineas_no_vacio(y);
    let a = lineas(x).drop_last();
    let u = lineas(x).last();
    if y.len() == 0 {
        assert(x + y =~= x);
        assert(lineas(y) =~= seq![Seq::<char>::empty()]);
        assert(u + lineas(y)[0] =~= u);
        assert(a + seq![u + lineas(y)[0]] + lineas(y).skip(1) =~= lineas(x));
    } else {
        let yp = y.drop_last();
        let c = y.last();
        lema_lineas_concat_general(x, yp);
        lema_lineas_no_vacio(yp);
        assert((x + y).drop_last() =~= x + yp);
        assert((x + y).last() == c);
        let ly = lineas(yp);
        let b0 = ly[0];
        let bs = ly.skip(1);
        let antes = a + seq![u + b0] + bs;
        assert(lineas(x + yp) == antes);
        if c == '\n' {
            assert(lineas(y) == ly.push(Seq::<char>::empty()));
            assert(lineas(y)[0] == b0);
            assert(lineas(y).skip(1) =~= bs.push(Seq::<char>::empty()));
            assert(antes.push(Seq::<char>::empty()) =~= a + seq![u + b0] + bs.push(Seq::<char>::empty()));
        } else {
            assert(lineas(y) == ly.update(ly.len() - 1, ly.last().push(c)));
            if bs.len() == 0 {
                assert(ly.len() == 1);
                assert(lineas(y)[0] == b0.push(c));
                assert(lineas(y).skip(1) =~= Seq::<Seq<char>>::empty());
                assert((u + b0).push(c) =~= u + b0.push(c));
                assert(antes.update(antes.len() - 1, antes.last().push(c)) =~= a + seq![u + b0.push(c)]
                    + lineas(y).skip(1));
            } else {
                assert(lineas(y)[0] == b0);
                assert(lineas(y).skip(1) =~= bs.update(bs.len() - 1, bs.last().push(c)));
                assert(antes.update(antes.len() - 1, antes.last().push(c)) =~= a + seq![u + b0]
                    + bs.update(bs.len() - 1, bs.last().push(c)));
            }
        }
    }
}

/// Leading whitespace that is all there is goes away in front of more text.
proof fn lema_inicio_blanco(w: Seq<char>, b: Seq<char>)
    requires
        sin_blancos_inicio(w).len() == 0,
    ensures
        sin_blancos_inicio(w + b) == sin_blancos_inicio(b),
    decreases w.len(),
{
    if w.len() == 0 {
        assert(w + b =~= b);
    } else {
        assert(es_blanco_spec(w[0]));
        assert((w + b)[0] == w[0]);
        assert((w + b).drop_first() =~= w.drop_first() + b);
        lema_inicio_blanco(w.drop_first(), b);
    }
}

/// A text that starts with a character other than whitespace keeps it when
/// its trailing whitespace goes.
proof fn lema_final_no_vacio(s: Seq<char>)
    requires
        s.len() > 0,
        !es_blanco_spec(s[0]),
    ensures
        sin_blancos_final(s).len() > 0,
    decreases s.len(),
{
    if s.len() > 1 && es_blanco_spec(s.last()) {
        assert(s.drop_last()[0] == s[0]);
        lema_final_no_vacio(s.drop_last());
    }
}

/// Whitespace in front of a text that starts otherwise does not change how
/// the text trims.
proof fn lema_recortado_tras_blancos(w: Seq<char>, b: Seq<char>)
    requires
        recortado(w).len() == 0,
        b.len() > 0,
        !es_blanco_spec(b[0]),
    ensures
        recortado(w + b) == recortado(b),
{
    if sin_blancos_inicio(w).len() > 0 {
        lema_inicio_no_blanco(w);
        lema_final_no_vacio(sin_blancos_inicio(w));
    }
    lema_inicio_blanco(w, b);
}

/// Once leading whitespace is gone, what is left starts otherwise.
proof fn lema_inicio_no_blanco(w: Seq<char>)
    ensures
        sin_blancos_inicio(w).len() > 0 ==> !es_blanco_spec(sin_blancos_inicio(w)[0]),
    decreases w.len(),
{
    if w.len() > 0 && es_blanco_spec(w[0]) {
        lema_inicio_no_blanco(w.drop_first());
    }
}

/// The log replays an operation: when what the log holds after its last
/// line break is blank (in particular when the log is empty or ends with a
/// line break), appending the line of a binding or a removal makes the next
/// load give the database loaded so far with that operation applied.
pub proof fn ley_log_reproduce_operacion(data: Seq<u8>, log: Seq<u8>, mensaje: MensajePersistencia)
    requires
        cargar_spec(data, log) is Ok,
        recortado(lineas(decode_utf8(log)).last()).len() == 0,
        mensaje_representable(mensaje),
    ensures
        linea_log_spec(mensaje) matches Some(linea) && cargar_spec(data, log) matches Ok(m)
            && cargar_spec(data, log + encode_utf8(linea)) == Ok::<Map<Seq<char>, Seq<char>>, KvErrores>(aplicar_spec(m, mensaje)),
{
    let m = cargar_spec(data, log)->Ok_0;
    let m0 = cargar_lineas(Map::empty(), lineas(decode_utf8(data)), false)->Some_0;
    let texto = decode_utf8(log);
    lema_cargar_linea_log(m, mensaje);
    let cuerpo = cuerpo_log(mensaje);
    let linea = cuerpo + seq!['\n'];
    // the bytes of the longer log decode to the longer text
    encode_utf8_valid_utf8(linea);
    valid_utf8_concat(log, encode_utf8(linea));
    decode_utf8_encode_utf8(log);
    lema_encode_concat(texto, linea);
    encode_utf8_decode_utf8(texto + linea);
    assert(decode_utf8(log + encode_utf8(linea)) == texto + linea);
    // the lines of the longer text
    lema_lineas_no_vacio(texto);
    let previas = lineas(texto).drop_last();
    let resto = lineas(texto).last();
    assert(lineas(texto) =~= previas.push(resto));
    lema_lineas_concat_general(texto, linea);
    lema_lineas_linea(cuerpo);
    assert(lineas(linea).skip(1) =~= seq![Seq::<char>::empty()]);
    assert(lineas(texto + linea) =~= previas.push(resto + cuerpo).push(Seq::<char>::empty()));
    // the blank rest loads as nothing
    assert(previas.push(resto).drop_last() =~= previas);
    assert(cargar_linea(cargar_lineas(m0, previas, true)->Some_0, resto, true) == cargar_lineas(m0, previas, true)) by {
        if cargar_lineas(m0, previas, true) is Some {
            assert(cargar_linea(cargar_lineas(m0, previas, true)->Some_0, resto, true) == Some(cargar_lineas(m0, previas, true)->Some_0));
        }
    }
    assert(cargar_lineas(m0, previas, true) == Some(m));
    // the rest runs into the new line, which trims to the new line
    lema_recortado_tras_blancos(resto, cuerpo);
    assert(!es_blanco_spec(cuerpo.last()));
    lema_recortado_igual(cuerpo);
    assert(cargar_linea(m, resto + cuerpo, true) == cargar_linea(m, cuerpo, true));
    lema_cargar_linea_vacia(m0, previas.push(resto + cuerpo), true);
    assert(previas.push(resto + cuerpo).drop_last() =~= previas);
}

/// `t` with a backslash before each backslash and each double quote.
pub open spec fn escapar_todo(t: Seq<char>) -> Seq<char>
    decreases t.len(),
{
    if t.len() == 0 {
        seq![]
    } else {
        escapar_todo(t.drop_last()) + (if t.last() == '"' || t.last() == '\\' {
            seq!['\\', t.last()]
        } else {
            seq![t.last()]
        })
    }
}

/// A word written so that a line carries it whatever it holds: escaped and
/// between double quotes.
pub open spec fn citar(t: Seq<char>) -> Seq<char> {
    entre_comillas(escapar_todo(t))
}

/// Texts joined by single spaces.
pub open spec fn unir_con_espacios(ws: Seq<Seq<char>>) -> Seq<char>
    decreases ws.len(),
{
    if ws.len() == 0 {
        seq![]
    } else if ws.len() == 1 {
        ws[0]
    } else {
        unir_con_espacios(ws.drop_last()) + seq![' '] + ws.last()
    }
}

/// Inside quotes, a fully escaped text is read back as the text itself.
proof fn lema_recorrer_escapado_todo(e: EstadoLinea, v: Seq<char>)
    requires
        !e.escapado,
        e.en_comillas,
    ensures
        recorrer_linea(e, escapar_todo(v)) == (EstadoLinea { actual: e.actual + v, ..e }),
    decreases v.len(),
{
    if v.len() == 0 {
        assert(e.actual + v =~= e.actual);
        assert(escapar_todo(v) == Seq::<char>::empty());
        assert(recorrer_linea(e, Seq::<char>::empty()) == e);
    } else {
        let previo = v.drop_last();
        lema_recorrer_escapado_todo(e, previo);
        let c = v.last();
        let medio = EstadoLinea { actual: e.actual + previo, ..e };
        if c == '"' || c == '\\' {
            lema_recorrer_concat(e, escapar_todo(previo), seq!['\\', c]);
            assert(seq!['\\'] + seq![c] =~= seq!['\\', c]);
            lema_recorrer_concat(medio, seq!['\\'], seq![c]);
            lema_recorrer_uno(medio, '\\');
            lema_recorrer_uno(paso_linea(medio, '\\'), c);
        } else {
            lema_recorrer_concat(e, escapar_todo(previo), seq![c]);
            lema_recorrer_uno(medio, c);
        }
        assert((e.actual + previo).push(c) =~= e.actual + v);
    }
}

/// A quoted word, read between words, becomes the word being read.
proof fn lema_campo_citado(e: EstadoLinea, t: Seq<char>)
    requires
        !e.escapado,
        !e.en_comillas,
        e.actual.len() == 0,
    ensures
        recorrer_linea(e, citar(t)) == (EstadoLinea { actual: t, ..e }),
{
    let abre = paso_linea(e, '"');
    lema_recorrer_uno(e, '"');
    lema_recorrer_escapado_todo(abre, t);
    assert(abre.actual + t =~= t);
    let dentro = EstadoLinea { actual: t, ..abre };
    lema_recorrer_uno(dentro, '"');
    lema_recorrer_concat(e, seq!['"'], escapar_todo(t));
    lema_recorrer_concat(e, seq!['"'] + escapar_todo(t), seq!['"']);
}

/// Where reading a line of quoted words stands: all words but the last
/// completed, the last being read.
proof fn lema_recorrer_citadas(toks: Seq<Seq<char>>)
    requires
        toks.len() > 0,
        forall|i: int| 0 <= i < toks.len() ==> (#[trigger] toks[i]).len() > 0,
    ensures
        recorrer_linea(estado_inicial(), unir_con_espacios(toks.map_values(|t: Seq<char>| citar(t))))
            == (EstadoLinea { partes: toks.drop_last(), actual: toks.last(), en_comillas: false, escapado: false }),
    decreases toks.len(),
{
    let citadas = toks.map_values(|t: Seq<char>| citar(t));
    let e0 = estado_inicial();
    if toks.len() == 1 {
        lema_campo_citado(e0, toks[0]);
        assert(toks.drop_last() =~= Seq::<Seq<char>>::empty());
    } else {
        let previas = toks.drop_last();
        assert forall|i: int| 0 <= i < previas.len() implies (#[trigger] previas[i]).len() > 0 by {
            assert(previas[i] == toks[i]);
        }
        lema_recorrer_citadas(previas);
        assert(citadas.drop_last() =~= previas.map_values(|t: Seq<char>| citar(t)));
        assert(citadas.last() == citar(toks.last()));
        let antes = unir_con_espacios(previas.map_values(|t: Seq<char>| citar(t)));
        let e1 = EstadoLinea { partes: previas.drop_last(), actual: previas.last(), en_comillas: false, escapado: false };
        assert(previas.last() == toks[toks.len() - 2]);
        lema_espacio(e1);
        let e2 = EstadoLinea { partes: previas, actual: seq![], en_comillas: false, escapado: false };
        assert(previas.drop_last().push(previas.last()) =~= previas);
        lema_campo_citado(e2, toks.last());
        lema_recorrer_concat(e0, antes, seq![' ']);
        lema_recorrer_concat(e0, antes + seq![' '], citar(toks.last()));
    }
}

/// Quoting carries any words through a line: non-empty words, each escaped
/// and quoted and joined by single spaces, split back into the same words,
/// spaces, quotes and backslashes included.
pub proof fn ley_citar_preserva_palabras(toks: Seq<Seq<char>>)
    requires
        forall|i: int| 0 <= i < toks.len() ==> (#[trigger] toks[i]).len() > 0,
    ensures
        partes_de_linea(unir_con_espacios(toks.map_values(|t: Seq<char>| citar(t)))) == toks,
{
    if toks.len() == 0 {
        assert(toks.map_values(|t: Seq<char>| citar(t)).len() == 0);
        assert(toks =~= Seq::<Seq<char>>::empty());
    } else {
        lema_recorrer_citadas(toks);
        assert(toks.drop_last().push(toks.last()) =~= toks);
    }
}

/// The log lines of a sequence of operations, one after the other.
pub open spec fn lineas_log(ms: Seq<MensajePersistencia>) -> Seq<char>
    decreases ms.len(),
{
    if ms.len() == 0 {
        seq![]
    } else {
        lineas_log(ms.drop_last()) + linea_log_spec(ms.last())->Some_0
    }
}

/// The database after a sequence of operations, applied in order.
pub open spec fn aplicar_todos(m: Map<Seq<char>, Seq<char>>, ms: Seq<MensajePersistencia>) -> Map<Seq<char>, Seq<char>>
    decreases ms.len(),
{
    if ms.len() == 0 {
        m
    } else {
        aplicar_spec(aplicar_todos(m, ms.drop_last()), ms.last())
    }
}

/// Bytes of valid UTF-8 followed by the encoding of a text decode to the
/// decoded bytes followed by the text.
proof fn lema_decode_mas_texto(log: Seq<u8>, t: Seq<char>)
    requires
        valid_utf8(log),
    ensures
        valid_utf8(log + encode_utf8(t)),
        decode_utf8(log + encode_utf8(t)) == decode_utf8(log) + t,
{
    encode_utf8_valid_utf8(t);
    valid_utf8_concat(log, encode_utf8(t));
    decode_utf8_encode_utf8(log);
    lema_encode_concat(decode_utf8(log), t);
    encode_utf8_decode_utf8(decode_utf8(log) + t);
}

/// The log replays a whole sequence of operations: when what the log holds
/// after its last line break is blank, appending the lines of bindings and
/// removals, one after the other, makes the next load give the database
/// loaded so far with all of them applied in order.
pub proof fn ley_log_reproduce_secuencia(data: Seq<u8>, log: Seq<u8>, ms: Seq<MensajePersistencia>)
    requires
        cargar_spec(data, log) is Ok,
        recortado(lineas(decode_utf8(log)).last()).len() == 0,
        forall|i: int| 0 <= i < ms.len() ==> mensaje_representable(#[trigger] ms[i]),
    ensures
        cargar_spec(data, log) matches Ok(m) && cargar_spec(data, log + encode_utf8(lineas_log(ms)))
            == Ok::<Map<Seq<char>, Seq<char>>, KvErrores>(aplicar_todos(m, ms)),
    decreases ms.len(),
{
    let m = cargar_spec(data, log)->Ok_0;
    if ms.len() == 0 {
        assert(encode_utf8(lineas_log(ms)) =~= Seq::<u8>::empty());
        assert(log + encode_utf8(lineas_log(ms)) =~= log);
    } else {
        let previos = ms.drop_last();
        assert forall|i: int| 0 <= i < previos.len() implies mensaje_representable(#[trigger] previos[i]) by {
            assert(previos[i] == ms[i]);
        }
        ley_log_reproduce_secuencia(data, log, previos);
        let ultimo = ms.last();
        assert(mensaje_representable(ms[ms.len() - 1]));
        let hasta = log + encode_utf8(lineas_log(previos));
        // the log so far still ends in a blank rest
        lema_decode_mas_texto(log, lineas_log(previos));
        if previos.len() == 0 {
            assert(lineas_log(previos) =~= Seq::<char>::empty());
            assert(decode_utf8(hasta) =~= decode_utf8(log));
        } else {
            let x = lineas_log(previos);
            lema_cargar_linea_log(m, previos.last());
            assert(x.last() == '\n');
            assert((decode_utf8(log) + x).last() == '\n');
            assert(lineas(decode_utf8(hasta)).last() == Seq::<char>::empty());
            assert(recortado(Seq::<char>::empty()) =~= Seq::<char>::empty());
        }
        ley_log_reproduce_operacion(data, hasta, ultimo);
        let linea = linea_log_spec(ultimo)->Some_0;
        lema_encode_concat(lineas_log(previos), linea);
        assert(hasta + encode_utf8(linea) =~= log + encode_utf8(lineas_log(ms)));
    }
}

/// Where splitting a line without quotes or backslashes stands: the
/// non-empty pieces before the last whitespace completed, the last piece
/// being read.
proof fn lema_recorrer_sin_comillas(s: Seq<char>)
    requires
        sin_caracter(s, '"'),
        sin_caracter(s, '\\'),
    ensures
        trozos(s).len() >= 1,
        recorrer_linea(estado_inicial(), s) == (EstadoLinea {
            partes: no_vacias(trozos(s).drop_last()),
            actual: trozos(s).last(),
            en_comillas: false,
            escapado: false,
        }),
    decreases s.len(),
{
    if s.len() == 0 {
        assert(trozos(s).drop_last() =~= Seq::<Seq<char>>::empty());
    } else {
        let previo = s.drop_last();
        assert forall|i: int| 0 <= i < previo.len() implies previo[i] != '"' && previo[i] != '\\' by {
            assert(previo[i] == s[i]);
        }
        lema_recorrer_sin_comillas(previo);
        let c = s.last();
        assert(c == s[s.len() - 1]);
        let p = trozos(previo);
        if es_blanco_spec(c) {
            assert(trozos(s).drop_last() =~= p);
            assert(p =~= p.drop_last().push(p.last()));
        } else {
            assert(trozos(s).drop_last() =~= p.drop_last());
        }
    }
}

/// A line without double quotes or backslashes splits at whitespace, with
/// empty words dropped, as `str::split_whitespace` splits it.
pub proof fn ley_sin_comillas_separa_en_blancos(s: Seq<char>)
    requires
        sin_caracter(s, '"'),
        sin_caracter(s, '\\'),
    ensures
        partes_de_linea(s) == palabras(s),
{
    lema_recorrer_sin_comillas(s);
    let t = trozos(s);
    assert(t =~= t.drop_last().push(t.last()));
}

/// The data file and the log load to the database `m`, and what the log
/// holds after its last line break is blank, so that lines appended to it
/// load as well.
pub open spec fn archivos_al_dia(data: Seq<u8>, log: Seq<u8>, m: Map<Seq<char>, Seq<char>>) -> bool {
    &&& cargar_spec(data, log) == Ok::<Map<Seq<char>, Seq<char>>, KvErrores>(m)
    &&& recortado(lineas(decode_utf8(log)).last()).len() == 0
}

/// Files that are up to date with the database stay so when the persistence
/// worker appends the line of a binding or a removal and applies it.
pub proof fn ley_operacion_mantiene_archivos(
    data: Seq<u8>,
    log: Seq<u8>,
    m: Map<Seq<char>, Seq<char>>,
    mensaje: MensajePersistencia,
)
    requires
        archivos_al_dia(data, log, m),
        mensaje_representable(mensaje),
    ensures
        linea_log_spec(mensaje) matches Some(linea) && archivos_al_dia(
            data,
            log + encode_utf8(linea),
            aplicar_spec(m, mensaje),
        ),
{
    ley_log_reproduce_operacion(data, log, mensaje);
    lema_cargar_linea_log(m, mensaje);
    let linea = linea_log_spec(mensaje)->Some_0;
    lema_decode_mas_texto(log, linea);
    let texto = decode_utf8(log) + linea;
    assert(texto.last() == '\n');
    assert(lineas(texto).last() == Seq::<char>::empty());
    assert(recortado(Seq::<char>::empty()) =~= Seq::<char>::empty());
}

/// A snapshot leaves the files up to date with the database: the data file
/// written for it and an empty log, provided its keys and values are ones
/// the files can hold.
pub proof fn ley_snapshot_mantiene_archivos(base: BaseDatos)
    requires
        base.bien_formada(),
        forall|k: Seq<char>|
            #[trigger] base@.contains_key(k) ==> clave_representable(k) && valor_representable(base@[k]),
    ensures
        archivos_al_dia(encode_utf8(contenido_data_spec(base.entradas_vista(), true)), Seq::<u8>::empty(), base@),
{
    ley_snapshot_recupera_base(base);
    let vacio = Seq::<u8>::empty();
    assert(decode_utf8(vacio) =~= Seq::<char>::empty());
    assert(lineas(Seq::<char>::empty()) =~= seq![Seq::<char>::empty()]);
    assert(recortado(Seq::<char>::empty()) =~= Seq::<char>::empty());
}

} // verus!
