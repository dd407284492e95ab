use minikv::minikv::archivo::{cargar_hashmap, interpretar_linea_log};
use minikv::minikv::base_datos::BaseDatos;
use minikv::minikv::errores::KvErrores;
use minikv::minikv::estructuras::{LogCommand, MensajePersistencia};
use minikv::minikv::persistencia::{aplicar_mensaje, contenido_data, linea_log};

fn s(t: &str) -> String {
    t.to_string()
}

fn valor(b: &BaseDatos, k: &str) -> Option<String> {
    b.obtener(&s(k))
}

#[test]
fn insertar_obtener_eliminar() {
    let mut b = BaseDatos::new();
    assert_eq!(b.cantidad(), 0);
    b.insertar(s("a"), s("1"));
    b.insertar(s("b"), s("2"));
    b.insertar(s("a"), s("3"));
    assert_eq!(b.cantidad(), 2);
    assert_eq!(valor(&b, "a"), Some(s("3")));
    assert_eq!(valor(&b, "b"), Some(s("2")));
    assert_eq!(valor(&b, "c"), None);
    b.eliminar(&s("a"));
    b.eliminar(&s("zz"));
    assert_eq!(b.cantidad(), 1);
    assert_eq!(valor(&b, "a"), None);
}

#[test]
fn cargar_data_y_log() {
    let data = b"\"a\" \"1\"\n\n  \"b\" \"dos palabras\"\r\n";
    let log = b"set a 5\nset \"b\"\nset c \"x\\\"y\"\n";
    let b = cargar_hashmap(data, log).ok().unwrap();
    assert_eq!(b.cantidad(), 2);
    assert_eq!(valor(&b, "a"), Some(s("5")));
    assert_eq!(valor(&b, "b"), None);
    assert_eq!(valor(&b, "c"), Some(s("x\"y")));
}

#[test]
fn cargar_vacios() {
    let b = cargar_hashmap(b"", b"").ok().unwrap();
    assert_eq!(b.cantidad(), 0);
}

#[test]
fn cargar_errores() {
    assert!(matches!(cargar_hashmap(b"\"a\"\n", b""), Err(KvErrores::InvalidDataFile)));
    assert!(matches!(cargar_hashmap(b"a b c\n", b""), Err(KvErrores::InvalidDataFile)));
    assert!(matches!(cargar_hashmap(b"a \xff\n", b""), Err(KvErrores::InvalidDataFile)));
    assert!(matches!(cargar_hashmap(b"a b\n", b"get a\n"), Err(KvErrores::InvalidLogFile)));
    assert!(matches!(cargar_hashmap(b"a b\n", b"set\n"), Err(KvErrores::InvalidLogFile)));
    assert!(matches!(cargar_hashmap(b"a b\n", b"set a \xfe\n"), Err(KvErrores::InvalidLogFile)));
    assert!(matches!(cargar_hashmap(b"x\n", b"set\n"), Err(KvErrores::InvalidDataFile)));
}

#[test]
fn lineas_del_log() {
    assert!(matches!(interpretar_linea_log(vec![s("set"), s("k"), s("v")]),
        Some(LogCommand::SET { clave, valor }) if clave == "k" && valor == "v"));
    assert!(matches!(interpretar_linea_log(vec![s("set"), s("k")]), Some(LogCommand::DELETE { clave }) if clave == "k"));
    assert!(interpretar_linea_log(vec![s("SET"), s("k")]).is_none());
    assert!(interpretar_linea_log(vec![s("set")]).is_none());
}

#[test]
fn formato_de_log_y_data() {
    let m = MensajePersistencia::Asignar { clave: s("k"), valor: s("di \"si\"") };
    assert_eq!(linea_log(&m).unwrap(), "set \"k\" \"di \\\"si\\\"\"\n");
    let d = MensajePersistencia::Delete { clave: s("k") };
    assert_eq!(linea_log(&d).unwrap(), "set \"k\"\n");
    assert!(linea_log(&MensajePersistencia::Snapshot).is_none());
    let mut b = BaseDatos::new();
    b.insertar(s("k"), s("v \"w\""));
    assert_eq!(contenido_data(&b, true), "\"k\" \"v \\\"w\\\"\"\n");
    assert_eq!(contenido_data(&b, false), "\"k\" \"v \"w\"\"\n");
}

#[test]
fn snapshot_se_recupera() {
    let mut b = BaseDatos::new();
    b.insertar(s("nombre"), s("Lionel \"Leo\" Messi"));
    b.insertar(s("club"), s("Inter Miami"));
    b.insertar(s("número"), s("10"));
    let data = contenido_data(&b, true);
    let recuperada = cargar_hashmap(data.as_bytes(), b"").ok().unwrap();
    assert_eq!(recuperada.cantidad(), 3);
    assert_eq!(valor(&recuperada, "nombre"), Some(s("Lionel \"Leo\" Messi")));
    assert_eq!(valor(&recuperada, "club"), Some(s("Inter Miami")));
    assert_eq!(valor(&recuperada, "número"), Some(s("10")));
}

#[test]
fn log_reproduce_operaciones() {
    let data = b"\"a\" \"1\"\n".to_vec();
    let mut log: Vec<u8> = Vec::new();
    let mut memoria = cargar_hashmap(&data, &log).ok().unwrap();
    let mensajes = vec![
        MensajePersistencia::Asignar { clave: s("b"), valor: s("con espacio") },
        MensajePersistencia::Asignar { clave: s("a"), valor: s("\"citado\"") },
        MensajePersistencia::Delete { clave: s("b") },
        MensajePersistencia::Asignar { clave: s("c"), valor: s("3") },
    ];
    for m in mensajes {
        log.extend_from_slice(linea_log(&m).unwrap().as_bytes());
        aplicar_mensaje(&mut memoria, m, true);
        let recargada = cargar_hashmap(&data, &log).ok().unwrap();
        assert_eq!(recargada.cantidad(), memoria.cantidad());
        for k in ["a", "b", "c"] {
            assert_eq!(valor(&recargada, k), valor(&memoria, k));
        }
    }
    assert_eq!(valor(&memoria, "a"), Some(s("\"citado\"")));
    assert_eq!(valor(&memoria, "b"), None);
}

#[test]
fn aplicar_sin_log_escrito() {
    let mut b = BaseDatos::new();
    b.insertar(s("a"), s("1"));
    aplicar_mensaje(&mut b, MensajePersistencia::Asignar { clave: s("x"), valor: s("y") }, false);
    assert_eq!(valor(&b, "x"), None);
    aplicar_mensaje(&mut b, MensajePersistencia::Delete { clave: s("a") }, false);
    assert_eq!(valor(&b, "a"), None);
    aplicar_mensaje(&mut b, MensajePersistencia::Snapshot, true);
    assert_eq!(b.cantidad(), 0);
}

#[test]
fn entradas_en_orden() {
    let mut b = BaseDatos::new();
    b.insertar(s("a"), s("1"));
    b.insertar(s("b"), s("2"));
    assert_eq!(b.largo(), 2);
    let (k, v) = b.entrada(1);
    assert_eq!((k.as_str(), v.as_str()), ("b", "2"));
}

#[test]
fn log_con_resto_en_blanco() {
    let data = b"".to_vec();
    let mut log = b"set a 1\n  \t".to_vec();
    let m = MensajePersistencia::Asignar { clave: s("b"), valor: s("2") };
    log.extend_from_slice(linea_log(&m).unwrap().as_bytes());
    let b = cargar_hashmap(&data, &log).ok().unwrap();
    assert_eq!(valor(&b, "a"), Some(s("1")));
    assert_eq!(valor(&b, "b"), Some(s("2")));
}
