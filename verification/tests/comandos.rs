use minikv::minikv::base_datos::BaseDatos;
use minikv::minikv::comandos::{resultado_envio, Comando, Efecto};
use minikv::minikv::errores::KvErrores;
use minikv::minikv::estructuras::MensajePersistencia;
use minikv::servidor::{atender_linea, procesar_comando, respuesta, respuesta_error, respuesta_persistencia, Atencion};

fn s(t: &str) -> String {
    t.to_string()
}

fn base() -> BaseDatos {
    let mut b = BaseDatos::new();
    b.insertar(s("clave"), s("valor"));
    b.insertar(s("a"), s("b"));
    b.insertar(s("c"), s("d"));
    b
}

#[test]
fn ejecutar_get_y_length() {
    let b = base();
    assert!(matches!(Comando::Get { clave: s("clave") }.ejecutar(Some(&b)), Efecto::Respuesta(Ok(v)) if v == "valor"));
    assert!(matches!(Comando::Get { clave: s("x") }.ejecutar(Some(&b)), Efecto::Respuesta(Err(e)) if e == "NOT FOUND"));
    assert!(matches!(Comando::Length.ejecutar(Some(&b)), Efecto::Respuesta(Ok(n)) if n == "3"));
    assert!(matches!(Comando::Length.ejecutar(Some(&BaseDatos::new())), Efecto::Respuesta(Ok(n)) if n == "0"));
    assert!(matches!(Comando::Get { clave: s("clave") }.ejecutar(None),
        Efecto::Respuesta(Err(e)) if e == "Error al obtener el lock de lectura"));
}

#[test]
fn length_de_muchas_claves() {
    let mut b = BaseDatos::new();
    for i in 0..123 {
        b.insertar(format!("k{}", i), s("v"));
    }
    assert!(matches!(Comando::Length.ejecutar(Some(&b)), Efecto::Respuesta(Ok(n)) if n == "123"));
}

#[test]
fn ejecutar_envia_a_persistencia() {
    assert!(matches!(Comando::Asignar { clave: s("k"), valor: s("v") }.ejecutar(None),
        Efecto::Enviar(MensajePersistencia::Asignar { clave, valor }) if clave == "k" && valor == "v"));
    assert!(matches!(Comando::Delete { clave: s("k") }.ejecutar(None),
        Efecto::Enviar(MensajePersistencia::Delete { clave }) if clave == "k"));
    assert!(matches!(Comando::Snapshot.ejecutar(None), Efecto::Enviar(MensajePersistencia::Snapshot)));
}

#[test]
fn envio_ok_y_fallido() {
    assert_eq!(resultado_envio("set", None).unwrap(), "OK");
    assert_eq!(
        resultado_envio("delete", Some(s("sending on a closed channel"))).err().unwrap(),
        "Error al enviar el mensaje de delete: sending on a closed channel"
    );
    assert_eq!(MensajePersistencia::Snapshot.operacion(), "snapshot");
    assert_eq!(MensajePersistencia::Delete { clave: s("k") }.operacion(), "delete");
    assert_eq!(MensajePersistencia::Asignar { clave: s("k"), valor: s("v") }.operacion(), "set");
}

#[test]
fn servidor_procesa_lineas() {
    let b = base();
    assert!(matches!(procesar_comando("get clave", Some(&b)), Ok(Efecto::Respuesta(Ok(v))) if v == "valor"));
    assert!(matches!(procesar_comando("set clave valor", Some(&b)), Ok(Efecto::Enviar(_))));
    assert!(matches!(procesar_comando("", Some(&b)), Err(KvErrores::Error(m)) if m == "Error: comando no especificado"));
    assert!(matches!(procesar_comando("borrar a", Some(&b)), Err(KvErrores::Error(m)) if m == "UNKNOWN COMMAND"));
    match atender_linea("  get clave \r\n", Some(&b)) {
        Atencion::Responder(r) => assert_eq!(r, "valor"),
        _ => panic!("Esperaba una respuesta"),
    }
    match atender_linea("get nada", Some(&b)) {
        Atencion::Responder(r) => assert_eq!(r, "ERROR: <NOT FOUND>"),
        _ => panic!("Esperaba una respuesta"),
    }
    match atender_linea("get", Some(&b)) {
        Atencion::Responder(r) => assert_eq!(r, "ERROR: <MISSING ARGUMENT>"),
        _ => panic!("Esperaba una respuesta"),
    }
    match atender_linea("set \"otra clave\" x", Some(&b)) {
        Atencion::Persistir(MensajePersistencia::Asignar { clave, valor }) => {
            assert_eq!(clave, "otra clave");
            assert_eq!(valor, "x");
        }
        _ => panic!("Esperaba persistir"),
    }
    assert_eq!(respuesta_persistencia("set", None), "OK");
    assert_eq!(respuesta_persistencia("snapshot", Some(s("e"))), "ERROR: <Error al enviar el mensaje de snapshot: e>");
    assert_eq!(respuesta(Err(s("x"))), "ERROR: <x>");
    assert_eq!(respuesta_error(&KvErrores::Timeout), "ERROR: <Timeout>");
}

#[test]
fn errores_texto_y_recuperables() {
    assert_eq!(KvErrores::NotFound.to_str(), "Not Found");
    assert_eq!(KvErrores::ExtraArgument.to_str(), "EXTRA ARGUMENT");
    assert_eq!(KvErrores::MissingArgument.to_str(), "MISSING ARGUMENT");
    assert_eq!(KvErrores::UnknownCommand.to_str(), "UNKNOWN COMMAND");
    assert_eq!(KvErrores::IoError(s("disco")).to_str(), "IoError");
    assert_eq!(KvErrores::ConnectionClosed.to_str(), "CONNECTION CLOSED");
    assert_eq!(KvErrores::ClientSocketBinding.to_str(), "CLIENT SOCKET BINDING");
    assert_eq!(KvErrores::InvalidArgs.to_str(), "INVALID ARGS");
    assert_eq!(KvErrores::InvalidPuerto.to_str(), "Invalid Puerto");
    assert_eq!(KvErrores::EOF.to_str(), "EOF");
    assert_eq!(KvErrores::EMPTY.to_str(), "EMPTY");
    assert_eq!(KvErrores::InvalidDataFile.to_str(), "INVALID DATA FILE");
    assert_eq!(KvErrores::InvalidLogFile.to_str(), "INVALID LOG FILE");
    assert_eq!(KvErrores::Error(s("propio")).to_str(), "propio");
    assert!(KvErrores::NotFound.es_recuperable());
    assert!(KvErrores::ExtraArgument.es_recuperable());
    assert!(KvErrores::MissingArgument.es_recuperable());
    assert!(KvErrores::UnknownCommand.es_recuperable());
    assert!(!KvErrores::Timeout.es_recuperable());
    assert!(!KvErrores::EOF.es_recuperable());
    assert!(!KvErrores::Error(s("x")).es_recuperable());
}
