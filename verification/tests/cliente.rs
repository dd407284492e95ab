use minikv::cliente::{
    obtener_entrada, obtener_timeout, paso_entrada, paso_respuesta, recibir_respuesta, traducir_respuesta,
    traducir_texto, FalloLectura, PasoCliente, TIMEOUT_POR_DEFECTO,
};
use minikv::minikv::comunicacion::ResultadoComunicacion;
use minikv::minikv::errores::KvErrores;

#[test]
fn test_obtener_entrada_exitosa() {
    let input = "set clave valor\n".as_bytes();
    let resultado = obtener_entrada(input);
    assert_eq!(resultado.unwrap(), "set clave valor");
}

#[test]
fn test_con_dyn() {
    let mock_input = "get clave\n".as_bytes();
    let res = obtener_entrada(mock_input);
    assert_eq!(res.unwrap(), "get clave");
}

#[test]
fn entrada_valida() {
    let input = b"SET clave valor\n";
    let res = obtener_entrada(input).unwrap();
    assert_eq!(res, "SET clave valor");
}

#[test]
fn entrada_vacia() {
    let input = b"\n";
    let res = obtener_entrada(input);
    assert!(matches!(res, Err(KvErrores::EMPTY)));
}

#[test]
fn entrada_eof() {
    let input = b"";
    let res = obtener_entrada(input);
    assert!(matches!(res, Err(KvErrores::EOF)));
}

#[test]
fn respuesta_error_recuperable() {
    let input = b"ERR_REC: clave invalida";
    match traducir_respuesta(input) {
        ResultadoComunicacion::Continuar(msg) => {
            assert_eq!(msg, "ERROR: <clave invalida>");
        }
        _ => panic!("Esperaba Continuar"),
    }
}

#[test]
fn respuesta_error_no_recuperable() {
    let input = b"ERR_NO_REC: fatal";
    match traducir_respuesta(input) {
        ResultadoComunicacion::Cerrar(msg) => {
            assert_eq!(msg, "ERROR: <fatal>");
        }
        _ => panic!("Esperaba Cerrar"),
    }
}

#[test]
fn respuesta_normal() {
    let input = b"OK";
    match traducir_respuesta(input) {
        ResultadoComunicacion::Continuar(msg) => {
            assert_eq!(msg, "OK");
        }
        _ => panic!("Esperaba Continuar"),
    }
}

#[test]
fn entrada_solo_primera_linea() {
    let res = obtener_entrada(b"  get a  \r\nset b c\n").unwrap();
    assert_eq!(res, "get a");
}

#[test]
fn entrada_sin_salto_final() {
    assert_eq!(obtener_entrada(b"length").unwrap(), "length");
}

#[test]
fn entrada_blancos_es_vacia() {
    assert!(matches!(obtener_entrada(b" \t \n"), Err(KvErrores::EMPTY)));
}

#[test]
fn entrada_no_utf8() {
    match obtener_entrada(b"set \xff\n") {
        Err(KvErrores::Error(m)) => assert_eq!(m, "LECTURA FALLIDA"),
        _ => panic!("Esperaba un error de lectura"),
    }
}

#[test]
fn respuesta_con_bytes_invalidos() {
    match traducir_respuesta(b"OK\xff") {
        ResultadoComunicacion::Continuar(msg) => assert_eq!(msg, "OK\u{FFFD}"),
        _ => panic!("Esperaba Continuar"),
    }
}

#[test]
fn respuesta_recortada() {
    match traducir_texto("  valor con espacios \n") {
        ResultadoComunicacion::Continuar(msg) => assert_eq!(msg, "valor con espacios"),
        _ => panic!("Esperaba Continuar"),
    }
}

#[test]
fn respuesta_prefijo_no_al_inicio() {
    match traducir_texto(" ERR_REC: x") {
        ResultadoComunicacion::Continuar(msg) => assert_eq!(msg, "ERR_REC: x"),
        _ => panic!("Esperaba Continuar"),
    }
}

#[test]
fn timeout_valores() {
    assert!(matches!(obtener_timeout(Some("5".to_string())), Ok(5)));
    assert!(matches!(obtener_timeout(Some("+12".to_string())), Ok(12)));
    assert!(matches!(obtener_timeout(Some("18446744073709551615".to_string())), Ok(u64::MAX)));
    match obtener_timeout(Some("18446744073709551616".to_string())) {
        Err(KvErrores::Error(m)) => assert_eq!(m, "TIMEOUT INVALIDO"),
        _ => panic!("Esperaba TIMEOUT INVALIDO"),
    }
    match obtener_timeout(Some("-1".to_string())) {
        Err(KvErrores::Error(m)) => assert_eq!(m, "TIMEOUT INVALIDO"),
        _ => panic!("Esperaba TIMEOUT INVALIDO"),
    }
    match obtener_timeout(Some("+".to_string())) {
        Err(KvErrores::Error(m)) => assert_eq!(m, "TIMEOUT INVALIDO"),
        _ => panic!("Esperaba TIMEOUT INVALIDO"),
    }
    match obtener_timeout(None) {
        Err(KvErrores::Error(m)) => assert_eq!(m, "MISSING TIMEOUT"),
        _ => panic!("Esperaba MISSING TIMEOUT"),
    }
    assert_eq!(TIMEOUT_POR_DEFECTO, 10);
}

#[test]
fn pasos_del_cliente() {
    assert!(matches!(paso_entrada(Ok("get a".to_string())), PasoCliente::Enviar(c) if c == "get a"));
    assert!(matches!(paso_entrada(Err(KvErrores::EOF)), PasoCliente::Terminar(None)));
    assert!(matches!(paso_entrada(Err(KvErrores::EMPTY)), PasoCliente::Saltear));
    match paso_entrada(Err(KvErrores::Error("LECTURA FALLIDA".to_string()))) {
        PasoCliente::Terminar(Some(m)) => assert_eq!(m, "ERROR: <LECTURA FALLIDA>"),
        _ => panic!("Esperaba Terminar"),
    }
    let (m, seguir) = paso_respuesta(ResultadoComunicacion::Continuar(" OK ".to_string()));
    assert_eq!(m, "Respuesta del servidor: <OK>");
    assert!(seguir);
    let (m, seguir) = paso_respuesta(ResultadoComunicacion::Cerrar("TIMEOUT".to_string()));
    assert_eq!(m, "ERROR <TIMEOUT>");
    assert!(!seguir);
}

#[test]
fn lecturas_de_respuesta() {
    assert!(matches!(recibir_respuesta(Ok(Vec::new())), ResultadoComunicacion::Cerrar(m) if m == "CONNECTION CLOSED"));
    assert!(matches!(recibir_respuesta(Ok(b"valor\n".to_vec())), ResultadoComunicacion::Continuar(m) if m == "valor"));
    assert!(matches!(recibir_respuesta(Ok(b"val\xffor\n".to_vec())), ResultadoComunicacion::Cerrar(m) if m == "ERROR DE COMUNICACION"));
    assert!(matches!(recibir_respuesta(Ok(b"ERR_NO_REC: fin\n".to_vec())), ResultadoComunicacion::Cerrar(m) if m == "ERROR: <fin>"));
    assert!(matches!(recibir_respuesta(Err(FalloLectura::Timeout)), ResultadoComunicacion::Cerrar(m) if m == "TIMEOUT"));
    assert!(matches!(recibir_respuesta(Err(FalloLectura::ConexionPerdida)), ResultadoComunicacion::Cerrar(m) if m == "CONEXION PERDIDA"));
    assert!(matches!(recibir_respuesta(Err(FalloLectura::Otro)), ResultadoComunicacion::Cerrar(m) if m == "ERROR DE COMUNICACION"));
}

#[test]
fn primera_linea_valida_aunque_siga_texto() {
    assert_eq!(obtener_entrada("get ñandú\nmás".as_bytes()).unwrap(), "get ñandú");
}

#[test]
fn sesion_de_cliente_paso_a_paso() {
    let lineas: Vec<&[u8]> = vec![b"  set a 1 \n", b"\n", b"get a\n", b""];
    let mut enviados = Vec::new();
    for l in lineas {
        match paso_entrada(obtener_entrada(l)) {
            PasoCliente::Enviar(c) => enviados.push(c),
            PasoCliente::Saltear => continue,
            PasoCliente::Terminar(_) => break,
        }
    }
    assert_eq!(enviados, vec!["set a 1", "get a"]);
}
