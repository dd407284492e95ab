use minikv::minikv::comandos::Comando;
use minikv::minikv::parseo::{decidir_comando, parseo_comando, procesar_linea};

fn argumentos(v: &[&str]) -> Vec<String> {
    v.iter().map(|s| s.to_string()).collect()
}

#[test]
fn test_pareso_valido() {
    let argumentos = vec![
        "minikv".to_string(),
        "set".to_string(),
        "nombre".to_string(),
        "messi".to_string(),
    ];
    let resultado = parseo_comando(argumentos);
    assert!(resultado.is_ok());
}

#[test]
fn test_parseo_invalido() {
    let argumentos = vec!["minikv".to_string(), "length".to_string(), "a".to_string()];
    let resultado = parseo_comando(argumentos);
    assert!(!resultado.is_ok());
}

#[test]
fn parseo_set_y_delete() {
    match parseo_comando(argumentos(&["minikv", "set", "k", "v"])) {
        Ok(Comando::Asignar { clave, valor }) => {
            assert_eq!(clave, "k");
            assert_eq!(valor, "v");
        }
        _ => panic!("Esperaba SET"),
    }
    match parseo_comando(argumentos(&["minikv", "set", "k"])) {
        Ok(Comando::Delete { clave }) => assert_eq!(clave, "k"),
        _ => panic!("Esperaba DELETE"),
    }
}

#[test]
fn parseo_errores() {
    assert_eq!(parseo_comando(argumentos(&["minikv"])).err().unwrap(), "Error: comando no especificado");
    assert_eq!(parseo_comando(argumentos(&["minikv", "set"])).err().unwrap(), "MISSING ARGUMENT");
    assert_eq!(parseo_comando(argumentos(&["minikv", "set", "a", "b", "c"])).err().unwrap(), "EXTRA ARGUMENT");
    assert_eq!(parseo_comando(argumentos(&["minikv", "get"])).err().unwrap(), "MISSING ARGUMENT");
    assert_eq!(parseo_comando(argumentos(&["minikv", "get", "a", "b"])).err().unwrap(), "EXTRA ARGUMENT");
    assert_eq!(parseo_comando(argumentos(&["minikv", "snapshot", "x"])).err().unwrap(), "EXTRA ARGUMENT");
    assert_eq!(parseo_comando(argumentos(&["minikv", "SET", "a", "b"])).err().unwrap(), "UNKNOWN COMMAND");
    assert_eq!(decidir_comando("delete", argumentos(&["a"])).err().unwrap(), "UNKNOWN COMMAND");
}

#[test]
fn parseo_get_length_snapshot() {
    assert!(matches!(decidir_comando("get", argumentos(&["a"])), Ok(Comando::Get { clave }) if clave == "a"));
    assert!(matches!(decidir_comando("length", Vec::new()), Ok(Comando::Length)));
    assert!(matches!(decidir_comando("snapshot", Vec::new()), Ok(Comando::Snapshot)));
}

#[test]
fn linea_con_espacios_comillas_y_escapes() {
    assert_eq!(procesar_linea("set clave valor"), vec!["set", "clave", "valor"]);
    assert_eq!(procesar_linea("  set   a\tb  "), vec!["set", "a", "b"]);
    assert_eq!(procesar_linea("set \"una clave\" \"un valor\""), vec!["set", "una clave", "un valor"]);
    assert_eq!(procesar_linea("set a \"dijo \\\"hola\\\"\""), vec!["set", "a", "dijo \"hola\""]);
    assert_eq!(procesar_linea("a\\ b c\\\\d"), vec!["a b", "c\\d"]);
    assert_eq!(procesar_linea("\"\" x"), vec!["x"]);
    assert_eq!(procesar_linea("ab\"c d\"e"), vec!["abc de"]);
    assert!(procesar_linea("   ").is_empty());
}

fn citar(t: &str) -> String {
    let mut r = String::from("\"");
    for c in t.chars() {
        if c == '"' || c == '\\' {
            r.push('\\');
        }
        r.push(c);
    }
    r.push('"');
    r
}

#[test]
fn palabras_citadas_vuelven_iguales() {
    let palabras = vec!["set", "una clave", "di \"hola\"", "c:\\dir\\", " \t "];
    let linea = palabras.iter().map(|t| citar(t)).collect::<Vec<String>>().join(" ");
    assert_eq!(procesar_linea(&linea), palabras);
}

#[test]
fn sin_comillas_separa_como_split_whitespace() {
    for linea in ["set clave valor", "  a\t\tb \u{3000}c  ", "", "uno", "x\u{85}y"] {
        let esperado: Vec<String> = linea.split_whitespace().map(|s| s.to_string()).collect();
        assert_eq!(procesar_linea(linea), esperado);
    }
}
