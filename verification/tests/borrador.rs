use minikv::guia1::{mostrar_palabra, validar_letra, Ahorcado};
use minikv::minikv::{decidir_comando, parseo_comando, Comando};

fn argumentos(v: &[&str]) -> Vec<String> {
    v.iter().map(|s| s.to_string()).collect()
}

#[test]
fn primer_parseo_sin_distinguir_mayusculas() {
    assert_eq!(
        parseo_comando(argumentos(&["minikv", "SET", "key", "value"])).unwrap(),
        "Comando ejecutado: Comando Set: clave = Some(\"key\"), valor = Some(\"value\")"
    );
    assert_eq!(
        parseo_comando(argumentos(&["minikv", "Set", "key"])).unwrap(),
        "Comando ejecutado: Comando Delete: clave = Some(\"key\")"
    );
    assert_eq!(
        parseo_comando(argumentos(&["minikv", "get", "di \"x\""])).unwrap(),
        "Comando ejecutado: Comando Get: clave = Some(\"di \\\"x\\\"\")"
    );
    assert_eq!(parseo_comando(argumentos(&["minikv", "LENGTH"])).unwrap(), "Comando ejecutado: Comando Length");
    assert_eq!(parseo_comando(argumentos(&["minikv", "snapshot"])).unwrap(), "Comando ejecutado: Comando Snapshot");
}

#[test]
fn primer_parseo_errores() {
    assert_eq!(parseo_comando(argumentos(&["minikv"])).unwrap(), "Error: comando no especificado");
    assert_eq!(
        parseo_comando(argumentos(&["minikv", "set"])).unwrap(),
        "Error: comando set invalido,\n                uso: minikv set <key> <value> o minikv set <key>"
    );
    assert_eq!(
        parseo_comando(argumentos(&["minikv", "get"])).unwrap(),
        "Error: comando get invalido, uso: minikv get <key>"
    );
    assert_eq!(
        parseo_comando(argumentos(&["minikv", "length", "x"])).unwrap(),
        "Error: comando length invalido, uso: minikv length"
    );
    assert_eq!(
        parseo_comando(argumentos(&["minikv", "snapshot", "x"])).unwrap(),
        "Error: comando snapshot invalido, uso: minikv snapshot"
    );
    assert_eq!(parseo_comando(argumentos(&["minikv", "delete", "x"])).unwrap(), "Error: comando no reconocido");
}

#[test]
fn primer_decidir_y_descripcion() {
    let c = decidir_comando("set".to_string(), argumentos(&["a", "b"])).ok().unwrap();
    assert_eq!(c.imprimir_comando(), "Comando Set: clave = Some(\"a\"), valor = Some(\"b\")");
    let c = Comando::Get { clave: None };
    assert_eq!(c.imprimir_comando(), "Comando Get: clave = None");
    assert!(decidir_comando("SET".to_string(), argumentos(&["a"])).is_err());
}

#[test]
fn ahorcado_palabra_mostrada() {
    assert_eq!(mostrar_palabra("fiuba".to_string(), vec!['a', 'i']), "_ i _ _ a");
    assert_eq!(mostrar_palabra("fiuba".to_string(), Vec::new()), "_ _ _ _ _");
    assert_eq!(mostrar_palabra("r".to_string(), vec!['r']), "r");
    assert_eq!(mostrar_palabra(String::new(), vec!['r']), "");
}

#[test]
fn ahorcado_letras_validas() {
    assert_eq!(validar_letra(" r\n"), Some('r'));
    assert_eq!(validar_letra("Z"), Some('Z'));
    assert_eq!(validar_letra("rr"), None);
    assert_eq!(validar_letra("1"), None);
    assert_eq!(validar_letra("ñ"), None);
    assert_eq!(validar_letra(""), None);
}

#[test]
fn ahorcado_turnos() {
    let mut juego = Ahorcado::new("sol".to_string(), 2);
    juego.jugar_letra('s');
    assert_eq!(juego.letras_adivinadas, vec!['s']);
    assert_eq!(juego.intentos_restantes, 2);
    assert!(!juego.terminado());
    juego.jugar_letra('x');
    assert_eq!(juego.intentos_restantes, 1);
    juego.jugar_letra('o');
    juego.jugar_letra('l');
    assert!(juego.terminado());
    let mut perdido = Ahorcado::new("sol".to_string(), 1);
    perdido.jugar_letra('z');
    assert!(perdido.terminado());
}

#[test]
fn ahorcado_partida_completa() {
    let mut juego = Ahorcado::new("casa".to_string(), 3);
    for letra in ['x', 'a', 'z', 'c', 's'] {
        assert!(!juego.terminado());
        juego.jugar_letra(letra);
    }
    assert_eq!(juego.letras_adivinadas, vec!['a', 'c', 's']);
    assert_eq!(juego.intentos_restantes, 1);
    assert!(juego.terminado());
}
