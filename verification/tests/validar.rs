//! Lo que la persona escribe, comprobado antes de que llegue al disco.

use vasak_installer::validar::{base_de_zonas, ruta_de_zona};
use vasak_installer::probe::teclados;
use vasak_installer::validar::{
    fuerza, idioma, nombre_de_equipo, nombre_de_usuario, sugerir_usuario, teclado, zona_horaria,
    ErrorNombre, Fuerza,
};

/// Un recorte de `/usr/share/i18n/SUPPORTED`, con la forma del de glibc.
const SUPPORTED: &str = "\
en_US.UTF-8 UTF-8
en_US ISO-8859-1
es_AR.UTF-8 UTF-8
es_AR ISO-8859-1
es_ES.UTF-8 UTF-8
es_ES@euro ISO-8859-15
pt_BR.UTF-8 UTF-8
";

/// Los archivos de un árbol de `/usr/share/kbd/keymaps`, con fragmentos de
/// `include/` mezclados como en el de verdad.
fn mapas_del_sistema() -> Vec<String> {
    [
        "/usr/share/kbd/keymaps/i386/qwerty/us.map.gz",
        "/usr/share/kbd/keymaps/i386/qwerty/es.map.gz",
        "/usr/share/kbd/keymaps/i386/qwerty/la-latin1.map.gz",
        "/usr/share/kbd/keymaps/i386/qwertz/de-latin1.map.gz",
        "/usr/share/kbd/keymaps/i386/include/linux-keys-bare.map.gz",
        "/usr/share/kbd/keymaps/include/compose.latin1",
    ]
    .iter()
    .map(|s| s.to_string())
    .collect()
}


#[test]
fn los_nombres_de_usuario_normales_pasan() {
    for bueno in ["pato", "jdecima", "ana_maria", "usuario-1", "_servicio", "a"] {
        assert_eq!(nombre_de_usuario(bueno), Ok(()), "rechazó «{bueno}»");
    }
}

#[test]
fn el_acento_en_el_usuario_se_rechaza_diciendo_cual() {
    // Éste es el caso real: «Joaquín» sugiere `joaquín`, y el rechazo de
    // `useradd` llegaría en medio de la instalación. Y el error dice qué
    // carácter molesta, porque una `í` y una `i` no se distinguen de un
    // vistazo en un campo de texto.
    assert_eq!(
        nombre_de_usuario("joaquín"),
        Err(ErrorNombre::Caracter { cual: "í".into() })
    );
    assert_eq!(
        nombre_de_usuario("ana maria"),
        Err(ErrorNombre::Caracter { cual: " ".into() })
    );
}

#[test]
fn las_mayusculas_en_el_usuario_se_rechazan() {
    // `useradd` las acepta con `--badname`, pero después buena parte del
    // ecosistema las baja a minúscula y el usuario termina con dos nombres.
    assert_eq!(nombre_de_usuario("Pato"), Err(ErrorNombre::EmpiezaMal));
    assert_eq!(
        nombre_de_usuario("paTo"),
        Err(ErrorNombre::Caracter { cual: "T".into() })
    );
}

#[test]
fn un_usuario_que_empieza_con_numero_o_guion_se_rechaza() {
    assert_eq!(nombre_de_usuario("1pato"), Err(ErrorNombre::EmpiezaMal));
    assert_eq!(nombre_de_usuario("-pato"), Err(ErrorNombre::EmpiezaMal));
}

#[test]
fn los_usuarios_del_sistema_estan_prohibidos() {
    for reservado in ["root", "nobody", "greeter", "vasak", "dbus"] {
        assert_eq!(
            nombre_de_usuario(reservado),
            Err(ErrorNombre::Reservado),
            "dejó pasar «{reservado}»"
        );
    }
}

#[test]
fn el_limite_de_32_del_sistema_se_respeta() {
    assert_eq!(nombre_de_usuario(&"a".repeat(32)), Ok(()));
    // 33 se acepta al crearlo en algunos sistemas y después aparece truncado
    // en `who` y en los registros.
    assert_eq!(
        nombre_de_usuario(&"a".repeat(33)),
        Err(ErrorNombre::Largo { maximo: 32 })
    );
}

#[test]
fn los_nombres_de_equipo_normales_pasan() {
    for bueno in ["vasak", "note-de-pato", "PC1", "equipo.casa.lan", "a"] {
        assert_eq!(nombre_de_equipo(bueno), Ok(()), "rechazó «{bueno}»");
    }
}

#[test]
fn localhost_esta_prohibido_como_nombre_de_equipo() {
    // Apunta a 127.0.0.1 en /etc/hosts: un equipo llamado así no resuelve su
    // propio nombre, y con eso se cae D-Bus y el portal.
    assert_eq!(nombre_de_equipo("localhost"), Err(ErrorNombre::Reservado));
    assert_eq!(nombre_de_equipo("LocalHost"), Err(ErrorNombre::Reservado));
}

#[test]
fn el_guion_al_borde_del_nombre_de_equipo_se_rechaza() {
    assert_eq!(nombre_de_equipo("-equipo"), Err(ErrorNombre::EmpiezaMal));
    assert_eq!(nombre_de_equipo("equipo-"), Err(ErrorNombre::TerminaMal));
    // Y dentro de una etiqueta del medio, que es donde es más fácil que se
    // cuele sin que nadie lo vea.
    assert_eq!(nombre_de_equipo("casa.-red.lan"), Err(ErrorNombre::EmpiezaMal));
}

#[test]
fn los_puntos_sueltos_se_rechazan() {
    for malo in [".equipo", "equipo.", "casa..lan"] {
        assert_eq!(
            nombre_de_equipo(malo),
            Err(ErrorNombre::Caracter { cual: ".".into() }),
            "dejó pasar «{malo}»"
        );
    }
}

#[test]
fn el_espacio_y_el_subrayado_no_van_en_el_nombre_de_equipo() {
    // El subrayado es válido en DNS moderno pero no en un nombre de host, y
    // `hostnamectl` lo rechaza.
    assert_eq!(
        nombre_de_equipo("mi equipo"),
        Err(ErrorNombre::Caracter { cual: " ".into() })
    );
    assert_eq!(
        nombre_de_equipo("mi_equipo"),
        Err(ErrorNombre::Caracter { cual: "_".into() })
    );
}

#[test]
fn la_sugerencia_de_usuario_sale_usable() {
    assert_eq!(sugerir_usuario("Joaquín Decima"), "joaquin");
    assert_eq!(sugerir_usuario("Ana María"), "ana");
    assert_eq!(sugerir_usuario("João"), "joao");
    assert_eq!(sugerir_usuario("Ñandú"), "nandu");
    // Y lo que sugiere tiene que pasar la validación: si no, el campo se
    // autocompleta con algo que después se rechaza.
    for entrada in ["Joaquín Decima", "Ana María", "João", "Ñandú", "Pato"] {
        let sugerido = sugerir_usuario(entrada);
        assert_eq!(
            nombre_de_usuario(&sugerido),
            Ok(()),
            "«{entrada}» sugirió «{sugerido}», que no valida"
        );
    }
}

#[test]
fn la_sugerencia_no_devuelve_algo_invalido_ante_entradas_raras() {
    // Con puros dígitos la primera letra sería un número, que no vale como
    // primer carácter. Antes se devolvía tal cual y el campo quedaba
    // autocompletado con algo inválido.
    for entrada in ["", "   ", "123", "!!!", "1998"] {
        let sugerido = sugerir_usuario(entrada);
        assert!(
            sugerido.is_empty() || nombre_de_usuario(&sugerido).is_ok(),
            "«{entrada}» sugirió «{sugerido}»"
        );
    }
}

#[test]
fn la_zona_horaria_se_comprueba_contra_la_base_del_sistema() {
    assert_eq!(zona_horaria("America/Argentina/Buenos_Aires"), Ok(()));
    assert_eq!(zona_horaria("Europe/Madrid"), Ok(()));
    assert!(zona_horaria("America/No_Existe").is_err());
    assert!(zona_horaria("").is_err());
}

/// Una zona con `..` no puede resolver fuera de la base de datos.
///
/// El nombre viene de un campo de texto libre —el que aparece cuando el
/// sistema no pudo dar la lista— y termina en un enlace a `/etc/localtime`.
#[test]
fn una_zona_con_rutas_relativas_se_rechaza() {
    for malo in [
        "../../etc/shadow",
        "/etc/shadow",
        "America/../../../etc/passwd",
        "./America/Bogota",
    ] {
        assert!(zona_horaria(malo).is_err(), "dejó pasar «{malo}»");
    }
}

#[test]
fn el_idioma_se_comprueba_contra_los_del_sistema() {
    assert_eq!(idioma("es_AR", Some(SUPPORTED)), Ok(()));
    assert_eq!(idioma("en_US", Some(SUPPORTED)), Ok(()));
    assert!(idioma("xx_YY", Some(SUPPORTED)).is_err());
    assert!(idioma("", Some(SUPPORTED)).is_err());
    // Con la codificación pegada no valida: el resto del instalador maneja
    // el local sin ella, y `es_AR.UTF-8` en `sys_lang` duplica la línea en
    // `locale.gen`.
    assert!(idioma("es_AR.UTF-8", Some(SUPPORTED)).is_err());
}

#[test]
fn un_idioma_con_espacios_o_barras_se_rechaza() {
    assert!(idioma("es AR", Some(SUPPORTED)).is_err());
    assert!(idioma("../es_AR", Some(SUPPORTED)).is_err());
}

#[test]
fn el_teclado_se_comprueba_contra_los_del_sistema() {
    let mapas = teclados(&mapas_del_sistema());
    if mapas.is_empty() {
        return; // sin `kbd` instalado
    }
    assert_eq!(teclado("us", &mapas), Ok(()));
    assert!(teclado("no-existe-este-mapa", &mapas).is_err());
    assert!(teclado("", &mapas).is_err());
    assert!(teclado("../../etc/shadow", &mapas).is_err());
}

#[test]
fn la_fuerza_premia_el_largo_por_encima_de_las_clases() {
    assert_eq!(fuerza(""), Fuerza::Vacia);
    assert_eq!(fuerza("1234"), Fuerza::Debil);
    assert_eq!(fuerza("Pass1!"), Fuerza::Debil);
    // Cuatro clases en ocho caracteres es lo que piden las reglas de
    // composición, y produce exactamente esto.
    assert_eq!(fuerza("Passw0r!"), Fuerza::Aceptable);
    // Una frase larga de una sola clase es mejor, y el resultado lo refleja.
    assert_eq!(fuerza("correcto caballo bateria"), Fuerza::Buena);
    assert_eq!(fuerza("caballo bater1"), Fuerza::Buena);
}

#[test]
fn la_zona_se_busca_adentro_de_la_base_de_zonas() {
    assert_eq!(base_de_zonas(), "/usr/share/zoneinfo");
    assert_eq!(ruta_de_zona("America/Argentina/Buenos_Aires"), "/usr/share/zoneinfo/America/Argentina/Buenos_Aires");
    assert_eq!(ruta_de_zona("UTC"), "/usr/share/zoneinfo/UTC");
}

#[test]
fn un_caracter_imprimible_se_registra_entre_comillas() {
    assert_eq!(ErrorNombre::Caracter { cual: "T".into() }.depurar(), "Caracter { cual: \"T\" }");
    assert_eq!(ErrorNombre::Caracter { cual: " ".into() }.depurar(), "Caracter { cual: \" \" }");
    assert_eq!(ErrorNombre::Caracter { cual: "\n".into() }.depurar(), "Caracter { cual: \"\\n\" }");
}

#[test]
fn la_fuerza_en_ascii_cuenta_las_cuatro_clases() {
    assert_eq!(fuerza(""), Fuerza::Vacia);
    assert_eq!(fuerza("abcdefgh"), Fuerza::Debil);
    assert_eq!(fuerza("abcdefg1"), Fuerza::Aceptable);
    assert_eq!(fuerza("abcdefghijk1"), Fuerza::Buena);
    assert_eq!(fuerza("abcdefghijkl"), Fuerza::Aceptable);
    assert_eq!(fuerza("abcdefghijklmnop"), Fuerza::Buena);
}

#[test]
fn la_sugerencia_en_ascii_baja_las_letras_y_saca_lo_demas() {
    assert_eq!(sugerir_usuario("Juan Perez"), "juan");
    assert_eq!(sugerir_usuario("  J.P-99 x"), "jp99");
    assert_eq!(sugerir_usuario("42Ana"), "ana");
    assert_eq!(sugerir_usuario("root"), "");
    assert_eq!(sugerir_usuario("1998"), "");
}

#[test]
fn la_sugerencia_saca_los_acentos_antes_de_bajar_las_letras() {
    assert_eq!(sugerir_usuario("Joaquín Decima"), "joaquin");
    assert_eq!(sugerir_usuario("Ñandú"), "nandu");
    assert_eq!(sugerir_usuario("ÉLODIE"), "elodie");
}
