//! El idioma entre la ventana y el ayudante.

use vasak_installer::protocol::{
    pasos_de_instalacion, Paso, Secretos, SistemaArchivos, EVENTO_CAIDO, EVENTO_FIN,
    EVENTO_PROGRESO, EVENTO_REGISTRO,
};

/// Los secretos se registran sin los valores: si alguien cambiara la forma
/// de mostrarlos por la de todos los campos, esto lo agarra.
#[test]
fn el_debug_de_secretos_no_muestra_las_contrasenas() {
    let s = Secretos {
        usuario: "correo-caballo-bateria".into(),
        root: "otra-distinta".into(),
        cifrado: "frase-del-disco".into(),
    };
    let texto = s.describir();
    assert!(!texto.contains("correo-caballo-bateria"), "{texto}");
    assert!(!texto.contains("otra-distinta"), "{texto}");
    assert!(!texto.contains("frase-del-disco"), "{texto}");
    assert_eq!(
        texto,
        "Secretos { usuario: \"(oculto)\", root: \"(oculto)\", cifrado: \"(oculto)\" }"
    );
}

/// Cada paso está en `TODOS` exactamente una vez: la interfaz arma la lista
/// con eso y un paso repetido o faltante deja la barra de progreso mintiendo.
#[test]
fn todos_los_pasos_estan_una_vez() {
    let mut claves: Vec<&str> = Paso::TODOS.iter().map(|p| p.clave()).collect();
    let cantidad = claves.len();
    claves.sort_unstable();
    claves.dedup();
    assert_eq!(claves.len(), cantidad, "hay un paso repetido en TODOS");
    assert_eq!(cantidad, 10, "se agregó o se quitó un paso sin actualizar el test");
}

/// Los nombres de los eventos son contrato con la interfaz: cambiar uno acá
/// sin cambiarlo allá deja la barra de progreso quieta sin ningún error.
#[test]
fn los_nombres_de_los_eventos_no_cambian_sin_querer() {
    assert_eq!(EVENTO_PROGRESO, "instalacion://progreso");
    assert_eq!(EVENTO_REGISTRO, "instalacion://registro");
    assert_eq!(EVENTO_FIN, "instalacion://fin");
    assert_eq!(EVENTO_CAIDO, "instalacion://ayudante-caido");
}

#[test]
fn los_pasos_van_en_el_orden_de_la_instalacion() {
    assert_eq!(
        pasos_de_instalacion(),
        vec![
            "particionar",
            "montar",
            "espejos",
            "sistemaBase",
            "escritorio",
            "arranque",
            "usuarios",
            "configuracion",
            "vasakos",
            "cierre"
        ]
    );
}

#[test]
fn el_sistema_de_archivos_va_con_el_nombre_de_archinstall() {
    assert_eq!(SistemaArchivos::Btrfs.como_archinstall(), "btrfs");
    assert_eq!(SistemaArchivos::Ext4.como_archinstall(), "ext4");
    assert_eq!(SistemaArchivos::Xfs.como_archinstall(), "xfs");
}
