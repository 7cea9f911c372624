//! Los complementos: qué se suma a la instalación y qué se propone de entrada.

use vasak_installer::complementos::candidatas_de_catalogo;
use vasak_installer::complementos::{
    aporte_de, preseleccion, revisar_catalogo, Aporte, Categoria, Complemento, ErrorCatalogo,
};
use vasak_installer::conjunto::Conjunto;

fn textos(v: &[&str]) -> Vec<String> {
    v.iter().map(|s| s.to_string()).collect()
}

fn complemento(
    id: &str,
    categoria: Categoria,
    paquetes: &[&str],
    servicios: &[&str],
    detectar: Option<&str>,
    exclusivo: bool,
    por_defecto: bool,
) -> Complemento {
    Complemento {
        id: id.into(),
        categoria,
        paquetes: textos(paquetes),
        servicios: textos(servicios),
        icono: String::new(),
        detectar: detectar.map(str::to_string),
        exclusivo,
        por_defecto,
    }
}

fn catalogo_de_prueba() -> Vec<Complemento> {
    revisar_catalogo(vec![
        complemento("firefox", Categoria::Navegador, &["firefox"], &[], None, true, true),
        complemento("chromium", Categoria::Navegador, &["chromium"], &[], None, true, false),
        complemento(
            "impresoras",
            Categoria::Impresoras,
            &["cups", "hplip"],
            &["cups.socket", "avahi-daemon"],
            None,
            false,
            false,
        ),
        complemento("nvidia", Categoria::Drivers, &["nvidia-dkms"], &[], Some("gpu-nvidia"), false, false),
        complemento("amd", Categoria::Drivers, &["vulkan-radeon"], &[], Some("gpu-amd"), false, false),
    ])
    .unwrap()
}

fn conjunto(v: &[&str]) -> Conjunto {
    let mut c = Conjunto::new();
    for s in v {
        c.insert(s.to_string());
    }
    c
}

#[test]
fn un_id_repetido_se_rechaza() {
    let error = revisar_catalogo(vec![
        complemento("firefox", Categoria::Navegador, &[], &[], None, false, false),
        complemento("firefox", Categoria::Extras, &[], &[], None, false, false),
    ])
    .unwrap_err();
    assert_eq!(error, ErrorCatalogo::IdRepetido("firefox".into()));
    assert_eq!(
        error.describir(),
        "hay dos complementos con el identificador «firefox»"
    );
}

#[test]
fn el_aporte_junta_paquetes_y_servicios() {
    let catalogo = catalogo_de_prueba();
    let aporte = aporte_de(&catalogo, &["firefox".into(), "impresoras".into()]);

    assert_eq!(aporte.paquetes, vec!["cups", "firefox", "hplip"]);
    assert_eq!(aporte.servicios, vec!["avahi-daemon", "cups.socket"]);
}

#[test]
fn lo_que_no_se_eligio_no_se_instala() {
    let catalogo = catalogo_de_prueba();
    let aporte = aporte_de(&catalogo, &["firefox".into()]);
    assert!(!aporte.paquetes.contains(&"chromium".to_string()));
    assert!(!aporte.paquetes.contains(&"nvidia-dkms".to_string()));
    assert!(aporte.servicios.is_empty());
}

#[test]
fn un_id_que_no_existe_se_ignora_sin_romper() {
    let catalogo = catalogo_de_prueba();
    let aporte = aporte_de(&catalogo, &["firefox".into(), "ya-no-existe".into()]);
    assert_eq!(aporte.paquetes, vec!["firefox"]);
}

#[test]
fn sin_nada_elegido_no_se_suma_nada() {
    assert_eq!(
        aporte_de(&catalogo_de_prueba(), &[]),
        Aporte { paquetes: Vec::new(), servicios: Vec::new() }
    );
}

#[test]
fn el_aporte_no_repite_paquetes() {
    let catalogo = revisar_catalogo(vec![
        complemento("uno", Categoria::Extras, &["avahi", "cups"], &[], None, false, false),
        complemento("dos", Categoria::Extras, &["avahi", "sane"], &[], None, false, false),
    ])
    .unwrap();
    let aporte = aporte_de(&catalogo, &["uno".into(), "dos".into()]);
    assert_eq!(aporte.paquetes, vec!["avahi", "cups", "sane"]);
}

#[test]
fn el_hardware_detectado_propone_su_controlador() {
    let catalogo = catalogo_de_prueba();
    let elegidos = preseleccion(&catalogo, &conjunto(&["gpu-nvidia"]));

    assert!(elegidos.contains(&"nvidia".to_string()), "{elegidos:?}");
    assert!(!elegidos.contains(&"amd".to_string()), "{elegidos:?}");
}

#[test]
fn sin_hardware_detectado_solo_van_los_de_por_defecto() {
    let elegidos = preseleccion(&catalogo_de_prueba(), &Conjunto::new());
    assert_eq!(elegidos, vec!["firefox"]);
}

#[test]
fn entre_los_exclusivos_queda_uno_solo() {
    let catalogo = revisar_catalogo(vec![
        complemento("firefox", Categoria::Navegador, &[], &[], None, true, true),
        complemento("chromium", Categoria::Navegador, &[], &[], None, true, true),
    ])
    .unwrap();
    let elegidos = preseleccion(&catalogo, &Conjunto::new());
    assert_eq!(elegidos, vec!["firefox"]);
}

#[test]
fn las_categorias_tienen_su_clave_y_su_orden() {
    let claves: Vec<&str> = Categoria::TODAS.iter().map(|c| c.clave()).collect();
    assert_eq!(claves, ["navegador", "drivers", "impresoras", "extras"]);
}

#[test]
fn cada_error_del_catalogo_se_explica() {
    assert_eq!(ErrorCatalogo::NoSeEncontro.describir(), "no se encontró complementos.toml");
    assert_eq!(
        ErrorCatalogo::NoSePudoLeer("permiso denegado".into()).describir(),
        "no se pudo leer complementos.toml: permiso denegado"
    );
    assert_eq!(
        ErrorCatalogo::NoSeEntiende("línea 3".into()).describir(),
        "complementos.toml tiene un error: línea 3"
    );
}

#[test]
fn el_catalogo_se_busca_en_el_arbol_de_desarrollo_y_despues_en_el_paquete() {
    assert_eq!(
        candidatas_de_catalogo(),
        ["src-tauri/complementos.toml", "complementos.toml", "/usr/share/vasak-installer/complementos.toml"]
    );
}
