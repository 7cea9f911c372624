//! Las decisiones del ayudante privilegiado.

use vasak_installer::helper::{linea_en_blanco, que_hacer_con_la_linea, Recepcion};
use vasak_installer::protocol::CuerpoPeticion;
use vasak_installer::complementos::{Categoria, Complemento, ErrorCatalogo};
use vasak_installer::conflictos::Choque;
use vasak_installer::conjunto::Conjunto;
use vasak_installer::helper::{
    a_quien_senalar, aporte_o_nada, desenlace, disenos_conocidos, falta_la_frase,
    hash_de_salida, linea_para_registro, lineas_completas, paquetes_del_escritorio,
    plan_de_instalacion, revisar_contrasena, teclado_del_escritorio, tras_la_comprobacion,
    veredicto_de_choques, version_de,
};
use vasak_installer::layout::{Disco, Firmware};
use vasak_installer::protocol::{EsquemaDisco, Nivel, PlanInstalacion, Secretos, SistemaArchivos};

/// `openssl passwd -stdin` lee una sola línea: con un `\n` en el medio
/// hashearía sólo la primera mitad, y la persona no podría entrar con la
/// contraseña que tipeó.
#[test]
fn una_contrasena_con_salto_de_linea_se_rechaza() {
    assert!(revisar_contrasena("mitad\ny la otra mitad").is_err());
    assert!(revisar_contrasena("con\ttabulación").is_err());
    assert_eq!(
        revisar_contrasena(""),
        Err("la contraseña está vacía".to_string())
    );
    assert_eq!(
        revisar_contrasena("a\u{7f}b"),
        Err("la contraseña tiene caracteres de control".to_string())
    );
}

/// Rechazarlos sería empobrecer las contraseñas por comodidad nuestra.
#[test]
fn el_espacio_y_los_acentos_se_aceptan() {
    assert!(revisar_contrasena("contraseña con espacios").is_ok());
    assert!(revisar_contrasena("ñandú y coração").is_ok());
}

#[test]
fn el_hash_sale_con_formato_sha512() {
    assert_eq!(
        hash_de_salida("$6$sal$hash\n"),
        Ok("$6$sal$hash".to_string())
    );
    // El mensaje de uso de openssl, por ejemplo, no es un hash.
    assert_eq!(
        hash_de_salida("Usage: passwd [options]\n"),
        Err("openssl no devolvió un hash SHA-512".to_string())
    );
    assert!(hash_de_salida("$5$sal$hash").is_err());
    assert!(hash_de_salida("").is_err());
}

#[test]
fn la_version_vacia_no_es_una_version() {
    assert_eq!(version_de("4.4.0\n").as_deref(), Some("4.4.0"));
    assert_eq!(version_de("  \n"), None);
    assert_eq!(linea_para_registro("  \r\n"), None);
    assert_eq!(
        linea_para_registro(":: Sincronizando\r\n").as_deref(),
        Some(":: Sincronizando")
    );
}

/// Cancelar sin nada corriendo no manda ninguna señal: con el grupo en cero,
/// `kill(-0, SIGKILL)` le llegaría al grupo del propio ayudante.
#[test]
fn cancelar_sin_nada_corriendo_no_hace_nada() {
    assert_eq!(a_quien_senalar(0), None);
    assert_eq!(a_quien_senalar(-5), None);
    assert_eq!(a_quien_senalar(1234), Some(-1234));
}

#[test]
fn como_termino_archinstall_se_dice_sin_confundir_una_cancelacion() {
    assert_eq!(desenlace(true, true, None), Ok(()));
    assert_eq!(
        desenlace(false, true, Some(1)),
        Err("la instalación se canceló".to_string())
    );
    assert_eq!(
        desenlace(false, false, None),
        Err("archinstall se interrumpió sin terminar".to_string())
    );
    assert_eq!(
        desenlace(false, false, Some(1)),
        Err("archinstall terminó con código 1. El registro de arriba dice dónde falló; el detalle completo está en /var/log/archinstall/install.log".to_string())
    );
    assert!(desenlace(false, false, Some(-9))
        .unwrap_err()
        .starts_with("archinstall terminó con código -9."));
    assert!(desenlace(false, false, Some(i32::MIN))
        .unwrap_err()
        .starts_with("archinstall terminó con código -2147483648."));
}

#[test]
fn los_choques_frenan_antes_de_formatear() {
    assert_eq!(veredicto_de_choques(&[]), Ok(()));
    let choques = vec![
        Choque { uno: "jack2".into(), otro: "pipewire-jack".into(), por: "jack".into() },
        Choque { uno: "a".into(), otro: "b".into(), por: "c".into() },
    ];
    assert_eq!(
        veredicto_de_choques(&choques),
        Err("los paquetes elegidos no se pueden instalar juntos, así que no se tocó el disco: jack2 y pipewire-jack no pueden convivir (por «jack»); a y b no pueden convivir (por «c»). Suele ser una dependencia virtual con más de un proveedor: hay que nombrar el que corresponde en /usr/share/vasak-installer/paquetes.txt".to_string())
    );
}

/// El seguidor de eventos no puede entregar una línea a medio escribir: el
/// plugin escribe y el seguidor lee al mismo tiempo.
#[test]
fn el_seguidor_espera_la_linea_completa() {
    let mut pendiente = String::from("{\"kind\":\"log\"}\n\n  {\"kind\":\"done\"}  \n{\"kind\":\"pro");
    let listas = lineas_completas(&mut pendiente);
    assert_eq!(listas, vec!["{\"kind\":\"log\"}", "{\"kind\":\"done\"}"]);
    assert_eq!(pendiente, "{\"kind\":\"pro");

    pendiente.push_str("gress\"}\n");
    assert_eq!(lineas_completas(&mut pendiente), vec!["{\"kind\":\"progress\"}"]);
    assert_eq!(pendiente, "");
}

#[test]
fn los_disenos_de_xkb_salen_de_la_seccion_layout() {
    let base = "\
! model
  pc105           Generic 105-key PC

! layout
  us              English (US)
  latam           Spanish (Latin American)
  es              Spanish

! variant
  dvorak          us: English (Dvorak)
";
    let d = disenos_conocidos(Some(base));
    assert!(d.contains("latam"));
    assert!(d.contains("us"));
    assert!(!d.contains("pc105"));
    assert!(!d.contains("dvorak"));
    assert!(disenos_conocidos(None).is_empty());
}

fn plan() -> PlanInstalacion {
    PlanInstalacion {
        disco: "/dev/vda".into(),
        esquema: EsquemaDisco::BorrarTodo,
        particion_destino: None,
        asignaciones: Vec::new(),
        sistema_archivos: SistemaArchivos::Ext4,
        cifrar: false,
        zram: true,
        zona_horaria: "UTC".into(),
        idioma_sistema: "es_AR".into(),
        teclado: "la-latin1".into(),
        ntp: true,
        hostname: "vasakos".into(),
        nombre_completo: "Prueba".into(),
        usuario: "prueba".into(),
        administrador: true,
        root_habilitado: false,
        complementos: Vec::new(),
        secretos: Secretos { usuario: "x".into(), root: String::new(), cifrado: String::new() },
    }
}

fn disco() -> Disco {
    Disco {
        ruta: "/dev/vda".into(),
        modelo: "QEMU HARDDISK".into(),
        tamano_bytes: 50 * 1024 * 1024 * 1024,
        sector_logico: 512,
        rotacional: true,
        nvme: false,
        en_uso: false,
        particiones: Vec::new(),
    }
}

#[test]
fn el_plan_sale_del_esquema_elegido_y_del_disco_de_ahora() {
    let p = plan_de_instalacion(&[disco()], &plan(), Firmware::Bios).unwrap();
    assert!(p.borrar_disco);
    assert_eq!(p.particiones.len(), 2);

    assert_eq!(
        plan_de_instalacion(&[], &plan(), Firmware::Uefi).unwrap_err(),
        "el disco /dev/vda ya no está"
    );

    let mut junto = plan();
    junto.esquema = EsquemaDisco::JuntoAOtroSistema;
    assert_eq!(
        plan_de_instalacion(&[disco()], &junto, Firmware::Bios).unwrap_err(),
        "instalar junto a otro sistema sólo está disponible en equipos UEFI"
    );
}

#[test]
fn el_cifrado_sin_frase_se_frena() {
    assert_eq!(falta_la_frase(&plan()), None);
    let mut p = plan();
    p.cifrar = true;
    assert_eq!(falta_la_frase(&p).as_deref(), Some("se pidió cifrado pero no hay frase"));
}

#[test]
fn un_archivo_de_paquetes_vacio_frena_la_instalacion() {
    assert_eq!(
        paquetes_del_escritorio("/usr/share/vasak-installer/paquetes.txt", "# nada\n\n"),
        Err("/usr/share/vasak-installer/paquetes.txt no tiene ningún paquete".to_string())
    );
    assert_eq!(
        paquetes_del_escritorio("p.txt", "vasakos-desktop\nlinux\n"),
        Ok(vec!["vasakos-desktop".to_string(), "linux".to_string()])
    );
}

#[test]
fn un_catalogo_ilegible_no_aborta_la_instalacion() {
    let (aporte, aviso) = aporte_o_nada(Err(ErrorCatalogo::NoSeEncontro), &["firefox".into()]);
    assert!(aporte.paquetes.is_empty() && aporte.servicios.is_empty());
    assert_eq!(
        aviso.as_deref(),
        Some("no se pudo leer el catálogo de complementos (no se encontró complementos.toml); se instala el escritorio sin navegador ni controladores opcionales")
    );

    let catalogo = vec![Complemento {
        id: "firefox".into(),
        categoria: Categoria::Navegador,
        paquetes: vec!["firefox".into()],
        servicios: Vec::new(),
        icono: "firefox".into(),
        detectar: None,
        exclusivo: true,
        por_defecto: true,
    }];
    let (aporte, aviso) = aporte_o_nada(Ok(catalogo), &["firefox".into()]);
    assert_eq!(aporte.paquetes, vec!["firefox"]);
    assert_eq!(aviso, None);
}

#[test]
fn un_teclado_sin_diseno_cae_al_respaldo_avisando() {
    let mut conocidos = Conjunto::new();
    conocidos.insert("us".into());
    conocidos.insert("latam".into());
    let (par, aviso) = teclado_del_escritorio("la-latin1", &conocidos);
    assert_eq!(par, ("latam".to_string(), String::new()));
    assert_eq!(aviso, None);

    let (par, aviso) = teclado_del_escritorio("no-existe", &conocidos);
    assert_eq!(par, ("us".to_string(), String::new()));
    assert_eq!(
        aviso.as_deref(),
        Some("el teclado «no-existe» no tiene diseño de XKB conocido; el escritorio arranca con «us»")
    );
}

#[test]
fn una_comprobacion_que_no_pudo_correr_no_frena_salvo_que_se_cancele() {
    assert_eq!(
        tras_la_comprobacion(Ok(Vec::new()), false),
        Ok((Nivel::Info, "los paquetes pueden convivir".to_string()))
    );
    assert_eq!(
        tras_la_comprobacion(Err("sin red".into()), false),
        Ok((
            Nivel::Warn,
            "no se pudo comprobar si los paquetes conviven (sin red); se sigue igual".to_string()
        ))
    );
    assert_eq!(
        tras_la_comprobacion(Err("la instalación se canceló".into()), true),
        Err("la instalación se canceló".to_string())
    );
    let choque = Choque { uno: "a".into(), otro: "b".into(), por: "c".into() };
    assert!(tras_la_comprobacion(Ok(vec![choque]), false)
        .unwrap_err()
        .starts_with("los paquetes elegidos no se pueden instalar juntos"));
}

#[test]
fn una_linea_en_blanco_se_saltea_y_cancelar_no_espera_turno() {
    assert!(linea_en_blanco(""));
    assert!(linea_en_blanco("  \t "));
    assert!(!linea_en_blanco(" {} "));
    assert_eq!(que_hacer_con_la_linea(true, None), Recepcion::Saltear);
    assert_eq!(que_hacer_con_la_linea(false, None), Recepcion::Registrar);
    assert_eq!(que_hacer_con_la_linea(false, Some(&CuerpoPeticion::Cancelar)), Recepcion::CancelarYa);
    assert_eq!(que_hacer_con_la_linea(false, Some(&CuerpoPeticion::SondearDiscos)), Recepcion::Encolar);
    assert_eq!(que_hacer_con_la_linea(false, Some(&CuerpoPeticion::SondearSistema)), Recepcion::Encolar);
}
