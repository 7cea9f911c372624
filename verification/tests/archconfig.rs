//! Lo que se le entrega a archinstall.

use vasak_installer::archconfig::{candidatas_de_paquetes, candidatas_de_plugin};
use vasak_installer::archconfig::{
    configuracion, credenciales, leer_paquetes, servicios_de_sistema, Configuracion,
    FuentesDePaquetes, REPO_NOMBRE, REPO_URL,
};
use vasak_installer::complementos::Aporte;
use vasak_installer::conjunto::Conjunto;
use vasak_installer::layout::{planificar_borrando, Disco, Firmware};
use vasak_installer::protocol::{EsquemaDisco, PlanInstalacion, Secretos, SistemaArchivos};

fn disco() -> Disco {
    Disco {
        ruta: "/dev/nvme0n1".into(),
        modelo: "Prueba".into(),
        tamano_bytes: 256 * 1024 * 1024 * 1024,
        sector_logico: 512,
        rotacional: false,
        nvme: true,
        en_uso: false,
        particiones: Vec::new(),
    }
}

fn plan(cifrar: bool) -> PlanInstalacion {
    PlanInstalacion {
        disco: "/dev/nvme0n1".into(),
        esquema: EsquemaDisco::BorrarTodo,
        particion_destino: None,
        asignaciones: Vec::new(),
        sistema_archivos: SistemaArchivos::Btrfs,
        cifrar,
        zram: true,
        zona_horaria: "America/Argentina/Buenos_Aires".into(),
        idioma_sistema: "es_AR".into(),
        teclado: "la-latin1".into(),
        ntp: true,
        hostname: "vasak".into(),
        nombre_completo: "Persona de Prueba".into(),
        usuario: "persona".into(),
        administrador: true,
        root_habilitado: false,
        complementos: vec!["firefox".into(), "impresoras".into()],
        secretos: Secretos {
            usuario: "clave-del-usuario".into(),
            root: String::new(),
            cifrado: if cifrar { "frase-del-disco".into() } else { String::new() },
        },
    }
}

fn sin_aporte() -> Aporte {
    Aporte { paquetes: Vec::new(), servicios: Vec::new() }
}

fn config(cifrar: bool) -> Configuracion {
    let d = disco();
    let particiones = planificar_borrando(&d, Firmware::Uefi, SistemaArchivos::Btrfs, cifrar).unwrap();
    let escritorio = ["base".to_string(), "vasakos-desktop".to_string()];
    let aporte = Aporte {
        paquetes: vec!["cups".into(), "firefox".into()],
        servicios: vec!["cups.socket".into()],
    };
    let necesarios = Conjunto::new();
    configuracion(
        &plan(cifrar),
        &particiones,
        d.sector_logico,
        Firmware::Uefi,
        &FuentesDePaquetes { escritorio: &escritorio, aporte: &aporte, necesarios: &necesarios },
        Some("4.4.0"),
    )
}

fn config_de(firmware: Firmware, fs: SistemaArchivos, d: &Disco, escritorio: &[String]) -> Configuracion {
    let particiones = planificar_borrando(d, firmware, fs, false).unwrap();
    let aporte = sin_aporte();
    let necesarios = Conjunto::new();
    configuracion(
        &plan(false),
        &particiones,
        d.sector_logico,
        firmware,
        &FuentesDePaquetes { escritorio, aporte: &aporte, necesarios: &necesarios },
        Some("4.4.0"),
    )
}

#[test]
fn el_comentario_no_se_cuela_como_paquete() {
    let texto = "\
# un comentario
base
   linux
vasak-desktop # con comentario al final

# otro
zsh";
    assert_eq!(
        leer_paquetes(texto),
        vec!["base", "linux", "vasak-desktop", "zsh"]
    );
}

/// Ninguna partición va sin `fs_type`: archinstall pide `safe_fs_type` para
/// todas las que crea y revienta con «File system type is not set».
#[test]
fn ninguna_particion_del_json_va_sin_fs_type() {
    let d = disco();
    for firmware in [Firmware::Uefi, Firmware::Bios] {
        for fs in [SistemaArchivos::Ext4, SistemaArchivos::Btrfs] {
            let c = config_de(firmware, fs, &d, &["base".to_string()]);
            assert!(!c.particiones.is_empty());
            for p in &c.particiones {
                assert!(
                    p.sistema_archivos.is_some(),
                    "fs_type = {:?} con {firmware:?}/{fs:?}",
                    p.sistema_archivos
                );
            }
        }
    }
}

/// Una partición que archinstall reconozca como arranque, en los dos
/// firmwares: bandera `boot` y punto de montaje en la misma.
#[test]
fn el_json_siempre_lleva_una_particion_de_arranque() {
    for firmware in [Firmware::Uefi, Firmware::Bios] {
        for fs in [SistemaArchivos::Ext4, SistemaArchivos::Btrfs] {
            let d = disco();
            let c = config_de(firmware, fs, &d, &["base".to_string()]);
            let arranque = c
                .particiones
                .iter()
                .find(|p| p.banderas.contains(&"boot") && p.punto_montaje.is_some())
                .unwrap_or_else(|| {
                    panic!("{firmware:?}/{fs:?}: no hay partición de arranque: {:#?}", c.particiones)
                });
            assert_eq!(arranque.punto_montaje, Some("/boot"), "{firmware:?}/{fs:?}");
            assert!(arranque.sistema_archivos.is_some(), "{firmware:?}/{fs:?}");
        }
    }
}

#[test]
fn en_bios_el_json_no_marca_ninguna_esp() {
    let d = disco();
    let c = config_de(Firmware::Bios, SistemaArchivos::Btrfs, &d, &["base".to_string()]);
    for p in &c.particiones {
        assert!(!p.banderas.contains(&"esp"), "en BIOS quedó una bandera esp: {p:#?}");
    }
}

#[test]
fn el_repositorio_de_vasakos_va_en_la_configuracion() {
    assert_eq!(REPO_NOMBRE, "vasakos");
    // Sin el repo, `pacstrap` no encuentra ningún `vasak-*` y la instalación
    // muere después de formatear el disco.
    assert!(REPO_URL.contains("$repo"));
    let c = config(false);
    assert_eq!(c.repositorio_nombre, "vasakos");
    assert_eq!(c.repositorio_url, REPO_URL);
    assert!(c.repositorio_con_firma);
}

#[test]
fn la_seccion_de_cifrado_va_solo_si_algo_se_cifra() {
    assert!(!config(false).lleva_cifrado());
    assert!(config(true).lleva_cifrado());
}

/// Arch sirve `$repo/os/$arch`; VasakOS sirve `repo/$arch/$repo`. El test fija
/// el orden exacto.
#[test]
fn la_url_del_repositorio_tiene_el_orden_de_vasakos() {
    assert_eq!(REPO_URL, "https://repo.vasak.net.ar/repo/$arch/$repo");
    assert!(
        !REPO_URL.contains("/os/"),
        "«/os/» es la convención de Arch, no la de VasakOS"
    );
    let arch = REPO_URL.find("$arch").expect("falta $arch");
    let repo = REPO_URL.rfind("$repo").expect("falta $repo");
    assert!(arch < repo, "$arch tiene que ir antes que $repo: {REPO_URL}");
}

#[test]
fn la_raiz_btrfs_va_sin_punto_de_montaje_y_con_subvolumenes() {
    let c = config(false);
    assert_eq!(c.particiones.len(), 2);

    let esp = &c.particiones[0];
    assert_eq!(esp.punto_montaje, Some("/boot"));
    assert_eq!(esp.sistema_archivos, Some("fat32"));

    let raiz = &c.particiones[1];
    assert!(raiz.punto_montaje.is_none(), "{raiz:?}");
    assert_eq!(raiz.subvolumenes.len(), 7);
    assert_eq!(raiz.subvolumenes[0], ("@", "/"));
    // Con `@` en `/` se piden las instantáneas.
    assert!(c.instantaneas);
}

#[test]
fn los_tamanos_llevan_el_sector_del_disco() {
    let mut d = disco();
    d.sector_logico = 4096;
    let c = config_de(Firmware::Uefi, SistemaArchivos::Ext4, &d, &[]);
    let esp = &c.particiones[0];
    // Con 512 fijo, archinstall calcularía ocho veces menos espacio del que
    // hay y la última partición no entraría.
    assert_eq!(esp.sector_logico, 4096);
    assert_eq!(esp.tamano_mib, 1024);
    // Sin btrfs no hay instantáneas que pedir.
    assert!(!c.instantaneas);
}

#[test]
fn sin_cifrado_no_aparece_la_seccion_de_cifrado() {
    let c = config(false);
    assert!(c.cifradas.is_empty(), "{c:?}");
}

#[test]
fn con_cifrado_se_apunta_a_la_raiz_y_no_al_esp() {
    let c = config(true);
    // Sólo una, y es la segunda: cifrar el ESP produce un equipo que no
    // arranca porque el firmware lo lee antes de que exista quien descifre.
    assert_eq!(c.cifradas, vec!["vsk-part-1"]);
    assert_eq!(c.particiones[0].obj_id, "vsk-part-0");
    assert_eq!(c.particiones[1].obj_id, "vsk-part-1");
}

#[test]
fn el_json_no_lleva_ninguna_contrasena() {
    let c = config(true);
    let texto = format!("{c:?}");
    assert!(!texto.contains("clave-del-usuario"), "{texto}");
    assert!(!texto.contains("frase-del-disco"), "{texto}");
}

#[test]
fn las_credenciales_llevan_el_hash_y_no_la_contrasena() {
    let p = plan(true);
    let creds = credenciales(&p, "$6$sal$hash", None, Some("frase-del-disco"));
    let texto = format!("{creds:?}");

    assert!(!texto.contains("clave-del-usuario"), "{texto}");
    assert_eq!(creds.hash_usuario, "$6$sal$hash");
    assert_eq!(creds.usuario, "persona");
    assert!(creds.sudo);
    // La frase de LUKS sí va en claro: cryptsetup necesita la frase.
    assert_eq!(creds.frase_cifrado.as_deref(), Some("frase-del-disco"));
}

#[test]
fn root_deshabilitado_deja_la_clave_en_null_explicito() {
    let creds = credenciales(&plan(false), "$6$x$y", None, None);
    assert!(creds.hash_root.is_none());
}

#[test]
fn un_usuario_sin_privilegios_no_va_a_wheel() {
    let mut p = plan(false);
    p.administrador = false;
    let creds = credenciales(&p, "$6$x$y", None, None);
    assert!(!creds.grupos.contains(&"wheel".to_string()), "{:?}", creds.grupos);
    assert!(!creds.sudo);
    assert!(creds.grupos.contains(&"video".to_string()));
    assert!(creds.grupos.contains(&"audio".to_string()));
}

#[test]
fn los_complementos_se_funden_en_la_lista_de_paquetes() {
    let c = config(false);
    let paquetes: Vec<&str> = c.paquetes.iter().map(String::as_str).collect();

    assert!(paquetes.contains(&"vasakos-desktop"), "{paquetes:?}");
    assert!(paquetes.contains(&"firefox"), "{paquetes:?}");
    assert!(paquetes.contains(&"cups"), "{paquetes:?}");

    let mut ordenados = paquetes.clone();
    ordenados.sort_unstable();
    assert_eq!(paquetes, ordenados, "los paquetes no salen ordenados");
    ordenados.dedup();
    assert_eq!(paquetes.len(), ordenados.len(), "hay paquetes repetidos");
}

#[test]
fn los_servicios_de_los_complementos_no_pisan_los_del_sistema() {
    let c = config(false);
    let servicios: Vec<&str> = c.servicios.iter().map(String::as_str).collect();
    assert!(servicios.contains(&"greetd"), "{servicios:?}");
    assert!(servicios.contains(&"NetworkManager"), "{servicios:?}");
    assert!(servicios.contains(&"cups.socket"), "{servicios:?}");
}

#[test]
fn sin_complementos_no_se_suma_nada() {
    let d = disco();
    let c = config_de(Firmware::Uefi, SistemaArchivos::Btrfs, &d, &["base".to_string()]);
    assert_eq!(c.paquetes.len(), 1);
    assert_eq!(
        c.servicios.len(),
        servicios_de_sistema().len(),
        "sin complementos los servicios son sólo los fijos"
    );
}

#[test]
fn greetd_esta_entre_los_servicios() {
    let c = config(false);
    assert!(c.servicios.contains(&"greetd".to_string()));
    assert!(c.servicios.contains(&"NetworkManager".to_string()));
}

#[test]
fn lo_que_no_cambia_con_el_plan_sale_del_plan() {
    let c = config(false);
    assert_eq!(c.version.as_deref(), Some("4.4.0"));
    assert_eq!(c.nombre_equipo, "vasak");
    assert_eq!(c.kernels, vec!["linux"]);
    assert_eq!(c.zona_horaria, "America/Argentina/Buenos_Aires");
    assert_eq!(c.idioma, "es_AR");
    assert_eq!(c.teclado, "la-latin1");
    assert_eq!(c.disco, "/dev/nvme0n1");
    assert!(c.borrar_disco);
    assert!(c.zram);
    assert_eq!(c.firmware, "uefi");
    assert_eq!(c.sistema_archivos, "btrfs");
    assert_eq!(c.complementos, vec!["firefox", "impresoras"]);
    assert_eq!(c.particiones[0].estado, "create");
    assert!(c.particiones.iter().all(|p| p.ruta.is_none()));
}

#[test]
fn los_paquetes_del_archivo_no_traen_blancos_ni_comentarios() {
    let paquetes = leer_paquetes("  # sólo comentario\n\t\n linux-headers  # kernel\r\n#\n");
    assert_eq!(paquetes, vec!["linux-headers"]);
}

#[test]
fn no_hay_perfil_de_archinstall() {
    // Un perfil instalaría un escritorio de terceros con su propio greeter,
    // que competiría con greetd por el arranque gráfico: la configuración no
    // tiene dónde llevarlo.
    let c = config(false);
    let texto = format!("{c:?}");
    assert!(!texto.contains("perfil"), "{texto}");
    assert!(!texto.contains("profile"), "{texto}");
}

#[test]
fn las_rutas_candidatas_van_del_arbol_de_desarrollo_al_paquete() {
    assert_eq!(
        candidatas_de_paquetes(),
        ["src-tauri/paquetes.txt", "paquetes.txt", "/usr/share/vasak-installer/paquetes.txt"]
    );
    assert_eq!(
        candidatas_de_plugin(),
        ["src-tauri/plugin/vasakos.py", "plugin/vasakos.py", "/usr/share/vasak-installer/plugin/vasakos.py"]
    );
}
