//! Lo que se averigua del equipo antes de tocarlo.

use vasak_installer::layout::Firmware;
use vasak_installer::probe::{
    anotar_sistemas_operativos, cpu, detectar_firmware, discos_de, firmware_segun,
    hay_ruta_por_defecto, idiomas, memoria_kib, memoria_total, sondear_sistema, teclados,
    virtualizacion, zonas_de_tabla, zonas_recorriendo_el_arbol, NodoLsblk,
};

#[test]
fn el_firmware_es_uno_de_los_dos() {
    let f = detectar_firmware();
    assert!(matches!(f, Firmware::Uefi | Firmware::Bios));
    assert_eq!(firmware_segun(true), Firmware::Uefi);
    assert_eq!(firmware_segun(false), Firmware::Bios);
}

/// Los fragmentos de `include/` tienen la misma extensión y no son mapas
/// cargables: ofrecerlos hace que `loadkeys` falle en medio de la instalación.
#[test]
fn los_teclados_no_incluyen_los_fragmentos_de_include() {
    let rutas: Vec<String> = [
        "/usr/share/kbd/keymaps/i386/qwerty/us.map.gz",
        "/usr/share/kbd/keymaps/i386/qwerty/es.map.gz",
        "/usr/share/kbd/keymaps/i386/qwerty/us.map.gz",
        "/usr/share/kbd/keymaps/i386/include/linux-keys-bare.map.gz",
        "/usr/share/kbd/keymaps/include/compose.latin1.map.gz",
        "/usr/share/kbd/keymaps/i386/include/euro.map.gz",
        "/usr/share/kbd/keymaps/i386/qwerty/README",
    ]
    .iter()
    .map(|s| s.to_string())
    .collect();
    let lista = teclados(&rutas);
    assert!(lista.iter().any(|t| t == "us"), "no está us");
    for sospechoso in ["linux-keys-bare", "compose.latin1", "euro"] {
        assert!(
            !lista.iter().any(|t| t == sospechoso),
            "se coló el fragmento {sospechoso}"
        );
    }
    assert_eq!(lista, vec!["es", "us"]);
}

const MEMINFO: &str = "\
MemTotal:       16311512 kB
MemFree:         1234567 kB
MemAvailable:    8765432 kB
";

/// El `kB` del final hacía fallar el parseo del número si se tomaba la línea
/// entera; son kibibytes aunque diga `kB`.
#[test]
fn se_lee_la_memoria_de_este_equipo() {
    let m = memoria_total(MEMINFO);
    assert_eq!(m, 16311512 * 1024);
    assert!(m > 64 * 1024 * 1024, "salió {m} bytes de memoria total");
    assert_eq!(memoria_kib("MemFree: 1 kB\n"), None);
    assert_eq!(memoria_kib("MemTotal: muchos kB\n"), None);
    assert_eq!(memoria_total(""), 0);
}

const CPUINFO: &str = "\
processor\t: 0
vendor_id\t: GenuineIntel
model name\t: Intel(R) Core(TM) i5-8250U CPU @ 1.60GHz
cpu cores\t: 4

processor\t: 1
model name\t: Intel(R) Core(TM) i5-8250U CPU @ 1.60GHz
";

#[test]
fn se_lee_la_cpu_de_este_equipo() {
    let (modelo, hilos) = cpu(CPUINFO);
    assert_eq!(modelo, "Intel(R) Core(TM) i5-8250U CPU @ 1.60GHz");
    assert_eq!(hilos, 2);
    let (vacio, cero) = cpu("");
    assert!(vacio.is_empty());
    assert_eq!(cero, 0);
}

#[test]
fn la_ruta_por_defecto_es_la_de_destino_cero() {
    let route = "\
Iface\tDestination\tGateway \tFlags\tRefCnt\tUse\tMetric\tMask
wlan0\t0000A8C0\t00000000\t0001\t0\t0\t600\t00FFFFFF
";
    assert!(!hay_ruta_por_defecto(route));
    let con_defecto = format!("{route}wlan0\t00000000\t0100A8C0\t0003\t0\t0\t600\t00000000\n");
    assert!(hay_ruta_por_defecto(&con_defecto));
    // La cabecera no cuenta aunque dijera ceros.
    assert!(!hay_ruta_por_defecto("x 00000000\n"));
}

#[test]
fn none_no_es_una_virtualizacion() {
    assert_eq!(virtualizacion("none\n"), None);
    assert_eq!(virtualizacion(""), None);
    assert_eq!(virtualizacion("kvm\n").as_deref(), Some("kvm"));
}

#[test]
fn el_sistema_junta_lo_que_se_pudo_leer() {
    let s = sondear_sistema(true, Some(MEMINFO), Some(CPUINFO), None, Some("oracle\n"));
    assert_eq!(s.firmware, Firmware::Uefi);
    assert_eq!(s.memoria_bytes, 16311512 * 1024);
    assert_eq!(s.nucleos, 2);
    assert!(!s.hay_red);
    assert_eq!(s.virtualizacion.as_deref(), Some("oracle"));
}

#[test]
fn las_zonas_horarias_salen_sin_duplicados_ni_alias() {
    let tabla = "\
# tzdb timezone descriptions
#codes\tcoordinates\tTZ\tcomments
AR\t-3436-05827\tAmerica/Argentina/Buenos_Aires\tBuenos Aires (BA, CF)
ES\t+4024-00341\tEurope/Madrid\tSpain (mainland)
AR,UY\t-3436-05827\tAmerica/Argentina/Buenos_Aires
\t\t
US\t+404251-0740023\tAmerica/New_York\tEastern (most areas)
";
    let zonas = zonas_de_tabla(tabla);
    assert_eq!(
        zonas,
        vec!["America/Argentina/Buenos_Aires", "America/New_York", "Europe/Madrid"]
    );
    let mut unicas = zonas.clone();
    unicas.dedup();
    assert_eq!(unicas.len(), zonas.len(), "hay zonas repetidas");

    let del_arbol = zonas_recorriendo_el_arbol(&[
        "Europe/Madrid".to_string(),
        "America/Argentina/Buenos_Aires".to_string(),
    ]);
    assert_eq!(
        del_arbol,
        vec!["America/Argentina/Buenos_Aires", "Europe/Madrid", "UTC"]
    );
}

#[test]
fn los_idiomas_salen_sin_la_codificacion() {
    let supported = "\
aa_DJ.UTF-8 UTF-8
aa_DJ ISO-8859-1
en_US.UTF-8 UTF-8
es_AR.UTF-8 UTF-8
es_AR ISO-8859-1
sr_RS@latin UTF-8
";
    let lista = idiomas(supported);
    assert!(lista.iter().any(|l| l == "es_AR"), "no está es_AR");
    assert!(lista.iter().any(|l| l == "en_US"), "no está en_US");
    assert!(
        !lista.iter().any(|l| l.contains(".UTF-8")),
        "quedó la codificación pegada"
    );
    assert_eq!(lista, vec!["aa_DJ", "en_US", "es_AR", "sr_RS@latin"]);
}

fn nodo(path: &str, pkname: Option<&str>, tipo: &str, montado: Option<&str>) -> NodoLsblk {
    NodoLsblk {
        path: Some(path.to_string()),
        pkname: pkname.map(str::to_string),
        tipo: Some(tipo.to_string()),
        size: Some(512 * 1024 * 1024 * 1024),
        model: None,
        rota: Some(false),
        log_sec: Some(512),
        fstype: None,
        label: None,
        start: Some(2048),
        partn: None,
        parttype: None,
        mountpoints: vec![montado.map(str::to_string)],
        children: Vec::new(),
    }
}

/// `lsblk --json` sin `--tree` devuelve las particiones como hermanas del
/// disco: el disco del que se arrancó tiene que salir en uso y con sus
/// particiones igual.
#[test]
fn el_disco_montado_sale_en_uso_y_con_sus_particiones() {
    let planos = vec![
        nodo("/dev/nvme0n1", None, "disk", None),
        nodo("/dev/nvme0n1p1", Some("nvme0n1"), "part", Some("/boot")),
        nodo("/dev/nvme0n1p2", Some("nvme0n1"), "part", None),
        nodo("/dev/mapper/raiz", Some("nvme0n1p2"), "crypt", Some("/")),
        nodo("/dev/sda", None, "disk", None),
        nodo("/dev/sda1", Some("sda"), "part", None),
        nodo("/dev/zram0", None, "disk", Some("[SWAP]")),
        nodo("/dev/loop0", None, "loop", Some("/run/archiso")),
    ];
    let discos = discos_de(&planos);
    assert_eq!(discos.len(), 2, "{discos:#?}");
    let nvme = &discos[0];
    assert_eq!(nvme.ruta, "/dev/nvme0n1");
    assert!(nvme.en_uso);
    assert!(nvme.nvme);
    // Sin modelo informado, la ruta identifica.
    assert_eq!(nvme.modelo, "/dev/nvme0n1");
    assert_eq!(nvme.particiones.len(), 2);
    assert_eq!(nvme.particiones[0].inicio_bytes, 2048 * 512);
    for p in &nvme.particiones {
        assert!(p.ruta.starts_with(&nvme.ruta));
    }
    let sda = &discos[1];
    assert!(!sda.en_uso);
    assert!(!sda.nvme);
    assert_eq!(sda.particiones.len(), 1);
}

/// Con `--tree` los hijos vienen anidados; el resultado es el mismo.
#[test]
fn el_arbol_anidado_da_lo_mismo_que_la_lista_plana() {
    let mut disco = nodo("/dev/sda", None, "disk", None);
    let mut part = nodo("/dev/sda1", Some("sda"), "part", None);
    part.children.push(nodo("/dev/mapper/x", Some("sda1"), "crypt", Some("/home")));
    disco.children.push(part);
    let discos = discos_de(&[disco]);
    assert_eq!(discos.len(), 1);
    assert!(discos[0].en_uso, "el nieto montado no se vio");
    assert_eq!(discos[0].particiones.len(), 1);
}

#[test]
fn el_sondeo_no_devuelve_pseudodiscos() {
    let planos = vec![
        nodo("/dev/zram0", None, "disk", None),
        nodo("/dev/loop3", None, "disk", None),
        nodo("/dev/ram0", None, "disk", None),
        nodo("/dev/sr0", None, "disk", None),
        nodo("/dev/fd0", None, "disk", None),
        nodo("/dev/vda", None, "disk", None),
    ];
    let discos = discos_de(&planos);
    assert_eq!(discos.len(), 1);
    assert_eq!(discos[0].ruta, "/dev/vda");
}

#[test]
fn os_prober_pone_nombre_a_lo_que_se_va_a_borrar() {
    let planos = vec![
        nodo("/dev/sda", None, "disk", None),
        nodo("/dev/sda1", Some("sda"), "part", None),
        nodo("/dev/sda2", Some("sda"), "part", None),
    ];
    let mut discos = discos_de(&planos);
    anotar_sistemas_operativos(
        &mut discos,
        "/dev/sda2:Windows Boot Manager:Windows:efi\nbasura sin separador\n",
    );
    assert_eq!(discos[0].particiones[0].sistema_operativo, None);
    assert_eq!(
        discos[0].particiones[1].sistema_operativo.as_deref(),
        Some("Windows Boot Manager")
    );
}

#[test]
fn el_firmware_se_mira_en_el_directorio_que_crea_el_kernel() {
    assert_eq!(vasak_installer::probe::ruta_efi(), "/sys/firmware/efi");
}
