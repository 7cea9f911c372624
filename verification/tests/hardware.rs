//! Lo que el hardware de esta máquina pide, y lo que no.

use vasak_installer::conjunto::Conjunto;
use vasak_installer::hardware::{
    detectar, detectar_en, leer_hex, paquetes, senales_del_medio, Hardware, VENDOR_AMD,
    VENDOR_BROADCOM, VENDOR_INTEL, VENDOR_NVIDIA,
};

/// Un dispositivo PCI como lo deja `/sys`: `vendor` y `class` en hexadecimal,
/// leídos como los lee el sondeo.
fn dispositivo(vendor: u32, clase: u32) -> (Option<u32>, Option<u32>) {
    (
        leer_hex(&format!("0x{vendor:04x}\n")),
        leer_hex(&format!("0x{clase:06x}\n")),
    )
}

fn arbol(dispositivos: &[(&str, u32, u32)]) -> Vec<(Option<u32>, Option<u32>)> {
    dispositivos.iter().map(|(_, v, c)| dispositivo(*v, *c)).collect()
}

#[test]
fn una_nvidia_de_video_se_detecta() {
    let hw = detectar_en(&arbol(&[("0000:01:00.0", VENDOR_NVIDIA, 0x030000)]));
    assert!(hw.marcas.contains("gpu-nvidia"), "{hw:?}");
    assert!(hw.descripciones.iter().any(|d| d.contains("NVIDIA")));
}

/// El caso más común en una portátil: gráficos integrados de Intel y una
/// NVIDIA dedicada. Las dos tienen que aparecer.
#[test]
fn una_hibrida_detecta_las_dos_placas() {
    let hw = detectar_en(&arbol(&[
        ("0000:00:02.0", VENDOR_INTEL, 0x030000),
        ("0000:01:00.0", VENDOR_NVIDIA, 0x030000),
    ]));
    assert!(hw.marcas.contains("gpu-intel"), "{hw:?}");
    assert!(hw.marcas.contains("gpu-nvidia"), "{hw:?}");
}

#[test]
fn una_amd_de_video_se_detecta() {
    assert!(detectar_en(&arbol(&[("0000:03:00.0", VENDOR_AMD, 0x030000)]))
        .marcas
        .contains("gpu-amd"));
}

/// Una placa de audio de AMD no es una placa de video de AMD: toda GPU
/// moderna trae además un dispositivo de audio HDMI del mismo fabricante.
#[test]
fn la_clase_del_dispositivo_importa_y_no_solo_el_fabricante() {
    let hw = detectar_en(&arbol(&[("0000:01:00.1", VENDOR_AMD, 0x040300)]));
    assert!(hw.marcas.is_empty(), "{hw:?}");
}

/// Las placas de red cableadas de Broadcom andan con el controlador del
/// kernel; sólo las inalámbricas llevan el módulo.
#[test]
fn solo_el_wifi_de_broadcom_propone_el_modulo() {
    let cableada = arbol(&[("0000:02:00.0", VENDOR_BROADCOM, 0x020000)]);
    assert!(!detectar_en(&cableada).marcas.contains("wifi-broadcom"));

    let inalambrica = arbol(&[("0000:02:00.0", VENDOR_BROADCOM, 0x028000)]);
    assert!(detectar_en(&inalambrica).marcas.contains("wifi-broadcom"));
}

#[test]
fn un_fabricante_desconocido_no_propone_nada() {
    assert!(detectar_en(&arbol(&[("0000:04:00.0", 0x1234, 0x030000)]))
        .marcas
        .is_empty());
}

#[test]
fn un_dispositivo_sin_sus_archivos_no_rompe_el_resto() {
    let mut dispositivos = arbol(&[("0000:01:00.0", VENDOR_NVIDIA, 0x030000)]);
    // Un directorio a medias, como los que aparecen mientras el kernel está
    // enumerando: sin archivos.
    dispositivos.push((None, None));
    // Y uno con basura en vez de un número.
    dispositivos.push((leer_hex("no es un numero\n"), leer_hex("\n")));

    let hw = detectar_en(&dispositivos);
    assert!(hw.marcas.contains("gpu-nvidia"), "{hw:?}");
}

#[test]
fn sin_arbol_de_pci_no_paniquea() {
    let hw = detectar_en(&[]);
    assert!(hw.marcas.is_empty());
    assert!(hw.descripciones.is_empty());
}

#[test]
fn dos_placas_del_mismo_fabricante_no_duplican_la_descripcion() {
    let hw = detectar_en(&arbol(&[
        ("0000:01:00.0", VENDOR_AMD, 0x030000),
        ("0000:02:00.0", VENDOR_AMD, 0x030000),
    ]));
    assert_eq!(hw.descripciones.len(), 1, "{hw:?}");
}

/// Con todo lo que un equipo puede tener a la vez: lo que se devuelve son
/// marcas conocidas y nada más.
#[test]
fn el_equipo_real_se_puede_sondear() {
    let hw = detectar(
        &arbol(&[
            ("0000:00:02.0", VENDOR_INTEL, 0x030000),
            ("0000:01:00.0", VENDOR_NVIDIA, 0x030000),
            ("0000:01:00.1", VENDOR_NVIDIA, 0x040300),
            ("0000:02:00.0", VENDOR_BROADCOM, 0x028000),
            ("0000:03:00.0", 0x10ec, 0x020000),
        ]),
        true,
        true,
        true,
    );
    for marca in hw.marcas.como_lista() {
        assert!(
            [
                "gpu-nvidia",
                "gpu-amd",
                "gpu-intel",
                "wifi-broadcom",
                "bluetooth",
                "wifi",
                "audio-sof",
            ]
            .contains(&marca.as_str()),
            "marca inesperada: {marca}"
        );
    }
}

#[test]
fn sin_nada_atado_no_se_marca_nada() {
    assert!(senales_del_medio(false, false, false).is_empty());
}

#[test]
fn un_hci_significa_que_hay_bluetooth() {
    assert!(senales_del_medio(true, false, false).contains("bluetooth"));
}

#[test]
fn el_wifi_se_reconoce_por_phy80211_y_no_por_el_nombre() {
    assert!(senales_del_medio(false, true, false).contains("wifi"));
    assert!(!senales_del_medio(false, false, false).contains("wifi"));
}

#[test]
fn el_modulo_de_sof_significa_que_ese_audio_necesita_su_firmware() {
    assert!(senales_del_medio(false, false, true).contains("audio-sof"));
}

#[test]
fn las_rutas_que_no_existen_no_paniquean() {
    assert!(senales_del_medio(false, false, false).is_empty());
}

fn con_marcas(marcas: &[&str]) -> Hardware {
    let mut c = Conjunto::new();
    for m in marcas {
        c.insert(m.to_string());
    }
    Hardware { marcas: c, descripciones: Vec::new() }
}

#[test]
fn una_maquina_intel_lleva_su_controlador_de_video() {
    assert!(paquetes(&con_marcas(&["gpu-intel"])).contains("intel-media-driver"));
}

#[test]
fn una_maquina_amd_no_lleva_nada_de_video() {
    assert!(paquetes(&con_marcas(&["gpu-amd"])).is_empty());
}

#[test]
fn una_nvidia_no_agrega_nada_aca() {
    assert!(paquetes(&con_marcas(&["gpu-nvidia"])).is_empty());
}

#[test]
fn el_bluetooth_trae_el_servicio_y_su_herramienta() {
    let p = paquetes(&con_marcas(&["bluetooth"]));
    assert!(p.contains("bluez"));
    assert!(p.contains("bluez-utils"));
}

#[test]
fn el_wifi_no_nombra_wpa_supplicant() {
    let p = paquetes(&con_marcas(&["wifi"]));
    assert!(p.contains("wireless-regdb"));
    assert!(!p.contains("wpa_supplicant"));
}

#[test]
fn nunca_se_nombra_lo_que_archinstall_ya_pone() {
    let todas = con_marcas(&[
        "gpu-intel", "gpu-amd", "gpu-nvidia", "bluetooth", "wifi", "audio-sof", "wifi-broadcom",
    ]);
    let p = paquetes(&todas);
    for prohibido in ["amd-ucode", "intel-ucode", "linux-firmware", "base", "mkinitcpio"] {
        assert!(!p.contains(prohibido), "{prohibido} lo pone archinstall");
    }
}

#[test]
fn sin_hardware_detectado_no_se_agrega_nada() {
    assert!(paquetes(&con_marcas(&[])).is_empty());
}

#[test]
fn leer_hex_saca_el_prefijo_y_el_fin_de_linea() {
    assert_eq!(leer_hex("0x10de\n"), Some(0x10de));
    assert_eq!(leer_hex("  0X10de"), None);
    assert_eq!(leer_hex("0x"), None);
    assert_eq!(leer_hex("0x1ffffffff"), None);
}

#[test]
fn sin_marcas_no_hay_paquetes_y_cada_marca_suma_los_suyos() {
    paquetes_esperados(&[], &[]);
    paquetes_esperados(&["gpu-amd", "gpu-nvidia", "wifi-broadcom"], &[]);
    paquetes_esperados(&["bluetooth", "gpu-intel"], &["bluez", "bluez-utils", "intel-media-driver"]);
    paquetes_esperados(&["wifi", "audio-sof"], &["sof-firmware", "wireless-regdb"]);
}

fn paquetes_esperados(marcas: &[&str], esperados: &[&str]) {
    let lista = paquetes(&con_marcas(marcas)).como_lista();
    let esperados: Vec<String> = esperados.iter().map(|s| s.to_string()).collect();
    assert_eq!(lista, esperados, "{marcas:?}");
}
