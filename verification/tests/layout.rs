//! El particionado: cada modo, sus barandas y lo que promete.

use vasak_installer::layout::{
    fs_para_archinstall, huecos_libres, planificar, planificar_borrando, planificar_junto_a,
    planificar_manual, planificar_sobre, subvolumenes, Accion, Disco, ErrorPlan, Firmware, Plan,
    ParticionExistente, Rol, ARRANQUE_MIB, GUID_ESP, MIB, MINIMO_GIB, RESERVA_FINAL_MIB,
};
use vasak_installer::protocol::{AsignacionManual, SistemaArchivos};

fn disco_de(tamano_gib: u64) -> Disco {
    Disco {
        ruta: "/dev/sda".into(),
        modelo: "Disco de prueba".into(),
        tamano_bytes: tamano_gib * 1024 * MIB,
        sector_logico: 512,
        rotacional: false,
        nvme: false,
        en_uso: false,
        particiones: Vec::new(),
    }
}

/// Un disco con Windows: ESP, la reservada de Microsoft, `C:` y un hueco
/// libre al final.
///
/// Las medidas son las que deja un Windows 11 de fábrica, con el ESP de
/// 100 MiB que hace su instalador — que es justamente el caso que no se
/// puede reusar. `esp_mib` está parametrizado para poder probar los dos.
fn disco_con_windows(tamano_gib: u64, esp_mib: u64) -> Disco {
    let mut d = disco_de(tamano_gib);
    let esp_fin = (1 + esp_mib) * MIB;
    let msr_fin = esp_fin + 16 * MIB;
    // `C:` ocupa la mitad del disco.
    let c_fin = msr_fin + (tamano_gib * 1024 / 2) * MIB;
    d.particiones = vec![
        ParticionExistente {
            ruta: "/dev/sda1".into(),
            inicio_bytes: MIB,
            tamano_bytes: esp_mib * MIB,
            sistema_archivos: Some("vfat".into()),
            etiqueta: Some("SYSTEM".into()),
            numero: Some(1),
            tipo_particion: Some(GUID_ESP.into()),
            sistema_operativo: None,
        },
        ParticionExistente {
            ruta: "/dev/sda2".into(),
            inicio_bytes: esp_fin,
            tamano_bytes: 16 * MIB,
            sistema_archivos: None,
            etiqueta: None,
            numero: Some(2),
            tipo_particion: Some("e3c9e316-0b5c-4db8-817d-f92df00215ae".into()),
            sistema_operativo: None,
        },
        ParticionExistente {
            ruta: "/dev/sda3".into(),
            inicio_bytes: msr_fin,
            tamano_bytes: c_fin - msr_fin,
            sistema_archivos: Some("ntfs".into()),
            etiqueta: Some("Windows".into()),
            numero: Some(3),
            tipo_particion: Some("ebd0a0a2-b9e5-4433-87c0-68b6b72699c7".into()),
            sistema_operativo: Some("Windows 11".into()),
        },
    ];
    d
}

/// **El ESP que ya existe se conserva, no se formatea.**
///
/// Es la diferencia entera entre un dual boot que anda y un Windows que ya
/// no arranca: el ESP guarda su cargador, y formatearlo lo borra. En el
/// JSON esto se traduce a `existing`, que es el único estado que
/// archinstall no formatea.
#[test]
fn el_esp_ajeno_se_reusa_sin_tocarlo() {
    for fs in [
        SistemaArchivos::Btrfs,
        SistemaArchivos::Ext4,
        SistemaArchivos::Xfs,
    ] {
        for cifrar in [false, true] {
            let disco = disco_con_windows(500, 512);
            let plan =
                planificar_junto_a(&disco, Firmware::Uefi, fs, cifrar).unwrap();

            let esp = plan
                .particiones
                .iter()
                .find(|p| p.rol == Rol::Esp)
                .unwrap_or_else(|| panic!("{fs:?}/{cifrar}: el plan quedó sin ESP"));
            assert_eq!(esp.accion, Accion::Conservar, "{fs:?}/{cifrar}");
            assert_eq!(esp.ruta.as_deref(), Some("/dev/sda1"), "{fs:?}/{cifrar}");
            assert_eq!(esp.punto_montaje, Some("/boot"), "{fs:?}/{cifrar}");
            assert!(!esp.cifrada, "{fs:?}/{cifrar}");
        }
    }
}

/// **Nada de lo que ya está se destruye.**
///
/// La red de seguridad del modo no destructivo, dicha como corresponde: no
/// «el plan parece correcto», sino «la lista de lo que se pierde está
/// vacía». Cubre también el solapamiento, porque `a_destruir` compara
/// geometrías y no sólo rutas.
#[test]
fn instalar_al_lado_no_destruye_nada() {
    for fs in [
        SistemaArchivos::Btrfs,
        SistemaArchivos::Ext4,
        SistemaArchivos::Xfs,
    ] {
        for cifrar in [false, true] {
            let disco = disco_con_windows(500, 512);
            let plan =
                planificar_junto_a(&disco, Firmware::Uefi, fs, cifrar).unwrap();
            let victimas: Vec<&str> = plan
                .a_destruir(&disco)
                .iter()
                .map(|p| p.ruta.as_str())
                .collect();
            assert!(
                victimas.is_empty(),
                "{fs:?}/{cifrar}: se destruiría {victimas:?}"
            );
            assert!(!plan.borrar_disco, "{fs:?}/{cifrar}");
        }
    }
}

/// **Borrar el disco sí declara todo lo que se pierde.**
///
/// El contrapunto del anterior: si la lista de víctimas volviera vacía
/// también acá, la pantalla de confirmación diría que no se pierde nada
/// mientras se borra un Windows.
#[test]
fn borrar_el_disco_declara_todas_las_particiones() {
    let disco = disco_con_windows(500, 512);
    let plan =
        planificar_borrando(&disco, Firmware::Uefi, SistemaArchivos::Btrfs, false).unwrap();
    assert!(plan.borrar_disco);
    let victimas: Vec<&str> = plan
        .a_destruir(&disco)
        .iter()
        .map(|p| p.ruta.as_str())
        .collect();
    assert_eq!(victimas, ["/dev/sda1", "/dev/sda2", "/dev/sda3"]);
    assert!(plan
        .a_destruir(&disco)
        .iter()
        .any(|p| p.sistema_operativo.as_deref() == Some("Windows 11")));
}

/// **El plan nuevo no se pisa con lo que ya está.**
///
/// archinstall valida esto y aborta con «Partitions overlap», pero para
/// entonces ya borró la tabla si el modo fuera destructivo. Acá se
/// comprueba antes, y sobre el hueco de verdad.
#[test]
fn lo_que_se_crea_cae_adentro_del_hueco() {
    for esp_mib in [512, 1024] {
        for tamano in [200, 500, 2000] {
            let disco = disco_con_windows(tamano, esp_mib);
            let plan =
                planificar_junto_a(&disco, Firmware::Uefi, SistemaArchivos::Btrfs, false)
                    .unwrap();

            for p in plan.particiones.iter().filter(|p| p.accion == Accion::Crear) {
                let inicio = p.inicio_mib * MIB;
                let fin = inicio + p.tamano_mib * MIB;
                for e in &disco.particiones {
                    assert!(
                        fin <= e.inicio_bytes || inicio >= e.fin_bytes(),
                        "{tamano} GiB: lo nuevo [{inicio}, {fin}) pisa {} [{}, {})",
                        e.ruta,
                        e.inicio_bytes,
                        e.fin_bytes()
                    );
                }
                assert!(
                    fin <= disco.tamano_bytes - MIB,
                    "{tamano} GiB: se mete en la copia de la tabla GPT"
                );
                // Alineación: archinstall rechaza lo que no esté en MiB
                // enteros, y un SSD escribe dos bloques por cada uno.
                assert_eq!(inicio % MIB, 0);
                assert_eq!(p.tamano_mib * MIB % MIB, 0);
            }
        }
    }
}

/// **Con el ESP de 100 MiB de Windows se hace uno propio, y el de Windows
/// no se toca.**
///
/// Windows hace su ESP de 100 MiB porque ahí guarda sólo el cargador.
/// Nosotros guardamos además el kernel y los dos initramfs, así que no
/// entra. Rechazar la instalación dejaría el caso más común de dual boot
/// sin salida; formatearlo o agrandarlo le borraría el arranque a Windows.
///
/// La tercera es la que se toma: uno propio en el hueco libre. Windows
/// conserva el suyo con su cargador adentro y sigue arrancando.
#[test]
fn con_el_esp_de_cien_mib_de_windows_se_hace_uno_propio() {
    let disco = disco_con_windows(500, 100);
    let plan =
        planificar_junto_a(&disco, Firmware::Uefi, SistemaArchivos::Btrfs, false).unwrap();

    let esp = plan.particiones.iter().find(|p| p.rol == Rol::Esp).unwrap();
    assert_eq!(esp.accion, Accion::Crear, "se reusó el de 100 MiB");
    assert_eq!(esp.ruta, None);
    assert_eq!(esp.tamano_mib, ARRANQUE_MIB);

    // Y el de Windows no aparece en el plan ni en lo que se pierde: ni
    // montado, ni formateado, ni tocado.
    assert!(
        !plan
            .particiones
            .iter()
            .any(|p| p.ruta.as_deref() == Some("/dev/sda1")),
        "el ESP de Windows entró en el plan: {:?}",
        plan.particiones
    );
    assert!(plan.a_destruir(&disco).is_empty());

    // El nuevo va en el hueco, no encima de nada.
    let inicio = esp.inicio_mib * MIB;
    let fin = inicio + esp.tamano_mib * MIB;
    for e in &disco.particiones {
        assert!(
            fin <= e.inicio_bytes || inicio >= e.fin_bytes(),
            "el ESP nuevo pisa {}",
            e.ruta
        );
    }
}

/// **Y si además no hay hueco, ahí sí se falla.**
///
/// Es la única salida que queda: no se puede usar el que hay, no hay lugar
/// para uno nuevo, y agrandar el de Windows querría decir mover sus
/// particiones.
#[test]
fn con_el_esp_chico_y_sin_hueco_no_hay_salida() {
    // `C:` ocupa la mitad de 42 GiB, así que quedan ~20,9 libres: alcanzan
    // para la raíz sola pero no para la raíz **más** el GiB del ESP nuevo.
    // Con el mismo disco y un ESP reusable, el plan sale.
    let disco = disco_con_windows(42, 100);
    assert!(matches!(
        planificar_junto_a(&disco, Firmware::Uefi, SistemaArchivos::Btrfs, false),
        Err(ErrorPlan::SinEspacioLibre { .. })
    ));
    let mismo_pero_reusable = disco_con_windows(42, 512);
    assert!(
        planificar_junto_a(
            &mismo_pero_reusable,
            Firmware::Uefi,
            SistemaArchivos::Btrfs,
            false
        )
        .is_ok(),
        "el que falla es el GiB del ESP nuevo, no el disco"
    );
}

/// **Sin hueco suficiente no se instala, y no se toca nada.**
#[test]
fn sin_espacio_libre_falla_en_vez_de_apretar() {
    // Un disco de 60 GiB con `C:` ocupando la mitad deja ~30 GiB, que
    // alcanza. Con 40 GiB quedan ~20 justos menos el ESP: no alcanza.
    let disco = disco_con_windows(40, 512);
    match planificar_junto_a(&disco, Firmware::Uefi, SistemaArchivos::Btrfs, false) {
        Err(ErrorPlan::SinEspacioLibre { mayor_hueco_gib }) => {
            assert!(mayor_hueco_gib < MINIMO_GIB, "{mayor_hueco_gib}");
        }
        otro => panic!("se esperaba SinEspacioLibre y salió {otro:?}"),
    }
}

/// **En BIOS se dice que no, en vez de hacer algo a medias.**
#[test]
fn junto_a_otro_sistema_es_solo_uefi() {
    let disco = disco_con_windows(500, 512);
    assert_eq!(
        planificar_junto_a(&disco, Firmware::Bios, SistemaArchivos::Btrfs, false).unwrap_err(),
        ErrorPlan::SoloUefi
    );
}

/// **Sin ESP en el disco se crea uno.**
///
/// Un disco con un Linux viejo en MBR, o uno con datos y nada más. Ahí no
/// hay nada que reusar y el ESP hay que hacerlo.
#[test]
fn sin_esp_en_el_disco_se_crea_uno() {
    let mut disco = disco_de(500);
    disco.particiones = vec![ParticionExistente {
        ruta: "/dev/sda1".into(),
        inicio_bytes: MIB,
        tamano_bytes: 100 * 1024 * MIB,
        sistema_archivos: Some("ext4".into()),
        etiqueta: Some("datos".into()),
        numero: Some(1),
        tipo_particion: Some("0fc63daf-8483-4772-8e79-3d69d8477de4".into()),
        sistema_operativo: None,
    }];
    let plan =
        planificar_junto_a(&disco, Firmware::Uefi, SistemaArchivos::Btrfs, false).unwrap();
    let esp = plan.particiones.iter().find(|p| p.rol == Rol::Esp).unwrap();
    assert_eq!(esp.accion, Accion::Crear);
    assert_eq!(esp.ruta, None);
    assert_eq!(esp.tamano_mib, ARRANQUE_MIB);
    assert!(plan.a_destruir(&disco).is_empty());
}

/// **Instalar sobre una partición formatea ésa y sólo ésa.**
///
/// La red de seguridad del modo, dicha como corresponde: no «el plan parece
/// correcto», sino «la lista de lo que se pierde es exactamente la
/// partición que se eligió». Una de más es un dato ajeno borrado; una de
/// menos es un cartel que miente.
#[test]
fn sobre_una_particion_se_pierde_esa_y_nada_mas() {
    for fs in [
        SistemaArchivos::Btrfs,
        SistemaArchivos::Ext4,
        SistemaArchivos::Xfs,
    ] {
        for cifrar in [false, true] {
            let disco = disco_con_windows(500, 512);
            let plan =
                planificar_sobre(&disco, "/dev/sda3", Firmware::Uefi, fs, cifrar).unwrap();

            let victimas: Vec<&str> = plan
                .a_destruir(&disco)
                .iter()
                .map(|p| p.ruta.as_str())
                .collect();
            assert_eq!(victimas, ["/dev/sda3"], "{fs:?}/{cifrar}");
            assert!(!plan.borrar_disco, "{fs:?}/{cifrar}");

            let raiz = plan
                .particiones
                .iter()
                .find(|p| p.rol == Rol::Raiz)
                .unwrap_or_else(|| panic!("{fs:?}/{cifrar}: el plan quedó sin raíz"));
            assert_eq!(raiz.accion, Accion::Formatear, "{fs:?}/{cifrar}");
            assert_eq!(raiz.ruta.as_deref(), Some("/dev/sda3"), "{fs:?}/{cifrar}");
            assert_eq!(raiz.cifrada, cifrar, "{fs:?}/{cifrar}");

            // Y la geometría, tal cual. `modify` en archinstall borra la
            // partición y la rehace con lo que diga el plan: un número
            // distinto acá la mueve, y moverla es meterse en la de al lado.
            let destino = disco
                .particiones
                .iter()
                .find(|p| p.ruta == "/dev/sda3")
                .unwrap();
            assert_eq!(raiz.inicio_mib * MIB, destino.inicio_bytes, "{fs:?}/{cifrar}");
            assert_eq!(raiz.tamano_mib * MIB, destino.tamano_bytes, "{fs:?}/{cifrar}");

            // El ESP de Windows se conserva, igual que en el otro modo.
            let esp = plan.particiones.iter().find(|p| p.rol == Rol::Esp).unwrap();
            assert_eq!(esp.accion, Accion::Conservar, "{fs:?}/{cifrar}");
        }
    }
}

/// **No se puede instalar sobre el ESP.**
///
/// Formatearlo como raíz deja el equipo sin partición de arranque y de paso
/// le borra el cargador al otro sistema. La interfaz no debería ofrecerlo,
/// y por eso mismo el plan tiene que rechazarlo: lo que impide un desastre
/// no puede depender de que la pantalla esté bien.
#[test]
fn no_se_puede_instalar_sobre_el_esp() {
    let disco = disco_con_windows(500, 512);
    assert_eq!(
        planificar_sobre(
            &disco,
            "/dev/sda1",
            Firmware::Uefi,
            SistemaArchivos::Btrfs,
            false
        )
        .unwrap_err(),
        ErrorPlan::ParticionEsElEsp {
            ruta: "/dev/sda1".into()
        }
    );
}

/// **Una partición desalineada se rechaza en vez de moverse.**
///
/// archinstall la borra y la rehace con `optimalAlignedConstraint`, así que
/// no la puede poner donde estaba: la correría. Y correr una partición es
/// escribir encima de la de al lado. Además el plan trabaja en MiB enteros,
/// así que ni siquiera podría representarla.
#[test]
fn una_particion_desalineada_no_se_toca() {
    let mut disco = disco_con_windows(500, 512);
    // Como la deja una tabla vieja hecha por otra herramienta: empieza a
    // mitad de un MiB.
    disco.particiones[2].inicio_bytes += 512;
    assert_eq!(
        planificar_sobre(
            &disco,
            "/dev/sda3",
            Firmware::Uefi,
            SistemaArchivos::Btrfs,
            false
        )
        .unwrap_err(),
        ErrorPlan::ParticionDesalineada {
            ruta: "/dev/sda3".into()
        }
    );
}

/// **Una partición que ya no está, una demasiado chica, y BIOS.**
#[test]
fn sobre_una_particion_comprueba_lo_que_le_dan() {
    let disco = disco_con_windows(500, 512);
    assert_eq!(
        planificar_sobre(
            &disco,
            "/dev/sda9",
            Firmware::Uefi,
            SistemaArchivos::Btrfs,
            false
        )
        .unwrap_err(),
        ErrorPlan::ParticionNoEsta {
            ruta: "/dev/sda9".into()
        }
    );

    // `C:` ocupa la mitad del disco: en uno de 500 GiB son 250 y entra; en
    // uno de 30, quince, y no.
    let chico = disco_con_windows(30, 512);
    match planificar_sobre(
        &chico,
        "/dev/sda3",
        Firmware::Uefi,
        SistemaArchivos::Btrfs,
        false,
    ) {
        Err(ErrorPlan::Chico { tiene_gib, .. }) => assert!(tiene_gib < MINIMO_GIB),
        otro => panic!("se esperaba Chico y salió {otro:?}"),
    }

    assert_eq!(
        planificar_sobre(
            &disco,
            "/dev/sda3",
            Firmware::Bios,
            SistemaArchivos::Btrfs,
            false
        )
        .unwrap_err(),
        ErrorPlan::SoloUefi
    );
}

/// **De varios huecos libres se usa el más grande.**
///
/// Elegir cualquiera da un plan válido —no pisa nada, no se sale del
/// disco— así que ninguna de las propiedades lo agarra. Pero instalar en
/// 21 GiB teniendo 400 libres al lado es de las cosas que se descubren
/// meses después, cuando ya no entra nada y mover la partición es un
/// problema.
#[test]
fn de_varios_huecos_se_usa_el_mas_grande() {
    let mut disco = disco_de(500);
    let mib = MIB;
    // ESP, un hueco de 30 GiB, una partición, y el resto libre: ~440 GiB.
    disco.particiones = vec![
        ParticionExistente {
            ruta: "/dev/sda1".into(),
            inicio_bytes: mib,
            tamano_bytes: 512 * mib,
            sistema_archivos: Some("vfat".into()),
            etiqueta: None,
            numero: Some(1),
            tipo_particion: Some(GUID_ESP.into()),
            sistema_operativo: None,
        },
        ParticionExistente {
            ruta: "/dev/sda2".into(),
            // Deja 30 GiB de hueco entre el ESP y ésta.
            inicio_bytes: (513 + 30 * 1024) * mib,
            tamano_bytes: 20 * 1024 * mib,
            sistema_archivos: Some("ntfs".into()),
            etiqueta: None,
            numero: Some(2),
            tipo_particion: Some("ebd0a0a2-b9e5-4433-87c0-68b6b72699c7".into()),
            sistema_operativo: Some("Windows 11".into()),
        },
    ];

    let plan =
        planificar_junto_a(&disco, Firmware::Uefi, SistemaArchivos::Btrfs, false).unwrap();
    let raiz = plan.particiones.iter().find(|p| p.rol == Rol::Raiz).unwrap();

    // El hueco de atrás son ~449 GiB; el de adelante, 30. Elegir el chico
    // daría una raíz de 30 GiB, que entra en el mínimo y por eso ninguna
    // propiedad se queja.
    assert!(
        raiz.tamano_mib > 400 * 1024,
        "la raíz quedó de {} MiB: se eligió el hueco chico",
        raiz.tamano_mib
    );
    assert!(plan.a_destruir(&disco).is_empty());
}

/// **Sobre una partición, en un disco que no tiene ESP.**
///
/// Es la rama de `planificar_sobre` que **crea** el ESP, y no la tocaba
/// ningún test: todos los discos de prueba ya traían uno. Un disco con un
/// Linux viejo en MBR es exactamente este caso.
///
/// Lo que importa es que el ESP nuevo caiga en espacio libre: si cayera
/// encima de una partición ajena, archinstall lo aceptaría —sólo valida
/// solapamientos entre las que crea— y el estropicio se vería en el disco.
#[test]
fn sobre_una_particion_sin_esp_crea_uno_en_el_hueco() {
    let mut disco = disco_de(500);
    let mib = MIB;
    disco.particiones = vec![
        // Un `/boot` viejo de 1 GiB al principio.
        ParticionExistente {
            ruta: "/dev/sda1".into(),
            inicio_bytes: mib,
            tamano_bytes: 1024 * mib,
            sistema_archivos: Some("ext4".into()),
            etiqueta: Some("boot".into()),
            numero: Some(1),
            tipo_particion: Some("0fc63daf-8483-4772-8e79-3d69d8477de4".into()),
            sistema_operativo: None,
        },
        // Y la raíz del Linux viejo, que es la que se va a reusar.
        ParticionExistente {
            ruta: "/dev/sda2".into(),
            inicio_bytes: 1025 * mib,
            tamano_bytes: 100 * 1024 * mib,
            sistema_archivos: Some("ext4".into()),
            etiqueta: Some("raiz vieja".into()),
            numero: Some(2),
            tipo_particion: Some("0fc63daf-8483-4772-8e79-3d69d8477de4".into()),
            sistema_operativo: Some("Debian 12".into()),
        },
    ];

    let plan =
        planificar_sobre(&disco, "/dev/sda2", Firmware::Uefi, SistemaArchivos::Btrfs, false)
            .unwrap();

    let esp = plan.particiones.iter().find(|p| p.rol == Rol::Esp).unwrap();
    assert_eq!(esp.accion, Accion::Crear);
    assert_eq!(esp.ruta, None);
    assert_eq!(esp.tamano_mib, ARRANQUE_MIB);

    // El ESP nuevo no puede caer encima de nada de lo que ya está.
    let inicio = esp.inicio_mib * mib;
    let fin = inicio + esp.tamano_mib * mib;
    for e in &disco.particiones {
        assert!(
            fin <= e.inicio_bytes || inicio >= e.fin_bytes(),
            "el ESP nuevo [{inicio}, {fin}) pisa {} [{}, {})",
            e.ruta,
            e.inicio_bytes,
            e.fin_bytes()
        );
    }
    assert!(fin <= disco.tamano_bytes - mib, "se mete en la copia del GPT");

    // Y se pierde la raíz vieja, que es lo que se eligió, y sólo eso: el
    // `/boot` viejo queda intacto aunque ya no sirva para nada.
    let victimas: Vec<&str> = plan
        .a_destruir(&disco)
        .iter()
        .map(|p| p.ruta.as_str())
        .collect();
    assert_eq!(victimas, ["/dev/sda2"]);
}

/// **Los dos modos no destructivos tratan el ESP igual.**
///
/// Es lo que hace que reusar el ESP ajeno sea una decisión y no dos. Se
/// comprueba comparando los planes, no leyendo el código: si alguien
/// separa las dos ramas, acá se ve.
#[test]
fn los_modos_no_destructivos_tratan_el_esp_igual() {
    let disco = disco_con_windows(500, 512);
    let a = planificar_junto_a(&disco, Firmware::Uefi, SistemaArchivos::Btrfs, false).unwrap();
    let b = planificar_sobre(
        &disco,
        "/dev/sda3",
        Firmware::Uefi,
        SistemaArchivos::Btrfs,
        false,
    )
    .unwrap();

    let esp_de = |p: &Plan| {
        p.particiones
            .iter()
            .find(|x| x.rol == Rol::Esp)
            .cloned()
            .unwrap()
    };
    assert_eq!(esp_de(&a), esp_de(&b));

    // Y con uno de 100 MiB los dos hacen lo mismo: uno propio, sin tocar
    // el ajeno.
    let flaco = disco_con_windows(500, 100);
    let a = planificar_junto_a(&flaco, Firmware::Uefi, SistemaArchivos::Btrfs, false).unwrap();
    let b = planificar_sobre(
        &flaco,
        "/dev/sda3",
        Firmware::Uefi,
        SistemaArchivos::Btrfs,
        false,
    )
    .unwrap();
    assert_eq!(esp_de(&a).accion, Accion::Crear);
    assert_eq!(esp_de(&a), esp_de(&b));
}

/// **Los huecos se calculan alineados y sin morder lo ajeno.**
///
/// El redondeo tiene que ir para el lado seguro en los dos extremos: el
/// final de un hueco hacia abajo y el principio hacia arriba. Al revés, el
/// borde caería adentro de la partición de al lado.
#[test]
fn los_huecos_no_muerden_a_los_vecinos() {
    let mut disco = disco_de(100);
    // Una partición desalineada a propósito: empieza y termina a mitad de
    // un MiB, que es lo que deja una tabla vieja hecha por otra
    // herramienta.
    disco.particiones = vec![ParticionExistente {
        ruta: "/dev/sda1".into(),
        inicio_bytes: 10 * MIB + 512,
        tamano_bytes: 20 * MIB + 123,
        sistema_archivos: Some("ntfs".into()),
        etiqueta: None,
        numero: Some(1),
        tipo_particion: None,
        sistema_operativo: None,
    }];
    let existente = &disco.particiones[0];
    for h in huecos_libres(&disco) {
        let inicio = h.inicio_mib * MIB;
        let fin = inicio + h.tamano_mib * MIB;
        assert_eq!(inicio % MIB, 0, "hueco desalineado: {h:?}");
        assert_eq!(fin % MIB, 0, "hueco desalineado: {h:?}");
        assert!(
            fin <= existente.inicio_bytes || inicio >= existente.fin_bytes(),
            "el hueco {h:?} pisa la partición [{}, {})",
            existente.inicio_bytes,
            existente.fin_bytes()
        );
        assert!(fin <= disco.tamano_bytes - MIB, "se come la copia del GPT");
    }
}

#[test]
fn uefi_arma_esp_y_raiz_sin_huecos() {
    let disco = disco_de(100);
    let plan = planificar(&disco, Firmware::Uefi, SistemaArchivos::Btrfs, false).unwrap();

    assert_eq!(plan.len(), 2);
    assert_eq!(plan[0].rol, Rol::Esp);
    assert_eq!(plan[0].inicio_mib, 1);
    assert_eq!(plan[0].tamano_mib, 1024);
    assert_eq!(plan[1].rol, Rol::Raiz);

    // Sin hueco entre las dos: la raíz empieza exactamente donde termina el
    // ESP. Un hueco de un MiB no rompe nada, pero es la clase de descuido
    // que después aparece como «el disco tiene 3 particiones».
    assert_eq!(plan[1].inicio_mib, plan[0].inicio_mib + plan[0].tamano_mib);
}

#[test]
fn el_plan_no_se_pasa_del_disco() {
    // Varios tamaños, incluidos los que no son múltiplos redondos de MiB:
    // ahí es donde una división entera de más deja la última partición un
    // MiB fuera del disco.
    for gib in [20u64, 21, 64, 100, 250, 500, 931, 1863] {
        let mut disco = disco_de(gib);
        // Unos bytes de más para que el tamaño no caiga justo en un MiB.
        disco.tamano_bytes += 12345;
        let total_mib = disco.tamano_bytes / MIB;

        for firmware in [Firmware::Uefi, Firmware::Bios] {
            let plan = planificar(&disco, firmware, SistemaArchivos::Ext4, false).unwrap();
            let ultima = plan.last().unwrap();
            let fin = ultima.inicio_mib + ultima.tamano_mib;
            assert!(
                fin <= total_mib - RESERVA_FINAL_MIB,
                "{gib} GiB / {firmware:?}: el plan termina en {fin} MiB y el disco tiene {total_mib} MiB"
            );
        }
    }
}

/// **Los dos firmwares tienen que dar una partición de arranque montada.**
///
/// Éste es el test del error que apareció instalando en BIOS:
///
/// ```text
/// ValueError: Could not detect boot at mountpoint /mnt
/// ```
///
/// `add_bootloader` de archinstall arranca con `_get_boot_partition()`, y
/// `get_boot_partition` filtra por `x.is_boot() and x.mountpoint` — bandera
/// `boot` **y** punto de montaje. Sin una partición así la instalación muere
/// al llegar al gestor de arranque, con el disco ya formateado y los paquetes
/// ya instalados. El peor momento para fallar.
///
/// Se comprueba para los dos firmwares y para los dos sistemas de archivos:
/// con btrfs la raíz no lleva punto de montaje —lo lleva el subvolumen `@`—,
/// así que poner la bandera en la raíz no habría alcanzado justo en el camino
/// por defecto.
#[test]
fn siempre_hay_una_particion_de_arranque_que_archinstall_reconoce() {
    for firmware in [Firmware::Uefi, Firmware::Bios] {
        for fs in [SistemaArchivos::Ext4, SistemaArchivos::Btrfs] {
            let plan = planificar(&disco_de(50), firmware, fs, false).unwrap();

            let arranque = plan
                .iter()
                .find(|p| p.banderas.contains(&"boot") && p.punto_montaje.is_some())
                .unwrap_or_else(|| {
                    panic!("{firmware:?}/{fs:?}: ninguna partición con bandera boot y punto de montaje: {plan:?}")
                });

            assert_eq!(arranque.punto_montaje, Some("/boot"), "{firmware:?}/{fs:?}");
            assert_eq!(arranque.rol, Rol::Esp, "{firmware:?}/{fs:?}");
            // Con sistema de archivos: sin él, archinstall muere antes en
            // `safe_fs_type` con «File system type is not set».
            assert!(
                arranque.sistema_archivos.is_some(),
                "{firmware:?}/{fs:?}: la partición de arranque sin sistema de archivos"
            );
        }
    }
}

#[test]
fn en_bios_el_arranque_es_ext4_y_sin_esp() {
    // `esp` marcaría una partición de sistema EFI en un disco que arranca por
    // BIOS, y fat32 no hace falta porque acá no hay firmware que lo lea.
    let plan = planificar(&disco_de(50), Firmware::Bios, SistemaArchivos::Btrfs, false).unwrap();
    let arranque = &plan[0];

    assert_eq!(arranque.sistema_archivos, Some("ext4"));
    assert_eq!(arranque.banderas, vec!["boot"]);
    assert!(!arranque.banderas.contains(&"esp"), "{arranque:?}");
}

#[test]
fn en_uefi_el_arranque_sigue_siendo_el_esp() {
    // Que el arreglo de BIOS no haya cambiado el camino que ya funcionaba.
    let plan = planificar(&disco_de(50), Firmware::Uefi, SistemaArchivos::Btrfs, false).unwrap();
    let esp = &plan[0];

    assert_eq!(esp.sistema_archivos, Some("fat32"));
    assert_eq!(esp.banderas, vec!["boot", "esp"]);
    assert!(esp.opciones_montaje.iter().any(|o| o.contains("umask")));
}

#[test]
fn en_bios_queda_el_hueco_que_grub_necesita() {
    // El MiB 0 es lo que GRUB usa para su segunda etapa en MBR. Si la primera
    // partición empezara en 0 no habría dónde escribirla y el disco no
    // arrancaría.
    let plan = planificar(&disco_de(50), Firmware::Bios, SistemaArchivos::Ext4, false).unwrap();
    assert_eq!(plan[0].inicio_mib, 1);
}

/// Ninguna partición puede salir sin sistema de archivos.
///
/// `_setup_partition` de archinstall pide `safe_fs_type` para **todas** las
/// que crea, y esa propiedad lanza si el valor es `None`. Una partición sin
/// filesystem mata la instalación en el paso de particionado.
#[test]
fn ninguna_particion_sale_sin_sistema_de_archivos() {
    for firmware in [Firmware::Uefi, Firmware::Bios] {
        for fs in [SistemaArchivos::Ext4, SistemaArchivos::Btrfs] {
            for cifrar in [false, true] {
                let plan = planificar(&disco_de(50), firmware, fs, cifrar).unwrap();
                for p in &plan {
                    assert!(
                        p.sistema_archivos.is_some(),
                        "{:?} sale sin filesystem con {firmware:?}/{fs:?}",
                        p.rol
                    );
                }
            }
        }
    }
}

#[test]
fn btrfs_deja_el_punto_de_montaje_en_el_subvolumen() {
    let plan = planificar(&disco_de(50), Firmware::Uefi, SistemaArchivos::Btrfs, false).unwrap();
    let raiz = plan.last().unwrap();

    // Éste es el bug que borra la instalación: con `mountpoint` y
    // subvolúmenes a la vez, archinstall monta la partición cruda en `/` y
    // el sistema queda instalado afuera de `@`, así que el primer arranque
    // encuentra un `@` vacío.
    assert!(
        raiz.punto_montaje.is_none(),
        "la raíz btrfs no puede llevar punto de montaje propio"
    );
    assert_eq!(raiz.subvolumenes.len(), 7);
    assert!(raiz.subvolumenes.contains(&("@", "/")));
    assert!(raiz.subvolumenes.contains(&("@log", "/var/log")));
}

#[test]
fn sin_btrfs_la_raiz_se_monta_directo() {
    for fs in [SistemaArchivos::Ext4, SistemaArchivos::Xfs] {
        let plan = planificar(&disco_de(50), Firmware::Uefi, fs, false).unwrap();
        let raiz = plan.last().unwrap();
        assert_eq!(raiz.punto_montaje, Some("/"), "{fs:?}");
        assert!(raiz.subvolumenes.is_empty(), "{fs:?}");
    }
}

#[test]
fn el_esp_nunca_va_cifrado() {
    let plan = planificar(&disco_de(50), Firmware::Uefi, SistemaArchivos::Btrfs, true).unwrap();
    let esp = &plan[0];
    // El firmware lee el ESP antes de que exista nada que pueda descifrarlo.
    // Cifrarlo produce un equipo que no arranca.
    assert!(!esp.cifrada);
    assert!(plan.last().unwrap().cifrada, "la raíz sí tiene que ir cifrada");
}

#[test]
fn nvme_comprime_mas_flojo_que_un_disco_comun() {
    let mut nvme = disco_de(50);
    nvme.nvme = true;
    let plan = planificar(&nvme, Firmware::Uefi, SistemaArchivos::Btrfs, false).unwrap();
    assert!(plan.last().unwrap().opciones_montaje.contains(&"compress=zstd:1".to_string()));

    let plan = planificar(&disco_de(50), Firmware::Uefi, SistemaArchivos::Btrfs, false).unwrap();
    assert!(plan.last().unwrap().opciones_montaje.contains(&"compress=zstd".to_string()));
}

#[test]
fn un_disco_chico_se_rechaza_antes_de_tocarlo() {
    let err = planificar(&disco_de(8), Firmware::Uefi, SistemaArchivos::Btrfs, false).unwrap_err();
    assert_eq!(
        err,
        ErrorPlan::Chico {
            tiene_gib: 8,
            minimo_gib: MINIMO_GIB
        }
    );
}

#[test]
fn un_disco_montado_se_rechaza() {
    let mut disco = disco_de(500);
    disco.en_uso = true;
    // Es el pendrive del que arrancó la ISO. Borrarlo mata la instalación
    // en marcha.
    assert_eq!(
        planificar(&disco, Firmware::Uefi, SistemaArchivos::Btrfs, false).unwrap_err(),
        ErrorPlan::EnUso
    );
}

#[test]
fn un_disco_de_cero_bytes_no_paniquea() {
    // `lsblk` puede informar tamaño cero para un lector de tarjetas vacío.
    // Antes de la comprobación explícita esto llegaba a la división y
    // salía un plan con una partición de tamaño absurdo.
    let mut disco = disco_de(0);
    disco.tamano_bytes = 0;
    assert_eq!(
        planificar(&disco, Firmware::Uefi, SistemaArchivos::Btrfs, false).unwrap_err(),
        ErrorPlan::Invalido
    );
}

#[test]
fn los_subvolumenes_no_se_repiten_ni_en_nombre_ni_en_punto_de_montaje() {
    let subs = subvolumenes();
    let mut nombres: Vec<&str> = subs.iter().map(|(n, _)| *n).collect();
    let cantidad = nombres.len();
    nombres.sort_unstable();
    nombres.dedup();
    assert_eq!(nombres.len(), cantidad, "hay un subvolumen repetido");

    let mut puntos: Vec<&str> = subs.iter().map(|(_, p)| *p).collect();
    puntos.sort_unstable();
    puntos.dedup();
    assert_eq!(puntos.len(), cantidad, "hay dos subvolúmenes en el mismo punto");

    // Todos absolutos: archinstall los usa tal cual para armar la ruta
    // bajo el destino, y uno relativo terminaría montado en el directorio
    // de trabajo del instalador.
    assert!(subs.iter().all(|(_, p)| p.starts_with('/')));
}
fn asignar(particion: &str, punto: Option<&str>, formatear: bool) -> AsignacionManual {
    AsignacionManual {
        particion: particion.into(),
        punto_montaje: punto.map(str::to_string),
        formatear,
    }
}

/// Un disco repartido: ESP, Windows, y dos particiones de un Linux viejo.
fn disco_repartido() -> Disco {
    let mut d = disco_de(500);
    let mut inicio = MIB;
    let mut nuevas = Vec::new();
    for (n, tam_gib, fs, guid, os) in [
        (1u32, 1u64, Some("vfat"), GUID_ESP, None),
        (
            2,
            100,
            Some("ntfs"),
            "ebd0a0a2-b9e5-4433-87c0-68b6b72699c7",
            Some("Windows 11"),
        ),
        (
            3,
            60,
            Some("ext4"),
            "0fc63daf-8483-4772-8e79-3d69d8477de4",
            Some("Debian 12"),
        ),
        (
            4,
            200,
            Some("ext4"),
            "0fc63daf-8483-4772-8e79-3d69d8477de4",
            None,
        ),
    ] {
        let tam = tam_gib * 1024 * MIB;
        nuevas.push(ParticionExistente {
            ruta: format!("/dev/sda{n}"),
            inicio_bytes: inicio,
            tamano_bytes: tam,
            sistema_archivos: fs.map(str::to_string),
            etiqueta: None,
            numero: Some(n),
            tipo_particion: Some(guid.into()),
            sistema_operativo: os.map(str::to_string),
        });
        inicio += tam;
    }
    d.particiones = nuevas;
    d
}

/// **Lo que no se asigna, no se toca.**
///
/// Es la promesa entera del modo manual, y la que más fácil se rompe: en
/// los otros modos el plan se arma solo, acá lo arma alguien. Una partición
/// que se cuela en el plan sin haber sido elegida es un dato ajeno perdido.
#[test]
fn en_manual_lo_que_no_se_asigna_no_aparece() {
    let disco = disco_repartido();
    // Se usa el ESP y la última; Windows y el Linux viejo se dejan.
    let asignaciones = vec![
        asignar("/dev/sda1", Some("/boot"), false),
        asignar("/dev/sda4", Some("/"), true),
        // Nombrada pero sin punto: es «dejala como está».
        asignar("/dev/sda3", None, false),
    ];
    let plan = planificar_manual(
        &disco,
        &asignaciones,
        Firmware::Uefi,
        SistemaArchivos::Btrfs,
        false,
    )
    .unwrap();

    let rutas: Vec<&str> = plan
        .particiones
        .iter()
        .filter_map(|p| p.ruta.as_deref())
        .collect();
    assert_eq!(rutas, ["/dev/sda1", "/dev/sda4"]);

    let victimas: Vec<&str> = plan
        .a_destruir(&disco)
        .iter()
        .map(|p| p.ruta.as_str())
        .collect();
    assert_eq!(victimas, ["/dev/sda4"], "sólo se formatea la raíz");
    assert!(!plan.borrar_disco);
}

/// **Un `/home` que ya existe se conserva y se monta.**
///
/// Es la razón principal por la que alguien usa el modo manual: reinstalar
/// el sistema y quedarse con los archivos. `Conservar` es `existing` en
/// archinstall, que no lo formatea pero sí lo monta.
#[test]
fn en_manual_un_home_existente_se_conserva() {
    let disco = disco_repartido();
    let asignaciones = vec![
        asignar("/dev/sda1", Some("/boot"), false),
        asignar("/dev/sda3", Some("/"), true),
        asignar("/dev/sda4", Some("/home"), false),
    ];
    let plan = planificar_manual(
        &disco,
        &asignaciones,
        Firmware::Uefi,
        SistemaArchivos::Ext4,
        false,
    )
    .unwrap();

    let home = plan
        .particiones
        .iter()
        .find(|p| p.punto_montaje == Some("/home"))
        .unwrap();
    assert_eq!(home.accion, Accion::Conservar);
    assert_eq!(home.ruta.as_deref(), Some("/dev/sda4"));
    // El sistema de archivos que ya tiene, con el nombre de archinstall.
    assert_eq!(home.sistema_archivos, Some("ext4"));
    assert!(!home.cifrada);

    let victimas: Vec<&str> = plan
        .a_destruir(&disco)
        .iter()
        .map(|p| p.ruta.as_str())
        .collect();
    assert_eq!(victimas, ["/dev/sda3"], "el /home no se pierde");
}

/// **`vfat` no es `fat32`, y un nombre que archinstall no conozca no puede
/// viajar.**
///
/// `lsblk` dice `vfat`, `FilesystemType` de archinstall dice `fat32`. Un
/// nombre que no esté en su enumeración hace que rechace el JSON entero con
/// un `ValueError`, o sea que la instalación no arranca por el nombre de un
/// sistema de archivos que ni siquiera se iba a tocar.
#[test]
fn el_nombre_del_sistema_de_archivos_se_traduce() {
    assert_eq!(fs_para_archinstall("vfat"), Some("fat32"));
    assert_eq!(fs_para_archinstall("swap"), Some("linux-swap"));
    assert_eq!(fs_para_archinstall("ext4"), Some("ext4"));
    assert_eq!(fs_para_archinstall("ntfs"), Some("ntfs"));
    // Los que no conoce van como `null`, que en una partición que no se
    // formatea archinstall acepta sin chistar.
    assert_eq!(fs_para_archinstall("zfs"), None);
    assert_eq!(fs_para_archinstall("apfs"), None);
    assert_eq!(fs_para_archinstall(""), None);

    // Y el ESP conservado sale como `fat32` y no como `vfat`.
    let disco = disco_repartido();
    let plan = planificar_manual(
        &disco,
        &[
            asignar("/dev/sda1", Some("/boot"), false),
            asignar("/dev/sda4", Some("/"), true),
        ],
        Firmware::Uefi,
        SistemaArchivos::Btrfs,
        false,
    )
    .unwrap();
    let esp = plan.particiones.iter().find(|p| p.rol == Rol::Esp).unwrap();
    assert_eq!(esp.sistema_archivos, Some("fat32"));
}

/// **Todo lo que el modo manual rechaza, y por qué.**
#[test]
fn en_manual_las_barandas_estan() {
    let disco = disco_repartido();
    let uefi = |a: Vec<AsignacionManual>| {
        planificar_manual(&disco, &a, Firmware::Uefi, SistemaArchivos::Btrfs, false)
    };
    let boot = || asignar("/dev/sda1", Some("/boot"), false);
    let raiz = || asignar("/dev/sda4", Some("/"), true);

    // Sin raíz no hay dónde instalar.
    assert_eq!(uefi(vec![boot()]).unwrap_err(), ErrorPlan::SinRaiz);

    // Sin arranque, archinstall muere al llegar al cargador con el disco ya
    // formateado.
    assert_eq!(uefi(vec![raiz()]).unwrap_err(), ErrorPlan::SinArranque);

    // La raíz sin formatear deja dos sistemas mezclados en el mismo árbol.
    assert_eq!(
        uefi(vec![boot(), asignar("/dev/sda4", Some("/"), false)]).unwrap_err(),
        ErrorPlan::LaRaizSeFormatea
    );

    // `/boot` en una partición que no es el ESP: no arrancaría, y se
    // descubriría al reiniciar.
    assert_eq!(
        uefi(vec![
            asignar("/dev/sda3", Some("/boot"), true),
            raiz()
        ])
        .unwrap_err(),
        ErrorPlan::ArranqueNoEsEsp {
            ruta: "/dev/sda3".into()
        }
    );

    // El mismo punto dos veces: archinstall montaría una encima de la otra.
    assert_eq!(
        uefi(vec![boot(), raiz(), asignar("/dev/sda3", Some("/"), true)]).unwrap_err(),
        ErrorPlan::AsignacionRepetida { que: "/".into() }
    );

    // Y la misma partición dos veces.
    assert_eq!(
        uefi(vec![
            boot(),
            raiz(),
            asignar("/dev/sda4", Some("/home"), false)
        ])
        .unwrap_err(),
        ErrorPlan::AsignacionRepetida {
            que: "/dev/sda4".into()
        }
    );

    // Un punto de montaje inventado.
    assert_eq!(
        uefi(vec![boot(), raiz(), asignar("/dev/sda3", Some("/hone"), false)]).unwrap_err(),
        ErrorPlan::PuntoDeMontajeDesconocido {
            punto: "/hone".into()
        }
    );

    // Una partición que ya no está.
    assert_eq!(
        uefi(vec![boot(), asignar("/dev/sda9", Some("/"), true)]).unwrap_err(),
        ErrorPlan::ParticionNoEsta {
            ruta: "/dev/sda9".into()
        }
    );

    // Una raíz que no llega al mínimo: sda1 es el ESP de 1 GiB, así que se
    // usa como raíz una que sí exista y sea chica.
    let mut chico = disco_repartido();
    chico.particiones[3].tamano_bytes = 10 * 1024 * MIB;
    assert!(matches!(
        planificar_manual(
            &chico,
            &[boot(), raiz()],
            Firmware::Uefi,
            SistemaArchivos::Btrfs,
            false
        ),
        Err(ErrorPlan::Chico { .. })
    ));

    // Una partición desalineada: para formatearla hay que rehacerla, y
    // rehacerla en otro lado es escribir encima de la de al lado.
    let mut torcido = disco_repartido();
    torcido.particiones[3].inicio_bytes += 512;
    assert_eq!(
        planificar_manual(
            &torcido,
            &[boot(), raiz()],
            Firmware::Uefi,
            SistemaArchivos::Btrfs,
            false
        )
        .unwrap_err(),
        ErrorPlan::ParticionDesalineada {
            ruta: "/dev/sda4".into()
        }
    );

    // Un ESP de 100 MiB tiene el GUID correcto y no alcanza igual: acá
    // adentro van el kernel y los dos initramfs.
    let mut flaco = disco_repartido();
    flaco.particiones[0].tamano_bytes = 100 * MIB;
    assert!(matches!(
        planificar_manual(
            &flaco,
            &[boot(), raiz()],
            Firmware::Uefi,
            SistemaArchivos::Btrfs,
            false
        ),
        Err(ErrorPlan::EspChico { .. })
    ));

    // Y una partición cifrada que se quiere conservar y montar: abrir
    // volúmenes LUKS que no son la raíz todavía no se hace, así que
    // montarla fallaría a mitad de la instalación.
    let mut cifrada = disco_repartido();
    cifrada.particiones[2].sistema_archivos = Some("crypto_LUKS".into());
    assert_eq!(
        planificar_manual(
            &cifrada,
            &[boot(), raiz(), asignar("/dev/sda3", Some("/home"), false)],
            Firmware::Uefi,
            SistemaArchivos::Btrfs,
            false
        )
        .unwrap_err(),
        ErrorPlan::ParticionCifrada {
            ruta: "/dev/sda3".into()
        }
    );

    // Y en BIOS, nada de esto.
    assert_eq!(
        planificar_manual(
            &disco,
            &[boot(), raiz()],
            Firmware::Bios,
            SistemaArchivos::Btrfs,
            false
        )
        .unwrap_err(),
        ErrorPlan::SoloUefi
    );
}

/// **En manual, sólo la raíz va cifrada.**
///
/// El ESP no puede: el firmware tiene que poder leerlo para arrancar. Y el
/// resto tampoco, porque no hay dónde pedirle la frase a alguien en el
/// arranque más que para la raíz.
#[test]
fn en_manual_solo_la_raiz_va_cifrada() {
    let disco = disco_repartido();
    let plan = planificar_manual(
        &disco,
        &[
            asignar("/dev/sda1", Some("/boot"), false),
            asignar("/dev/sda3", Some("/"), true),
            asignar("/dev/sda4", Some("/home"), true),
        ],
        Firmware::Uefi,
        SistemaArchivos::Btrfs,
        true,
    )
    .unwrap();

    for p in &plan.particiones {
        assert_eq!(
            p.cifrada,
            p.rol == Rol::Raiz,
            "{:?} ({:?}) tiene cifrada={}",
            p.ruta,
            p.rol,
            p.cifrada
        );
    }
    // Y el /home formateado se pierde, que es lo que se pidió.
    let victimas: Vec<&str> = plan
        .a_destruir(&disco)
        .iter()
        .map(|p| p.ruta.as_str())
        .collect();
    assert_eq!(victimas, ["/dev/sda3", "/dev/sda4"]);
}

// ── Propiedades ─────────────────────────────────────────────────────────
//
// Los tests de arriba dicen cada uno un caso. Éstos dicen lo que tiene que
// valer **siempre**, en cualquier disco y con cualquier modo, y es lo que
// corresponde en el único código del instalador cuyo error borra datos.
//
// Escritos antes del particionado manual a propósito: cuando alguien pueda
// armar el plan a mano, esto es lo que va a impedir que se lleve puesto un
// disco ajeno.

