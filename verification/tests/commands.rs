//! Lo que la ventana decide sin privilegios: la vista previa y la revisión
//! del plan.

use vasak_installer::commands::{revisar_plan_con, vista_previa_de, vista_previa_particionado};
use vasak_installer::layout::{planificar, Disco, Firmware, ParticionExistente, MIB};
use vasak_installer::protocol::{
    pasos_de_instalacion, EsquemaDisco, Paso, PlanInstalacion, Secretos, SistemaArchivos,
};

fn disco_de_prueba(gib: u64, nvme: bool) -> Disco {
    Disco {
        ruta: "/dev/prueba".into(),
        modelo: "Disco de prueba".into(),
        tamano_bytes: gib * 1024 * 1024 * 1024,
        sector_logico: 512,
        rotacional: false,
        nvme,
        en_uso: false,
        particiones: Vec::new(),
    }
}

/// La vista previa muestra exactamente lo que se va a hacer: se compara campo
/// por campo contra `planificar`, que es lo que ejecuta el ayudante.
#[test]
fn la_vista_previa_coincide_con_el_plan_real() {
    let disco = disco_de_prueba(256, true);
    for firmware in [Firmware::Uefi, Firmware::Bios] {
        for fs in [SistemaArchivos::Btrfs, SistemaArchivos::Ext4] {
            let plan = planificar(&disco, firmware, fs, false).unwrap();
            let vista = vista_previa_de(&disco, firmware, &plan);

            assert_eq!(vista.particiones.len(), plan.len());
            for (previa, real) in vista.particiones.iter().zip(plan.iter()) {
                assert_eq!(previa.inicio_bytes, real.inicio_mib * MIB);
                assert_eq!(previa.tamano_bytes, real.tamano_mib * MIB);
                assert_eq!(previa.sistema_archivos.as_deref(), real.sistema_archivos);
                assert_eq!(previa.punto_montaje.as_deref(), real.punto_montaje);
                assert_eq!(previa.opciones_montaje, real.opciones_montaje);
                assert_eq!(previa.cifrada, real.cifrada);
                assert_eq!(previa.subvolumenes.len(), real.subvolumenes.len());
            }
        }
    }
}

/// Con cifrado, la raíz de la vista previa sale marcada: es el único aviso
/// visible de que el disco va a pedir una frase en cada arranque.
#[test]
fn la_vista_previa_marca_la_particion_cifrada() {
    let disco = disco_de_prueba(64, false);
    let plan = planificar(&disco, Firmware::Uefi, SistemaArchivos::Btrfs, true).unwrap();
    let vista = vista_previa_de(&disco, Firmware::Uefi, &plan);

    assert!(!vista.particiones[0].cifrada, "el ESP nunca va cifrado");
    assert!(vista.particiones[1].cifrada, "la raíz sí");
}

#[test]
fn los_pasos_llegan_al_frontend_en_orden() {
    let pasos = pasos_de_instalacion();
    assert_eq!(pasos.first(), Some(&"particionar"));
    assert_eq!(pasos.last(), Some(&"cierre"));
    assert_eq!(pasos.len(), Paso::TODOS.len());
}

#[test]
fn la_vista_previa_escribe_roles_subvolumenes_y_lo_que_se_pierde() {
    let mut disco = disco_de_prueba(100, false);
    disco.particiones = vec![
        ParticionExistente {
            ruta: "/dev/prueba1".into(),
            inicio_bytes: MIB,
            tamano_bytes: 100 * MIB,
            sistema_archivos: Some("vfat".into()),
            etiqueta: None,
            numero: Some(1),
            tipo_particion: None,
            sistema_operativo: None,
        },
        ParticionExistente {
            ruta: "/dev/prueba2".into(),
            inicio_bytes: 101 * MIB,
            tamano_bytes: 1000 * MIB,
            sistema_archivos: Some("ntfs".into()),
            etiqueta: None,
            numero: Some(2),
            tipo_particion: None,
            sistema_operativo: Some("Windows 11".into()),
        },
        ParticionExistente {
            ruta: "/dev/prueba3".into(),
            inicio_bytes: 1101 * MIB,
            tamano_bytes: 10 * MIB,
            sistema_archivos: None,
            etiqueta: None,
            numero: Some(3),
            tipo_particion: None,
            sistema_operativo: None,
        },
    ];
    let plan = planificar(&disco, Firmware::Uefi, SistemaArchivos::Btrfs, false).unwrap();
    let vista = vista_previa_de(&disco, Firmware::Uefi, &plan);
    assert_eq!(vista.firmware, "uefi");
    assert_eq!(vista.particiones[0].rol, "esp");
    assert_eq!(vista.particiones[1].rol, "raiz");
    assert_eq!(vista.particiones[1].subvolumenes[0], "@ → /");
    assert_eq!(
        vista.se_pierde,
        vec!["/dev/prueba1 — vfat", "/dev/prueba2 — Windows 11", "/dev/prueba3"]
    );
}

#[test]
fn la_vista_previa_de_un_disco_que_no_esta_lo_dice() {
    let discos = vec![disco_de_prueba(100, false)];
    let r = vista_previa_particionado(&discos, "/dev/otro", Firmware::Uefi, SistemaArchivos::Ext4, false);
    assert_eq!(r.unwrap_err(), "no se encontró el disco /dev/otro");

    let chico = vec![disco_de_prueba(8, false)];
    let r = vista_previa_particionado(&chico, "/dev/prueba", Firmware::Uefi, SistemaArchivos::Ext4, false);
    assert_eq!(
        r.unwrap_err(),
        "el disco tiene 8 GiB y hacen falta al menos 20 GiB"
    );

    let r = vista_previa_particionado(&discos, "/dev/prueba", Firmware::Bios, SistemaArchivos::Ext4, false);
    assert_eq!(r.unwrap().firmware, "bios");
}

fn plan_valido() -> PlanInstalacion {
    PlanInstalacion {
        disco: "/dev/prueba".into(),
        esquema: EsquemaDisco::BorrarTodo,
        particion_destino: None,
        asignaciones: Vec::new(),
        sistema_archivos: SistemaArchivos::Btrfs,
        cifrar: false,
        zram: true,
        zona_horaria: "America/Argentina/Buenos_Aires".into(),
        idioma_sistema: "es_AR".into(),
        teclado: "us".into(),
        ntp: true,
        hostname: "vasak-pc".into(),
        nombre_completo: "Prueba".into(),
        usuario: "prueba".into(),
        administrador: true,
        root_habilitado: false,
        complementos: Vec::new(),
        secretos: Secretos {
            usuario: "clave".into(),
            root: String::new(),
            cifrado: String::new(),
        },
    }
}

const SUPPORTED: &str = "es_AR.UTF-8 UTF-8\nen_US.UTF-8 UTF-8\n";

fn mapas() -> Vec<String> {
    vec!["us".to_string(), "es".to_string()]
}

#[test]
fn un_plan_bien_armado_pasa_la_revision() {
    assert_eq!(revisar_plan_con(&plan_valido(), Ok(()), Some(SUPPORTED), &mapas()), Ok(()));
}

#[test]
fn cada_motivo_de_rechazo_se_dice_con_su_frase() {
    let mut p = plan_valido();
    p.usuario = "Pato".into();
    assert_eq!(
        revisar_plan_con(&p, Ok(()), Some(SUPPORTED), &mapas()).unwrap_err(),
        "el nombre de usuario no es válido: EmpiezaMal"
    );

    let mut p = plan_valido();
    p.usuario = "joaquín".into();
    assert_eq!(
        revisar_plan_con(&p, Ok(()), Some(SUPPORTED), &mapas()).unwrap_err(),
        "el nombre de usuario no es válido: Caracter { cual: \"í\" }"
    );

    let mut p = plan_valido();
    p.hostname = "mi equipo".into();
    assert_eq!(
        revisar_plan_con(&p, Ok(()), Some(SUPPORTED), &mapas()).unwrap_err(),
        "el nombre del equipo no es válido: Caracter { cual: \" \" }"
    );

    assert_eq!(
        revisar_plan_con(&plan_valido(), Err("no existe".into()), Some(SUPPORTED), &mapas())
            .unwrap_err(),
        "la zona horaria no es válida: no existe"
    );

    let mut p = plan_valido();
    p.idioma_sistema = "xx_YY".into();
    assert_eq!(
        revisar_plan_con(&p, Ok(()), Some(SUPPORTED), &mapas()).unwrap_err(),
        "el idioma del sistema no es válido: «xx_YY» no está entre los idiomas del sistema"
    );

    let mut p = plan_valido();
    p.teclado = "no-existe".into();
    assert!(revisar_plan_con(&p, Ok(()), Some(SUPPORTED), &mapas())
        .unwrap_err()
        .starts_with("la distribución de teclado no es válida: "));

    let mut p = plan_valido();
    p.secretos.usuario = String::new();
    assert_eq!(
        revisar_plan_con(&p, Ok(()), Some(SUPPORTED), &mapas()).unwrap_err(),
        "falta la contraseña del usuario"
    );

    let mut p = plan_valido();
    p.root_habilitado = true;
    assert_eq!(
        revisar_plan_con(&p, Ok(()), Some(SUPPORTED), &mapas()).unwrap_err(),
        "se habilitó root pero falta su contraseña"
    );

    let mut p = plan_valido();
    p.cifrar = true;
    assert_eq!(
        revisar_plan_con(&p, Ok(()), Some(SUPPORTED), &mapas()).unwrap_err(),
        "se pidió cifrado pero falta la frase"
    );
}

#[test]
fn un_nombre_largo_dice_el_limite() {
    let mut p = plan_valido();
    p.usuario = "a".repeat(33);
    assert_eq!(
        revisar_plan_con(&p, Ok(()), Some(SUPPORTED), &mapas()).unwrap_err(),
        "el nombre de usuario no es válido: Largo { maximo: 32 }"
    );
}
