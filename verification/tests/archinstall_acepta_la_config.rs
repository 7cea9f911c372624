//! La comprobación contra los modelos de archinstall, y el guard que decide si
//! se puede correr.

/// Lo que `parse_arg` hace con cada partición, y lo que después le pide.
const COMPROBACION: &str = r#"
import json, sys
from pathlib import Path
from archinstall.lib.models.device import (
    BtrfsOptions, FilesystemType, ModificationStatus, PartitionFlag,
    PartitionModification, PartitionType, Size, SubvolumeModification,
)

problemas = []
cfg = json.loads(sys.stdin.read())
modificaciones = []
for partition in cfg["disk_config"]["device_modifications"][0]["partitions"]:
    nombre = partition["obj_id"]
    # `from_string` devuelve None para lo que archinstall no conoce, y `parse_arg`
    # lo descarta sin decir nada: una bandera que no sobrevive es una bandera que
    # no se aplica.
    descartadas = [f for f in partition.get("flags", []) if PartitionFlag.from_string(f) is None]
    if descartadas:
        problemas.append(f"{nombre}: archinstall descarta las banderas {descartadas}")

    flags = [g for f in partition.get("flags", []) if (g := PartitionFlag.from_string(f))]
    fs_type = FilesystemType(partition["fs_type"]) if partition.get("fs_type") else None
    # `ModificationStatus` es un StrEnum: un estado que no conozca revienta acá
    # con ValueError, que es exactamente lo que se quiere comprobar.
    estado = ModificationStatus(partition["status"])
    mod = PartitionModification(
        status=estado,
        fs_type=fs_type,
        start=Size.parse_args(partition["start"]),
        length=Size.parse_args(partition["size"]),
        mount_options=partition["mount_options"],
        mountpoint=Path(partition["mountpoint"]) if partition["mountpoint"] else None,
        # Del JSON y no fijo en None: en las que se crean viene nulo, y en las
        # que ya existen es obligatorio. Fijarlo acá haría que el arnés probara
        # algo distinto de lo que se manda.
        dev_path=Path(partition["dev_path"]) if partition.get("dev_path") else None,
        type=PartitionType(partition["type"]),
        flags=flags,
        btrfs_subvols=SubvolumeModification.parse_args(partition.get("btrfs", [])),
    )
    # Una partición que ya existe **tiene** que traer su ruta: sin ella
    # archinstall no sabe cuál del disco es, y `models/device.py:904` lo rechaza
    # con «Device path must be set». Es el error que aparecería recién al
    # reusar el ESP de otro sistema, o sea en el equipo de alguien.
    if mod.is_exists_or_modify() and not partition.get("dev_path"):
        problemas.append(f"{nombre}: es «{estado.value}» y va sin dev_path")
    # Y una que se crea no puede traerla: todavía no existe, y una ruta
    # adivinada apuntaría a la partición de otro.
    if estado == ModificationStatus.CREATE and partition.get("dev_path"):
        problemas.append(f"{nombre}: se crea y ya trae dev_path {partition['dev_path']}")
    try:
        # Lo que `_setup_partition` pide para toda partición que crea.
        mod.safe_fs_type
    except ValueError as e:
        problemas.append(f"{nombre}: {e}")

    if not mod.start.is_valid_start():
        problemas.append(f"{nombre}: empieza en un lugar que archinstall rechaza")

    modificaciones.append(mod)

# Las instantáneas.
#
# `setup_btrfs_snapshot` —el que instala snapper y grub-btrfs, que es lo que
# pone las instantáneas en el menú de arranque— corre sólo si se dan **las dos**
# cosas: que el JSON traiga `btrfs_options.snapshot_config`, y que
# `has_default_btrfs_vols()` sea cierto.
#
# Lo primero se comprueba acá contra el propio `BtrfsOptions.parse_arg`.
btrfs_arg = cfg["disk_config"].get("btrfs_options")
pedimos_instantaneas = False
if btrfs_arg is not None:
    opciones = BtrfsOptions.parse_arg(btrfs_arg)
    if opciones is None or opciones.snapshot_config is None:
        problemas.append(f"btrfs_options: archinstall lo descarta entero: {btrfs_arg}")
    else:
        pedimos_instantaneas = True

# Lo segundo **hoy no se puede dar**, y no por nada nuestro.
#
# `SubvolumeModification.parse_args` guarda el nombre tal como viene del JSON,
# que es un `str`; `is_default_root()` lo compara contra `Path('@')`. Un `str`
# nunca es igual a un `Path`, así que da falso siempre. El menú interactivo no
# lo sufre porque ahí los subvolúmenes se arman con `SubvolumeModification(
# Path('@'), Path('/'))` (disk_menu.py:588). O sea: en cualquier instalación
# guiada por un archivo de configuración —la nuestra— archinstall no arma las
# instantáneas, mande uno lo que mande.
#
# Por eso `vasak-desktop-settings` las arma por su cuenta. La clave se manda
# igual: es correcta, no cuesta nada, y el día que arreglen esto arriba empieza
# a funcionar sola.
#
# Y ese día hay que enterarse, porque entonces sobra nuestro armado y quedarían
# los dos. Esta línea es el aviso: se imprime cuando la puerta se abre.
#
# El cuerpo es el de `has_default_btrfs_vols`, evaluado sobre los objetos de
# archinstall que ya construimos: `DiskLayoutConfiguration` no se puede armar
# sin enumerar discos, que pide root.
archinstall_las_haria = any(
    m.is_create_or_modify()
    and m.fs_type == FilesystemType.BTRFS
    and any(s.is_default_root() for s in m.btrfs_subvols)
    for m in modificaciones
)
if archinstall_las_haria:
    problemas.append(
        "UPSTREAM ARREGLADO: has_default_btrfs_vols ya da verdadero. archinstall "
        "arma snapper y grub-btrfs solo; sacar el armado propio de "
        "vasak-desktop-settings.install antes de que queden los dos."
    )

# Y el contrato al revés: si el plan trae la raíz btrfs con `@` montado en `/`,
# el JSON **tiene** que pedir las instantáneas. Es la mitad que importa —la otra
# comprobación sólo dice que lo que mandamos está bien formado, no que lo
# mandemos cuando corresponde—.
#
# Se mira el JSON crudo y no `is_default_root()` sobre los objetos de
# archinstall, porque eso hoy da falso siempre por el problema de arriba: usarlo
# acá haría que esta comprobación no comprobara nada.
hay_raiz_btrfs_default = any(
    p.get("fs_type") == "btrfs"
    and any(s["name"] == "@" and s["mountpoint"] == "/" for s in p.get("btrfs", []))
    for p in cfg["disk_config"]["device_modifications"][0]["partitions"]
)
if hay_raiz_btrfs_default and not pedimos_instantaneas:
    problemas.append("hay raíz btrfs con @ en / y el JSON no pide instantáneas")
if pedimos_instantaneas and not hay_raiz_btrfs_default:
    problemas.append("el JSON pide instantáneas y no hay raíz btrfs con @ en /")

print("\n".join(problemas))
"#;

/// El módulo que la comprobación necesita, y que por lo tanto hay que probar.
///
/// **No alcanza con `import archinstall`.** Su `__init__` no trae este módulo,
/// así que importar el paquete a secas puede funcionar mientras esto falla: pasó
/// con un `python-pydantic-core` desparejo respecto de `python-pydantic` —dos
/// repositorios sirviendo versiones distintas— y el resultado fue que el guard
/// dejaba pasar y los cuatro tests reventaban con el traceback de Python en
/// lugar de saltearse. El guard tiene que probar lo mismo que usa la prueba.
const MODULO: &str = "archinstall.lib.models.device";

/// Que el guard siga probando lo que la comprobación usa.
///
/// Es el error que dejó pasar cuatro tests reventados: el guard importaba
/// `archinstall` y la comprobación importaba `archinstall.lib.models.device`, y
/// entre los dos había toda una cadena de dependencias que podía estar rota.
/// Si alguien cambia los imports de `COMPROBACION`, esto falla y se entera acá.
#[test]
fn el_guard_prueba_el_modulo_que_la_comprobacion_importa() {
    assert!(
        COMPROBACION.contains(MODULO),
        "la comprobación ya no importa {MODULO}: el guard está probando otra cosa"
    );
}
