# vasak_installer

La lógica del instalador de VasakOS, escrita en Verus: cada función dice en su
contrato qué devuelve y Verus lo demuestra.

## Cómo está partido

- `src/` es la biblioteca verificada.
  - `layout.rs`: el particionado (borrar el disco, instalar al lado, sobre una
    partición, a mano) y las leyes que lo hacen seguro. En cualquier disco:
    sólo la raíz va cifrada (el ESP nunca), lo que se crea al lado de otro
    sistema no se mete en ninguna partición que termine antes del último MiB,
    y en el modo manual cada asignación es la partición del disco tal cual.
    En un disco bien formado —particiones adentro del disco, sin solaparse y
    con rutas distintas, que es lo que garantiza una tabla de particiones
    real—: ningún plan pisa lo que no declara y un ESP ajeno nunca se
    formatea.
  - `archconfig.rs`: la configuración y las credenciales que lee archinstall,
    la lista de paquetes y los servicios.
  - `conflictos.rs`: la lectura de `pacman -Si` y los choques entre paquetes;
    ningún choque informado es inventado y ninguno declarado se pasa por alto.
  - `complementos.rs`, `hardware.rs`: los complementos elegidos y los paquetes
    que necesita el equipo.
  - `probe.rs`: la lectura de `/proc`, de `lsblk` y de `os-prober`.
  - `validar.rs`, `teclado.rs`: nombres, contraseñas, zona, idioma y teclado.
  - `protocol.rs`, `helper.rs`, `commands.rs`: el protocolo con el ayudante y
    las decisiones que toma cada paso.
  - `texto.rs`, `conjunto.rs`, `orden.rs`, `entorno.rs`: utilidades comunes.
- `app/` es lo que no se verifica: el programa, la entrada y salida, los
  procesos que se lanzan y la serialización.
- `tests/` prueba la biblioteca con valores concretos.
