//! Planificación de la tabla de particiones.
//!
//! archinstall no propone nada desde un archivo de configuración: espera la
//! lista completa de particiones con sus posiciones y tamaños exactos. Así que
//! el plan se arma acá, y es una función pura a propósito: **es el único código
//! del instalador cuyo error borra datos.**
//!
//! Todo el aritmético va en MiB enteros. Con bytes los inicios terminan sin
//! alinear a 1 MiB, y una partición desalineada en un SSD escribe de a dos
//! bloques donde debería escribir uno.

use vstd::prelude::*;

use crate::orden::{
    insertar_antes, lemma_filtrar_ninguno, lemma_filtrar_todos, lemma_filtrar_uno,
    lemma_insertar_en, lemma_insertar_vista, lemma_ordenar_contiene, lemma_ordenar_ordenada,
    lemma_ordenar_paso, lemma_ordenar_sin_repetidos, ordenar,
};
use crate::protocol::{
    nombre_archinstall, vista_texto, AsignacionManual, EsquemaDisco, SistemaArchivos,
    VistaAsignacion,
};
use crate::texto::{
    agregar, cadena, cadena_de, caracteres, decimal, escribir_decimal, iguales,
    iguales_ignorando_caso, iguales_sin_caso,
};

verus! {

/// Un MiB en bytes.
pub const MIB: u64 = 1048576;

/// Un GiB en bytes.
pub const GIB: u64 = 1073741824;

/// Dónde empieza la primera partición: el MiB inicial es del MBR protector y
/// de la cabecera GPT primaria, y arrancar en 1 MiB alinea todo lo que sigue.
pub const INICIO_MIB: u64 = 1;

/// La partición de arranque, montada en `/boot`: 1 GiB, porque ahí viven el
/// kernel y los dos initramfs, y cada actualización los reescribe.
pub const ARRANQUE_MIB: u64 = 1024;

/// Lo que se deja libre al final del disco para la cabecera GPT secundaria.
pub const RESERVA_FINAL_MIB: u64 = 1;

/// El disco más chico que se acepta.
pub const MINIMO_GIB: u64 = 20;

/// Cuánto tiene que medir un ESP que ya existe para poder reusarlo.
pub const MINIMO_ESP_REUSABLE_MIB: u64 = 512;

/// El GUID que GPT le da a la partición de sistema EFI.
pub const GUID_ESP: &'static str = "c12a7328-f81f-11d2-ba4b-00a0c93ec93b";

/// Un disco tal como lo ve el sondeo.
#[derive(Debug, Clone)]
pub struct Disco {
    /// `/dev/nvme0n1`, `/dev/sda`.
    pub ruta: String,
    /// Lo que muestra la interfaz: `Samsung SSD 980 1TB`.
    pub modelo: String,
    pub tamano_bytes: u64,
    /// Tamaño de sector lógico. En los discos 4Kn es 4096, no 512.
    pub sector_logico: u64,
    /// `true` en discos mecánicos.
    pub rotacional: bool,
    /// `true` si es NVMe. Cambia las opciones de montaje.
    pub nvme: bool,
    /// `true` si el disco o alguna de sus particiones está montada.
    pub en_uso: bool,
    /// Lo que hay hoy, para que el resumen pueda decir qué se va a perder.
    pub particiones: Vec<ParticionExistente>,
}

#[derive(Debug, Clone)]
pub struct ParticionExistente {
    pub ruta: String,
    /// Dónde empieza en el disco.
    pub inicio_bytes: u64,
    pub tamano_bytes: u64,
    pub sistema_archivos: Option<String>,
    pub etiqueta: Option<String>,
    /// El número en la tabla de particiones. Sólo para los mensajes.
    pub numero: Option<u32>,
    /// El GUID del tipo de partición en GPT.
    pub tipo_particion: Option<String>,
    /// Lo que se pudo averiguar del sistema operativo que vive ahí.
    pub sistema_operativo: Option<String>,
}

/// Una partición existente, como valores.
pub struct VistaParticion {
    pub ruta: Seq<char>,
    pub inicio_bytes: u64,
    pub tamano_bytes: u64,
    pub sistema_archivos: Option<Seq<char>>,
    pub etiqueta: Option<Seq<char>>,
    pub numero: Option<u32>,
    pub tipo_particion: Option<Seq<char>>,
    pub sistema_operativo: Option<Seq<char>>,
}

impl View for ParticionExistente {
    type V = VistaParticion;

    open spec fn view(&self) -> VistaParticion {
        VistaParticion {
            ruta: self.ruta@,
            inicio_bytes: self.inicio_bytes,
            tamano_bytes: self.tamano_bytes,
            sistema_archivos: vista_texto(self.sistema_archivos),
            etiqueta: vista_texto(self.etiqueta),
            numero: self.numero,
            tipo_particion: vista_texto(self.tipo_particion),
            sistema_operativo: vista_texto(self.sistema_operativo),
        }
    }
}

/// Un disco, como valores.
pub struct VistaDisco {
    pub ruta: Seq<char>,
    pub modelo: Seq<char>,
    pub tamano_bytes: u64,
    pub sector_logico: u64,
    pub rotacional: bool,
    pub nvme: bool,
    pub en_uso: bool,
    pub particiones: Seq<VistaParticion>,
}

pub open spec fn vistas_existentes(s: Seq<ParticionExistente>) -> Seq<VistaParticion> {
    s.map_values(|p: ParticionExistente| p@)
}

impl View for Disco {
    type V = VistaDisco;

    open spec fn view(&self) -> VistaDisco {
        VistaDisco {
            ruta: self.ruta@,
            modelo: self.modelo@,
            tamano_bytes: self.tamano_bytes,
            sector_logico: self.sector_logico,
            rotacional: self.rotacional,
            nvme: self.nvme,
            en_uso: self.en_uso,
            particiones: vistas_existentes(self.particiones@),
        }
    }
}

/// Si una partición es la de sistema EFI: se compara su GUID de tipo, sin
/// distinguir mayúsculas, y no el sistema de archivos.
pub open spec fn es_esp(p: VistaParticion) -> bool {
    match p.tipo_particion {
        Some(t) => iguales_sin_caso(t, GUID_ESP@),
        None => false,
    }
}

/// El byte siguiente al último que ocupa, sin pasarse de `u64::MAX`.
pub open spec fn fin_de(p: VistaParticion) -> u64 {
    if p.inicio_bytes + p.tamano_bytes > u64::MAX {
        u64::MAX
    } else {
        (p.inicio_bytes + p.tamano_bytes) as u64
    }
}

impl ParticionExistente {
    /// Si es la partición de sistema EFI.
    pub fn es_esp(&self) -> (r: bool)
        ensures
            r == es_esp(self@),
    {
        match &self.tipo_particion {
            Some(t) => iguales_ignorando_caso(t.as_str(), GUID_ESP),
            None => false,
        }
    }

    /// El byte siguiente al último que ocupa.
    pub fn fin_bytes(&self) -> (r: u64)
        ensures
            r == fin_de(self@),
    {
        self.inicio_bytes.saturating_add(self.tamano_bytes)
    }
}

/// El firmware del equipo. Decide si hay ESP o si el arranque es `/boot` a
/// secas.
#[derive(Debug, Clone, Copy, PartialEq, Eq, Structural)]
pub enum Firmware {
    Uefi,
    Bios,
}

/// Para qué es una partición del plan.
#[derive(Debug, Clone, Copy, PartialEq, Eq, Structural)]
pub enum Rol {
    /// La partición de arranque: el ESP en UEFI, `/boot` a secas en BIOS.
    Esp,
    Raiz,
    /// Una partición que se monta en otro lado: `/home`, `/var`, `/srv`.
    Datos,
}

/// Qué se le hace a una partición del plan.
///
/// | acá | archinstall | tabla de particiones | formateo |
/// |---|---|---|---|
/// | `Crear` | `create` | se crea | sí |
/// | `Formatear` | `modify` | se borra y se recrea igual | sí |
/// | `Conservar` | `existing` | no se toca | **no** |
#[derive(Debug, Clone, Copy, PartialEq, Eq, Structural)]
pub enum Accion {
    /// No existe: se crea en la geometría del plan y se formatea.
    Crear,
    /// Existe: se rehace con la misma geometría y se formatea.
    Formatear,
    /// Existe y no se toca. Sólo se monta donde diga el plan.
    Conservar,
}

/// Una partición del plan. Todavía no es JSON de archinstall: acá están los
/// números y las decisiones.
#[derive(Debug, Clone, PartialEq, Eq)]
pub struct ParticionPlaneada {
    pub inicio_mib: u64,
    pub tamano_mib: u64,
    pub sistema_archivos: Option<&'static str>,
    /// `None` en la raíz btrfs con subvolúmenes: ahí el punto de montaje lo
    /// lleva el subvolumen `@`.
    pub punto_montaje: Option<&'static str>,
    pub opciones_montaje: Vec<String>,
    pub banderas: Vec<&'static str>,
    /// Subvolúmenes btrfs, con el nombre tal cual va al disco.
    pub subvolumenes: Vec<(&'static str, &'static str)>,
    /// Si esta partición va cifrada con LUKS.
    pub cifrada: bool,
    pub rol: Rol,
    pub accion: Accion,
    /// La ruta en `/dev`. `None` en las que se crean; obligatoria en las
    /// otras dos.
    pub ruta: Option<String>,
}

/// Una partición del plan, como valores.
pub struct VistaPlaneada {
    pub inicio_mib: u64,
    pub tamano_mib: u64,
    pub sistema_archivos: Option<Seq<char>>,
    pub punto_montaje: Option<Seq<char>>,
    pub opciones_montaje: Seq<Seq<char>>,
    pub banderas: Seq<Seq<char>>,
    pub subvolumenes: Seq<(Seq<char>, Seq<char>)>,
    pub cifrada: bool,
    pub rol: Rol,
    pub accion: Accion,
    pub ruta: Option<Seq<char>>,
}

pub open spec fn vista_fija(o: Option<&'static str>) -> Option<Seq<char>> {
    match o {
        Some(s) => Some(s@),
        None => None,
    }
}

impl View for ParticionPlaneada {
    type V = VistaPlaneada;

    open spec fn view(&self) -> VistaPlaneada {
        VistaPlaneada {
            inicio_mib: self.inicio_mib,
            tamano_mib: self.tamano_mib,
            sistema_archivos: vista_fija(self.sistema_archivos),
            punto_montaje: vista_fija(self.punto_montaje),
            opciones_montaje: self.opciones_montaje@.map_values(|s: String| s@),
            banderas: self.banderas@.map_values(|s: &'static str| s@),
            subvolumenes: self.subvolumenes@.map_values(
                |p: (&'static str, &'static str)| (p.0@, p.1@),
            ),
            cifrada: self.cifrada,
            rol: self.rol,
            accion: self.accion,
            ruta: vista_texto(self.ruta),
        }
    }
}

pub open spec fn vistas_planeadas(s: Seq<ParticionPlaneada>) -> Seq<VistaPlaneada> {
    s.map_values(|p: ParticionPlaneada| p@)
}

/// Por qué un disco no se puede usar.
#[derive(Debug, Clone, PartialEq, Eq)]
pub enum ErrorPlan {
    /// Más chico que `MINIMO_GIB`.
    Chico { tiene_gib: u64, minimo_gib: u64 },
    /// Está montado. Casi siempre es el pendrive de la ISO.
    EnUso,
    /// Tamaño cero o sector lógico cero.
    Invalido,
    /// No hay un hueco libre lo bastante grande para instalar al lado.
    SinEspacioLibre { mayor_hueco_gib: u64 },
    /// Hay un ESP pero no entra lo que VasakOS pone adentro.
    EspChico { tiene_mib: u64, minimo_mib: u64 },
    /// Instalar al lado de otro sistema sólo está resuelto en UEFI.
    SoloUefi,
    /// Se pidió instalar sobre una partición que el disco no tiene.
    ParticionNoEsta { ruta: String },
    /// La partición elegida no empieza ni termina en un MiB entero.
    ParticionDesalineada { ruta: String },
    /// Se pidió instalar sobre el ESP.
    ParticionEsElEsp { ruta: String },
    /// En el modo manual: un punto de montaje que no se puede elegir.
    PuntoDeMontajeDesconocido { punto: String },
    /// En el modo manual: el mismo punto de montaje o la misma partición dos
    /// veces.
    AsignacionRepetida { que: String },
    /// En el modo manual: ninguna partición para `/`.
    SinRaiz,
    /// En el modo manual: ninguna partición para `/boot`.
    SinArranque,
    /// En el modo manual: la raíz sin formatear.
    LaRaizSeFormatea,
    /// En el modo manual y UEFI: `/boot` en una partición que no es el ESP.
    ArranqueNoEsEsp { ruta: String },
    /// En el modo manual: se quiso conservar y montar una partición cifrada.
    ParticionCifrada { ruta: String },
}

/// Un error del plan, como valores.
pub enum VistaError {
    Chico { tiene_gib: u64, minimo_gib: u64 },
    EnUso,
    Invalido,
    SinEspacioLibre { mayor_hueco_gib: u64 },
    EspChico { tiene_mib: u64, minimo_mib: u64 },
    SoloUefi,
    ParticionNoEsta { ruta: Seq<char> },
    ParticionDesalineada { ruta: Seq<char> },
    ParticionEsElEsp { ruta: Seq<char> },
    PuntoDeMontajeDesconocido { punto: Seq<char> },
    AsignacionRepetida { que: Seq<char> },
    SinRaiz,
    SinArranque,
    LaRaizSeFormatea,
    ArranqueNoEsEsp { ruta: Seq<char> },
    ParticionCifrada { ruta: Seq<char> },
}

impl View for ErrorPlan {
    type V = VistaError;

    open spec fn view(&self) -> VistaError {
        match self {
            ErrorPlan::Chico { tiene_gib, minimo_gib } => VistaError::Chico {
                tiene_gib: *tiene_gib,
                minimo_gib: *minimo_gib,
            },
            ErrorPlan::EnUso => VistaError::EnUso,
            ErrorPlan::Invalido => VistaError::Invalido,
            ErrorPlan::SinEspacioLibre { mayor_hueco_gib } => VistaError::SinEspacioLibre {
                mayor_hueco_gib: *mayor_hueco_gib,
            },
            ErrorPlan::EspChico { tiene_mib, minimo_mib } => VistaError::EspChico {
                tiene_mib: *tiene_mib,
                minimo_mib: *minimo_mib,
            },
            ErrorPlan::SoloUefi => VistaError::SoloUefi,
            ErrorPlan::ParticionNoEsta { ruta } => VistaError::ParticionNoEsta { ruta: ruta@ },
            ErrorPlan::ParticionDesalineada { ruta } => VistaError::ParticionDesalineada {
                ruta: ruta@,
            },
            ErrorPlan::ParticionEsElEsp { ruta } => VistaError::ParticionEsElEsp { ruta: ruta@ },
            ErrorPlan::PuntoDeMontajeDesconocido { punto } => VistaError::PuntoDeMontajeDesconocido {
                punto: punto@,
            },
            ErrorPlan::AsignacionRepetida { que } => VistaError::AsignacionRepetida { que: que@ },
            ErrorPlan::SinRaiz => VistaError::SinRaiz,
            ErrorPlan::SinArranque => VistaError::SinArranque,
            ErrorPlan::LaRaizSeFormatea => VistaError::LaRaizSeFormatea,
            ErrorPlan::ArranqueNoEsEsp { ruta } => VistaError::ArranqueNoEsEsp { ruta: ruta@ },
            ErrorPlan::ParticionCifrada { ruta } => VistaError::ParticionCifrada { ruta: ruta@ },
        }
    }
}

/// El plan completo: qué particiones quedan y si la tabla se rehace de cero.
#[derive(Debug, Clone, PartialEq, Eq)]
pub struct Plan {
    /// Si se rehace la tabla de particiones desde cero. Es el punto sin
    /// retorno.
    pub borrar_disco: bool,
    pub particiones: Vec<ParticionPlaneada>,
}

pub struct VistaPlan {
    pub borrar_disco: bool,
    pub particiones: Seq<VistaPlaneada>,
}

impl View for Plan {
    type V = VistaPlan;

    open spec fn view(&self) -> VistaPlan {
        VistaPlan {
            borrar_disco: self.borrar_disco,
            particiones: vistas_planeadas(self.particiones@),
        }
    }
}

pub open spec fn vista_resultado_lista(
    r: Result<Vec<ParticionPlaneada>, ErrorPlan>,
) -> Result<Seq<VistaPlaneada>, VistaError> {
    match r {
        Ok(v) => Ok(vistas_planeadas(v@)),
        Err(e) => Err(e@),
    }
}

pub open spec fn vista_resultado(r: Result<Plan, ErrorPlan>) -> Result<VistaPlan, VistaError> {
    match r {
        Ok(p) => Ok(p@),
        Err(e) => Err(e@),
    }
}

// ── Las particiones que arma el plan ────────────────────────────────────────

/// Los subvolúmenes, con los mismos nombres y puntos de montaje que usaba la
/// configuración de calamares.
pub open spec fn subvolumenes_spec() -> Seq<(Seq<char>, Seq<char>)> {
    seq![
        ("@"@, "/"@),
        ("@home"@, "/home"@),
        ("@root"@, "/root"@),
        ("@srv"@, "/srv"@),
        ("@cache"@, "/var/cache"@),
        ("@tmp"@, "/var/tmp"@),
        ("@log"@, "/var/log"@),
    ]
}

/// El ESP de UEFI: FAT32 en `/boot`, sólo legible por root, con las banderas
/// `boot` y `esp`, y nunca cifrado.
pub open spec fn esp_uefi(accion: Accion, ruta: Option<Seq<char>>, inicio: u64, tamano: u64) -> VistaPlaneada {
    VistaPlaneada {
        inicio_mib: inicio,
        tamano_mib: tamano,
        sistema_archivos: Some("fat32"@),
        punto_montaje: Some("/boot"@),
        opciones_montaje: seq!["umask=0077"@],
        banderas: seq!["boot"@, "esp"@],
        subvolumenes: seq![],
        cifrada: false,
        rol: Rol::Esp,
        accion,
        ruta,
    }
}

/// El `/boot` de BIOS: ext4 con la bandera `boot`, que es lo que archinstall
/// busca para instalar el cargador.
pub open spec fn arranque_bios(inicio: u64, tamano: u64) -> VistaPlaneada {
    VistaPlaneada {
        inicio_mib: inicio,
        tamano_mib: tamano,
        sistema_archivos: Some("ext4"@),
        punto_montaje: Some("/boot"@),
        opciones_montaje: seq![],
        banderas: seq!["boot"@],
        subvolumenes: seq![],
        cifrada: false,
        rol: Rol::Esp,
        accion: Accion::Crear,
        ruta: None,
    }
}

/// Las opciones de montaje de la raíz, según el sistema de archivos y el medio.
pub open spec fn opciones_spec(fs: SistemaArchivos, nvme: bool) -> Seq<Seq<char>> {
    match fs {
        SistemaArchivos::Btrfs => seq![
            if nvme {
                "compress=zstd:1"@
            } else {
                "compress=zstd"@
            },
            "noatime"@,
        ],
        SistemaArchivos::Ext4 => seq!["noatime"@],
        SistemaArchivos::Xfs => seq![
            "noatime"@,
            "lazytime"@,
            "inode64"@,
            "logbsize=256k"@,
            "noquota"@,
        ],
    }
}

/// La raíz: con btrfs lleva los subvolúmenes y ningún punto de montaje propio;
/// con los demás se monta en `/`.
pub open spec fn raiz_spec(
    nvme: bool,
    fs: SistemaArchivos,
    cifrar: bool,
    inicio: u64,
    tamano: u64,
    accion: Accion,
    ruta: Option<Seq<char>>,
) -> VistaPlaneada {
    let btrfs = fs == SistemaArchivos::Btrfs;
    VistaPlaneada {
        inicio_mib: inicio,
        tamano_mib: tamano,
        sistema_archivos: Some(nombre_archinstall(fs)),
        punto_montaje: if btrfs {
            None
        } else {
            Some("/"@)
        },
        opciones_montaje: opciones_spec(fs, nvme),
        banderas: seq![],
        subvolumenes: if btrfs {
            subvolumenes_spec()
        } else {
            seq![]
        },
        cifrada: cifrar,
        rol: Rol::Raiz,
        accion,
        ruta,
    }
}

pub open spec fn resta_saturada(a: u64, b: u64) -> u64 {
    if a >= b {
        (a - b) as u64
    } else {
        0
    }
}

pub open spec fn producto_saturado(a: u64, b: u64) -> u64 {
    if a * b > u64::MAX {
        u64::MAX
    } else {
        (a * b) as u64
    }
}

pub open spec fn suma_saturada(a: u64, b: u64) -> u64 {
    if a + b > u64::MAX {
        u64::MAX
    } else {
        (a + b) as u64
    }
}

// ── Borrar el disco entero ──────────────────────────────────────────────────

/// Lo que se comprueba del disco antes de cualquier plan.
pub open spec fn problema_del_disco(d: VistaDisco) -> Option<VistaError> {
    if d.tamano_bytes == 0 || d.sector_logico == 0 {
        Some(VistaError::Invalido)
    } else if d.en_uso {
        Some(VistaError::EnUso)
    } else {
        None
    }
}

/// El plan que borra el disco entero: arranque de 1 GiB en el MiB 1 y la raíz
/// en todo lo que sigue hasta el MiB de reserva del final.
pub open spec fn plan_de_borrado(
    d: VistaDisco,
    firmware: Firmware,
    fs: SistemaArchivos,
    cifrar: bool,
) -> Result<Seq<VistaPlaneada>, VistaError> {
    match problema_del_disco(d) {
        Some(e) => Err(e),
        None => {
            let total = (d.tamano_bytes / MIB) as u64;
            let gib = (d.tamano_bytes / GIB) as u64;
            let raiz = resta_saturada(resta_saturada(total, 1025), 1);
            if gib < MINIMO_GIB || raiz == 0 {
                Err(VistaError::Chico { tiene_gib: gib, minimo_gib: MINIMO_GIB })
            } else {
                let arranque = match firmware {
                    Firmware::Uefi => esp_uefi(Accion::Crear, None, 1, 1024),
                    Firmware::Bios => arranque_bios(1, 1024),
                };
                Ok(
                    seq![
                        arranque,
                        raiz_spec(d.nvme, fs, cifrar, 1025, raiz, Accion::Crear, None),
                    ],
                )
            }
        },
    }
}


pub open spec fn plan_borrando(d: VistaDisco, firmware: Firmware, fs: SistemaArchivos, cifrar: bool) -> Result<VistaPlan, VistaError> {
    match plan_de_borrado(d, firmware, fs, cifrar) {
        Ok(ps) => Ok(VistaPlan { borrar_disco: true, particiones: ps }),
        Err(e) => Err(e),
    }
}

// ── Cómo se arman ───────────────────────────────────────────────────────────

pub fn subvolumenes() -> (r: Vec<(&'static str, &'static str)>)
    ensures
        r@.map_values(|p: (&'static str, &'static str)| (p.0@, p.1@)) == subvolumenes_spec(),
{
    let mut v: Vec<(&'static str, &'static str)> = Vec::new();
    v.push(("@", "/"));
    v.push(("@home", "/home"));
    v.push(("@root", "/root"));
    v.push(("@srv", "/srv"));
    v.push(("@cache", "/var/cache"));
    v.push(("@tmp", "/var/tmp"));
    v.push(("@log", "/var/log"));
    assert(v@.map_values(|p: (&'static str, &'static str)| (p.0@, p.1@)) =~= subvolumenes_spec());
    v
}

/// Un ESP: FAT32 en `/boot`, sólo legible por root, con las banderas `boot` y
/// `esp`, y nunca cifrado: el firmware tiene que poder leerlo.
fn nuevo_esp(accion: Accion, ruta: Option<String>, inicio_mib: u64, tamano_mib: u64) -> (p:
    ParticionPlaneada)
    ensures
        p@ == esp_uefi(accion, vista_texto(ruta), inicio_mib, tamano_mib),
{
    let mut opciones: Vec<String> = Vec::new();
    opciones.push(cadena("umask=0077"));
    let mut banderas: Vec<&'static str> = Vec::new();
    banderas.push("boot");
    banderas.push("esp");
    let p = ParticionPlaneada {
        inicio_mib,
        tamano_mib,
        sistema_archivos: Some("fat32"),
        punto_montaje: Some("/boot"),
        opciones_montaje: opciones,
        banderas,
        subvolumenes: Vec::new(),
        cifrada: false,
        rol: Rol::Esp,
        accion,
        ruta,
    };
    assert(p@.opciones_montaje =~= seq!["umask=0077"@]);
    assert(p@.banderas =~= seq!["boot"@, "esp"@]);
    assert(p@.subvolumenes =~= seq![]);
    p
}

/// El `/boot` de BIOS.
fn nuevo_arranque_bios(inicio_mib: u64, tamano_mib: u64) -> (p: ParticionPlaneada)
    ensures
        p@ == arranque_bios(inicio_mib, tamano_mib),
{
    let mut banderas: Vec<&'static str> = Vec::new();
    banderas.push("boot");
    let p = ParticionPlaneada {
        inicio_mib,
        tamano_mib,
        sistema_archivos: Some("ext4"),
        punto_montaje: Some("/boot"),
        opciones_montaje: Vec::new(),
        banderas,
        subvolumenes: Vec::new(),
        cifrada: false,
        rol: Rol::Esp,
        accion: Accion::Crear,
        ruta: None,
    };
    assert(p@.opciones_montaje =~= seq![]);
    assert(p@.banderas =~= seq!["boot"@]);
    assert(p@.subvolumenes =~= seq![]);
    p
}

/// Las opciones de montaje de la raíz, según el sistema de archivos y el medio.
///
/// `zstd:1` en NVMe y `zstd` en el resto: en un NVMe comprimir más fuerte lo
/// frena en vez de ayudarlo.
pub fn opciones_de_montaje(fs: SistemaArchivos, disco: &Disco) -> (r: Vec<String>)
    ensures
        r@.map_values(|s: String| s@) == opciones_spec(fs, disco.nvme),
{
    let mut v: Vec<String> = Vec::new();
    match fs {
        SistemaArchivos::Btrfs => {
            if disco.nvme {
                v.push(cadena("compress=zstd:1"));
            } else {
                v.push(cadena("compress=zstd"));
            }
            v.push(cadena("noatime"));
        },
        SistemaArchivos::Ext4 => {
            v.push(cadena("noatime"));
        },
        SistemaArchivos::Xfs => {
            v.push(cadena("noatime"));
            v.push(cadena("lazytime"));
            v.push(cadena("inode64"));
            v.push(cadena("logbsize=256k"));
            v.push(cadena("noquota"));
        },
    }
    assert(v@.map_values(|s: String| s@) =~= opciones_spec(fs, disco.nvme));
    v
}

/// La partición raíz del plan, con lo que cambia según el sistema de archivos.
pub fn raiz_del_plan(
    disco: &Disco,
    fs: SistemaArchivos,
    cifrar: bool,
    inicio_mib: u64,
    tamano_mib: u64,
    accion: Accion,
    ruta: Option<String>,
) -> (p: ParticionPlaneada)
    ensures
        p@ == raiz_spec(disco.nvme, fs, cifrar, inicio_mib, tamano_mib, accion, vista_texto(ruta)),
{
    let usa_subvolumenes = fs == SistemaArchivos::Btrfs;
    let p = ParticionPlaneada {
        inicio_mib,
        tamano_mib,
        sistema_archivos: Some(fs.como_archinstall()),
        punto_montaje: if usa_subvolumenes {
            None
        } else {
            Some("/")
        },
        opciones_montaje: opciones_de_montaje(fs, disco),
        banderas: Vec::new(),
        subvolumenes: if usa_subvolumenes {
            subvolumenes()
        } else {
            Vec::new()
        },
        cifrada: cifrar,
        rol: Rol::Raiz,
        accion,
        ruta,
    };
    assert(p@.banderas =~= seq![]);
    if !usa_subvolumenes {
        assert(p@.subvolumenes =~= seq![]);
    }
    p
}

/// Lo que se comprueba del disco antes de cualquier plan.
pub fn comprobar_disco(disco: &Disco) -> (r: Result<(), ErrorPlan>)
    ensures
        match problema_del_disco(disco@) {
            Some(e) => r is Err && r->Err_0@ == e,
            None => r is Ok,
        },
{
    if disco.tamano_bytes == 0 || disco.sector_logico == 0 {
        return Err(ErrorPlan::Invalido);
    }
    if disco.en_uso {
        return Err(ErrorPlan::EnUso);
    }
    Ok(())
}

/// Arma el plan de particionado para borrar el disco entero.
///
/// Devuelve las particiones en orden de posición en el disco.
pub fn planificar(disco: &Disco, firmware: Firmware, fs: SistemaArchivos, cifrar: bool) -> (r:
    Result<Vec<ParticionPlaneada>, ErrorPlan>)
    ensures
        vista_resultado_lista(r) == plan_de_borrado(disco@, firmware, fs, cifrar),
{
    if disco.tamano_bytes == 0 || disco.sector_logico == 0 {
        return Err(ErrorPlan::Invalido);
    }
    if disco.en_uso {
        return Err(ErrorPlan::EnUso);
    }
    let total_mib = disco.tamano_bytes / MIB;
    let tiene_gib = disco.tamano_bytes / (1024 * MIB);
    if tiene_gib < MINIMO_GIB {
        return Err(ErrorPlan::Chico { tiene_gib, minimo_gib: MINIMO_GIB });
    }
    let mut plan: Vec<ParticionPlaneada> = Vec::new();
    let mut cursor: u64 = INICIO_MIB;
    match firmware {
        Firmware::Uefi => {
            plan.push(nuevo_esp(Accion::Crear, None, cursor, ARRANQUE_MIB));
        },
        Firmware::Bios => {
            plan.push(nuevo_arranque_bios(cursor, ARRANQUE_MIB));
        },
    }
    cursor = cursor + ARRANQUE_MIB;
    let tamano_raiz = total_mib.saturating_sub(cursor).saturating_sub(RESERVA_FINAL_MIB);
    if tamano_raiz == 0 {
        return Err(ErrorPlan::Chico { tiene_gib, minimo_gib: MINIMO_GIB });
    }
    plan.push(raiz_del_plan(disco, fs, cifrar, cursor, tamano_raiz, Accion::Crear, None));
    proof {
        let d = disco@;
        let arranque = match firmware {
            Firmware::Uefi => esp_uefi(Accion::Crear, None, 1, 1024),
            Firmware::Bios => arranque_bios(1, 1024),
        };
        assert(vistas_planeadas(plan@) =~= seq![
            arranque,
            raiz_spec(d.nvme, fs, cifrar, 1025, tamano_raiz, Accion::Crear, None),
        ]);
    }
    Ok(plan)
}

/// El plan para borrar el disco entero, con la misma forma que los otros.
pub fn planificar_borrando(disco: &Disco, firmware: Firmware, fs: SistemaArchivos, cifrar: bool) -> (r:
    Result<Plan, ErrorPlan>)
    ensures
        vista_resultado(r) == plan_borrando(disco@, firmware, fs, cifrar),
{
    match planificar(disco, firmware, fs, cifrar) {
        Ok(particiones) => Ok(Plan { borrar_disco: true, particiones }),
        Err(e) => Err(e),
    }
}


// ── Los huecos libres ───────────────────────────────────────────────────────

/// Un tramo de disco sin usar, en MiB y ya alineado.
#[derive(Debug, Clone, Copy, PartialEq, Eq, Structural)]
pub struct Hueco {
    pub inicio_mib: u64,
    pub tamano_mib: u64,
}

/// El primer MiB entero que empieza en `b` o después.
pub open spec fn techo_mib(b: u64) -> u64 {
    if b % MIB == 0 {
        (b / MIB) as u64
    } else {
        (b / MIB + 1) as u64
    }
}

pub open spec fn mayor(a: u64, b: u64) -> u64 {
    if a >= b {
        a
    } else {
        b
    }
}

/// El orden de los tramos ocupados: por inicio y después por fin.
pub open spec fn por_posicion() -> spec_fn((u64, u64), (u64, u64)) -> bool {
    |x: (u64, u64), y: (u64, u64)| x.0 < y.0 || (x.0 == y.0 && x.1 < y.1)
}

/// Los huecos de mayor a menor; entre dos iguales, el que está antes.
pub open spec fn por_tamano() -> spec_fn(Hueco, Hueco) -> bool {
    |x: Hueco, y: Hueco| x.tamano_mib > y.tamano_mib
}

/// Lo que ocupa cada partición, en bytes, ordenado.
pub open spec fn ocupados_de(d: VistaDisco) -> Seq<(u64, u64)> {
    ordenar(d.particiones.map_values(|p: VistaParticion| (p.inicio_bytes, fin_de(p))), por_posicion())
}

/// Los huecos entre tramos ocupados ya ordenados, empezando a buscar en el MiB
/// `cursor`. Cada hueco termina en el MiB donde empieza el tramo siguiente,
/// redondeado hacia abajo, y el siguiente empieza donde termina el tramo,
/// redondeado hacia arriba: ninguno de los dos bordes cae adentro de algo
/// ajeno.
pub open spec fn huecos_desde(s: Seq<(u64, u64)>, cursor: u64) -> Seq<Hueco>
    decreases s.len(),
{
    if s.len() == 0 {
        seq![]
    } else {
        let im = (s[0].0 / MIB) as u64;
        let resto = huecos_desde(s.drop_first(), mayor(cursor, techo_mib(s[0].1)));
        if im > cursor {
            seq![Hueco { inicio_mib: cursor, tamano_mib: (im - cursor) as u64 }] + resto
        } else {
            resto
        }
    }
}

/// Dónde queda el cursor después de recorrer los tramos.
pub open spec fn cursor_tras(s: Seq<(u64, u64)>, cursor: u64) -> u64
    decreases s.len(),
{
    if s.len() == 0 {
        cursor
    } else {
        cursor_tras(s.drop_first(), mayor(cursor, techo_mib(s[0].1)))
    }
}

/// Los huecos en orden de posición, incluido el del final, que llega hasta el
/// MiB de reserva.
pub open spec fn huecos_en_orden(d: VistaDisco) -> Seq<Hueco> {
    let s = ocupados_de(d);
    let c = cursor_tras(s, INICIO_MIB);
    let fin = resta_saturada((d.tamano_bytes / MIB) as u64, RESERVA_FINAL_MIB);
    huecos_desde(s, INICIO_MIB) + if fin > c {
        seq![Hueco { inicio_mib: c, tamano_mib: (fin - c) as u64 }]
    } else {
        seq![]
    }
}

/// Los tramos libres de un disco, de mayor a menor.
pub open spec fn huecos_spec(d: VistaDisco) -> Seq<Hueco> {
    ordenar(huecos_en_orden(d), por_tamano())
}

/// El hueco donde se instala: el más grande, o uno vacío si no hay ninguno.
pub open spec fn mayor_hueco(d: VistaDisco) -> Hueco {
    if huecos_spec(d).len() > 0 {
        huecos_spec(d)[0]
    } else {
        Hueco { inicio_mib: INICIO_MIB, tamano_mib: 0 }
    }
}

fn insertar_ocupado(v: &mut Vec<(u64, u64)>, x: (u64, u64))
    ensures
        final(v)@ == insertar_antes(x, old(v)@, por_posicion()),
{
    let mut j: usize = 0;
    let mut hallado = false;
    while j < v.len() && !hallado
        invariant
            j <= v.len(),
            hallado ==> j < v.len() && por_posicion()(x, v@[j as int]),
            forall|i: int| 0 <= i < j ==> !por_posicion()(x, #[trigger] v@[i]),
        decreases (v.len() - j) as int + (if hallado { 0int } else { 1int }),
    {
        let y = v[j];
        if x.0 < y.0 || (x.0 == y.0 && x.1 < y.1) {
            hallado = true;
        } else {
            j = j + 1;
        }
    }
    proof {
        lemma_insertar_en(x, v@, por_posicion(), j as int);
    }
    v.insert(j, x);
}

fn insertar_hueco(v: &mut Vec<Hueco>, x: Hueco)
    ensures
        final(v)@ == insertar_antes(x, old(v)@, por_tamano()),
{
    let mut j: usize = 0;
    let mut hallado = false;
    while j < v.len() && !hallado
        invariant
            j <= v.len(),
            hallado ==> j < v.len() && por_tamano()(x, v@[j as int]),
            forall|i: int| 0 <= i < j ==> !por_tamano()(x, #[trigger] v@[i]),
        decreases (v.len() - j) as int + (if hallado { 0int } else { 1int }),
    {
        if x.tamano_mib > v[j].tamano_mib {
            hallado = true;
        } else {
            j = j + 1;
        }
    }
    proof {
        lemma_insertar_en(x, v@, por_tamano(), j as int);
    }
    v.insert(j, x);
}

/// El MiB donde termina `b`, redondeado hacia arriba.
fn techo(b: u64) -> (r: u64)
    ensures
        r == techo_mib(b),
{
    if b % MIB == 0 {
        b / MIB
    } else {
        b / MIB + 1
    }
}

/// Los tramos libres de un disco, de mayor a menor.
///
/// Alineados a 1 MiB por los dos lados: el inicio se redondea hacia arriba y el
/// final hacia abajo. El último MiB del disco no se ofrece: ahí va la copia de
/// la tabla GPT.
pub fn huecos_libres(disco: &Disco) -> (r: Vec<Hueco>)
    ensures
        r@ == huecos_spec(disco@),
{
    let total_mib = disco.tamano_bytes / MIB;
    let fin_utilizable = total_mib.saturating_sub(RESERVA_FINAL_MIB);
    let ghost d = disco@;
    let ghost crudos = d.particiones.map_values(
        |p: VistaParticion| (p.inicio_bytes, fin_de(p)),
    );

    let mut ocupados: Vec<(u64, u64)> = Vec::new();
    let mut i: usize = 0;
    while i < disco.particiones.len()
        invariant
            i <= disco.particiones.len(),
            d == disco@,
            crudos == d.particiones.map_values(|p: VistaParticion| (p.inicio_bytes, fin_de(p))),
            ocupados@ == ordenar(crudos.take(i as int), por_posicion()),
        decreases disco.particiones.len() - i,
    {
        let p = &disco.particiones[i];
        let x = (p.inicio_bytes, p.fin_bytes());
        proof {
            assert(d.particiones[i as int] == p@);
            assert(crudos[i as int] == x);
            lemma_ordenar_paso(crudos, i as int, por_posicion());
        }
        insertar_ocupado(&mut ocupados, x);
        i = i + 1;
    }
    assert(crudos.take(i as int) =~= crudos);
    let ghost s = ocupados@;
    assert(s == ocupados_de(d));

    let mut huecos: Vec<Hueco> = Vec::new();
    let mut cursor: u64 = INICIO_MIB;
    let mut k: usize = 0;
    assert(s.skip(0) =~= s);
    assert(huecos@ + huecos_desde(s, INICIO_MIB) =~= huecos_desde(s, INICIO_MIB));
    while k < ocupados.len()
        invariant
            k <= ocupados.len(),
            s == ocupados@,
            huecos@ + huecos_desde(s.skip(k as int), cursor) == huecos_desde(s, INICIO_MIB),
            cursor_tras(s.skip(k as int), cursor) == cursor_tras(s, INICIO_MIB),
        decreases ocupados.len() - k,
    {
        let (inicio_b, fin_b) = ocupados[k];
        proof {
            assert(s.skip(k as int)[0] == s[k as int]);
            assert(s.skip(k as int).drop_first() =~= s.skip(k as int + 1));
        }
        let inicio_mib = inicio_b / MIB;
        let ghost antes = huecos@;
        if inicio_mib > cursor {
            huecos.push(Hueco { inicio_mib: cursor, tamano_mib: inicio_mib - cursor });
        }
        let fin_mib = techo(fin_b);
        let ghost viejo = cursor;
        if fin_mib > cursor {
            cursor = fin_mib;
        }
        proof {
            assert(cursor == mayor(viejo, techo_mib(fin_b)));
            if inicio_mib > viejo {
                assert(huecos@ + huecos_desde(s.skip(k as int + 1), cursor) =~= antes
                    + huecos_desde(s.skip(k as int), viejo));
            } else {
                assert(huecos@ + huecos_desde(s.skip(k as int + 1), cursor) =~= antes
                    + huecos_desde(s.skip(k as int), viejo));
            }
        }
        k = k + 1;
    }
    proof {
        assert(s.skip(k as int) =~= seq![]);
        assert(huecos@ =~= huecos_desde(s, INICIO_MIB));
    }
    if fin_utilizable > cursor {
        huecos.push(Hueco { inicio_mib: cursor, tamano_mib: fin_utilizable - cursor });
    }
    let ghost en_orden = huecos@;
    assert(en_orden =~= huecos_en_orden(d));

    let mut ordenados: Vec<Hueco> = Vec::new();
    let mut m: usize = 0;
    while m < huecos.len()
        invariant
            m <= huecos.len(),
            en_orden == huecos@,
            ordenados@ == ordenar(en_orden.take(m as int), por_tamano()),
        decreases huecos.len() - m,
    {
        proof {
            lemma_ordenar_paso(en_orden, m as int, por_tamano());
        }
        insertar_hueco(&mut ordenados, huecos[m]);
        m = m + 1;
    }
    assert(en_orden.take(m as int) =~= en_orden);
    ordenados
}

/// El más grande de los huecos libres, o uno vacío al principio del disco.
fn el_mayor_hueco(disco: &Disco) -> (h: Hueco)
    ensures
        h == mayor_hueco(disco@),
{
    let huecos = huecos_libres(disco);
    if huecos.len() > 0 {
        huecos[0]
    } else {
        Hueco { inicio_mib: INICIO_MIB, tamano_mib: 0 }
    }
}


// ── Buscar en la lista de particiones ───────────────────────────────────────

/// La posición de la primera partición que cumple `pred`, o `-1`.
pub open spec fn primero(s: Seq<VistaParticion>, pred: spec_fn(VistaParticion) -> bool) -> int
    decreases s.len(),
{
    if s.len() == 0 {
        -1
    } else if pred(s[0]) {
        0
    } else {
        let r = primero(s.drop_first(), pred);
        if r < 0 {
            -1
        } else {
            r + 1
        }
    }
}

pub open spec fn es_esp_fn() -> spec_fn(VistaParticion) -> bool {
    |p: VistaParticion| es_esp(p)
}

pub open spec fn con_ruta(r: Seq<char>) -> spec_fn(VistaParticion) -> bool {
    |p: VistaParticion| p.ruta == r
}

/// Lo que dice `primero` sobre una búsqueda de principio a fin.
pub proof fn lemma_primero(s: Seq<VistaParticion>, pred: spec_fn(VistaParticion) -> bool, i: int)
    requires
        0 <= i <= s.len(),
        forall|j: int| 0 <= j < i ==> !pred(#[trigger] s[j]),
        i == s.len() || pred(s[i]),
    ensures
        primero(s, pred) == if i == s.len() {
            -1
        } else {
            i
        },
    decreases s.len(),
{
    if s.len() > 0 && i > 0 {
        let t = s.drop_first();
        assert forall|j: int| 0 <= j < i - 1 implies !pred(#[trigger] t[j]) by {
            assert(t[j] == s[j + 1]);
        }
        lemma_primero(t, pred, i - 1);
    }
}

/// Lo que se sabe de `primero` cuando encontró algo.
pub proof fn lemma_primero_encontro(s: Seq<VistaParticion>, pred: spec_fn(VistaParticion) -> bool)
    ensures
        -1 <= primero(s, pred) < s.len(),
        primero(s, pred) >= 0 ==> pred(s[primero(s, pred)]),
        primero(s, pred) < 0 ==> forall|j: int| 0 <= j < s.len() ==> !pred(#[trigger] s[j]),
    decreases s.len(),
{
    if s.len() > 0 {
        let t = s.drop_first();
        lemma_primero_encontro(t, pred);
        if !pred(s[0]) && primero(t, pred) < 0 {
            assert forall|j: int| 0 <= j < s.len() implies !pred(#[trigger] s[j]) by {
                if j > 0 {
                    assert(s[j] == t[j - 1]);
                }
            }
        }
    }
}

/// La primera partición que es el ESP.
fn buscar_esp(disco: &Disco) -> (r: Option<usize>)
    ensures
        match r {
            Some(k) => k == primero(disco@.particiones, es_esp_fn()) && k < disco.particiones.len(),
            None => primero(disco@.particiones, es_esp_fn()) == -1,
        },
{
    let ghost s = disco@.particiones;
    let mut i: usize = 0;
    while i < disco.particiones.len()
        invariant
            i <= disco.particiones.len(),
            s == disco@.particiones,
            forall|j: int| 0 <= j < i ==> !es_esp_fn()(#[trigger] s[j]),
        decreases disco.particiones.len() - i,
    {
        assert(s[i as int] == disco.particiones[i as int]@);
        if disco.particiones[i].es_esp() {
            proof {
                lemma_primero(s, es_esp_fn(), i as int);
            }
            return Some(i);
        }
        i = i + 1;
    }
    proof {
        lemma_primero(s, es_esp_fn(), i as int);
    }
    None
}

/// La primera partición con esa ruta.
fn buscar_ruta(disco: &Disco, ruta: &str) -> (r: Option<usize>)
    ensures
        match r {
            Some(k) => k == primero(disco@.particiones, con_ruta(ruta@)) && k
                < disco.particiones.len(),
            None => primero(disco@.particiones, con_ruta(ruta@)) == -1,
        },
{
    let ghost s = disco@.particiones;
    let mut i: usize = 0;
    while i < disco.particiones.len()
        invariant
            i <= disco.particiones.len(),
            s == disco@.particiones,
            forall|j: int| 0 <= j < i ==> !con_ruta(ruta@)(#[trigger] s[j]),
        decreases disco.particiones.len() - i,
    {
        assert(s[i as int] == disco.particiones[i as int]@);
        if iguales(disco.particiones[i].ruta.as_str(), ruta) {
            proof {
                lemma_primero(s, con_ruta(ruta@), i as int);
            }
            return Some(i);
        }
        i = i + 1;
    }
    proof {
        lemma_primero(s, con_ruta(ruta@), i as int);
    }
    None
}

// ── Los modos que no borran el disco ────────────────────────────────────────

/// Si empieza y termina en un MiB entero.
pub open spec fn alineada(p: VistaParticion) -> bool {
    p.inicio_bytes % MIB == 0 && p.tamano_bytes % MIB == 0
}

pub open spec fn vista_con_gasto(r: Result<(ParticionPlaneada, u64), ErrorPlan>) -> Result<
    (VistaPlaneada, u64),
    VistaError,
> {
    match r {
        Ok((p, n)) => Ok((p@, n)),
        Err(e) => Err(e@),
    }
}

/// Un ESP propio al principio del hueco, si entra.
pub open spec fn crear_esp_spec(h: Hueco) -> Result<(VistaPlaneada, u64), VistaError> {
    if h.tamano_mib < ARRANQUE_MIB {
        Err(VistaError::SinEspacioLibre { mayor_hueco_gib: (h.tamano_mib / 1024) as u64 })
    } else {
        Ok((esp_uefi(Accion::Crear, None, h.inicio_mib, ARRANQUE_MIB), ARRANQUE_MIB))
    }
}

/// El ESP del plan: el primero que tenga el disco, conservado tal como está,
/// si mide al menos `MINIMO_ESP_REUSABLE_MIB`; uno propio en el hueco si no
/// hay ninguno o el que hay es más chico. Además, cuántos MiB del hueco se
/// gastaron.
pub open spec fn esp_del_plan_spec(d: VistaDisco, h: Hueco) -> Result<(VistaPlaneada, u64), VistaError> {
    let k = primero(d.particiones, es_esp_fn());
    if k < 0 {
        crear_esp_spec(h)
    } else {
        let e = d.particiones[k];
        if !alineada(e) {
            Err(VistaError::ParticionDesalineada { ruta: e.ruta })
        } else if e.tamano_bytes / MIB < MINIMO_ESP_REUSABLE_MIB {
            crear_esp_spec(h)
        } else {
            Ok(
                (
                    esp_uefi(
                        Accion::Conservar,
                        Some(e.ruta),
                        (e.inicio_bytes / MIB) as u64,
                        (e.tamano_bytes / MIB) as u64,
                    ),
                    0,
                ),
            )
        }
    }
}

/// Uno propio, al principio del hueco libre.
pub fn crear_esp(hueco: Hueco) -> (r: Result<(ParticionPlaneada, u64), ErrorPlan>)
    ensures
        vista_con_gasto(r) == crear_esp_spec(hueco),
{
    if hueco.tamano_mib < ARRANQUE_MIB {
        return Err(ErrorPlan::SinEspacioLibre { mayor_hueco_gib: hueco.tamano_mib / 1024 });
    }
    Ok((nuevo_esp(Accion::Crear, None, hueco.inicio_mib, ARRANQUE_MIB), ARRANQUE_MIB))
}

/// El ESP del plan: el que ya está si sirve, o uno nuevo al principio del hueco.
///
/// El que ya está se conserva sin formatear: formatearlo es borrarle el
/// cargador al otro sistema. Si es más chico de lo que VasakOS pone adentro,
/// no se usa y tampoco se rechaza la instalación: se hace uno propio en el
/// hueco y el ajeno queda intacto.
pub fn esp_del_plan(disco: &Disco, hueco: Hueco) -> (r: Result<(ParticionPlaneada, u64), ErrorPlan>)
    ensures
        vista_con_gasto(r) == esp_del_plan_spec(disco@, hueco),
{
    match buscar_esp(disco) {
        Some(k) => {
            let esp = &disco.particiones[k];
            assert(disco@.particiones[k as int] == esp@);
            if esp.inicio_bytes % MIB != 0 || esp.tamano_bytes % MIB != 0 {
                return Err(ErrorPlan::ParticionDesalineada { ruta: esp.ruta.clone() });
            }
            let mib = esp.tamano_bytes / MIB;
            if mib < MINIMO_ESP_REUSABLE_MIB {
                return crear_esp(hueco);
            }
            Ok(
                (
                    nuevo_esp(
                        Accion::Conservar,
                        Some(esp.ruta.clone()),
                        esp.inicio_bytes / MIB,
                        mib,
                    ),
                    0,
                ),
            )
        },
        None => crear_esp(hueco),
    }
}

/// Las particiones del plan en orden de posición en el disco.
pub open spec fn por_inicio() -> spec_fn(VistaPlaneada, VistaPlaneada) -> bool {
    |x: VistaPlaneada, y: VistaPlaneada| x.inicio_mib < y.inicio_mib
}

/// Dos particiones en orden de posición.
fn en_orden(a: ParticionPlaneada, b: ParticionPlaneada) -> (r: Vec<ParticionPlaneada>)
    ensures
        vistas_planeadas(r@) == ordenar(seq![a@, b@], por_inicio()),
{
    proof {
        reveal_with_fuel(ordenar, 3);
        reveal_with_fuel(insertar_antes, 3);
        assert(seq![a@, b@].drop_last() =~= seq![a@]);
        assert(seq![a@].drop_last() =~= seq![]);
        assert(seq![a@].drop_first() =~= seq![]);
    }
    let mut v: Vec<ParticionPlaneada> = Vec::new();
    if b.inicio_mib < a.inicio_mib {
        v.push(b);
        v.push(a);
        assert(vistas_planeadas(v@) =~= seq![b@, a@]);
    } else {
        v.push(a);
        v.push(b);
        assert(vistas_planeadas(v@) =~= seq![a@, b@]);
    }
    v
}

/// Cota de los huecos: todo termina antes del último MiB que un `u64` de bytes
/// puede nombrar.
pub open spec fn cota_mib() -> int {
    (u64::MAX / MIB) as int
}

pub proof fn lemma_huecos_desde_acotados(s: Seq<(u64, u64)>, c: u64)
    requires
        c <= cota_mib() + 1,
    ensures
        forall|i: int|
            0 <= i < huecos_desde(s, c).len() ==> #[trigger] huecos_desde(s, c)[i].inicio_mib
                + huecos_desde(s, c)[i].tamano_mib <= cota_mib(),
        cursor_tras(s, c) <= cota_mib() + 1,
    decreases s.len(),
{
    if s.len() > 0 {
        let sig = mayor(c, techo_mib(s[0].1));
        assert(techo_mib(s[0].1) <= cota_mib() + 1);
        lemma_huecos_desde_acotados(s.drop_first(), sig);
        let im = (s[0].0 / MIB) as u64;
        let resto = huecos_desde(s.drop_first(), sig);
        if im > c {
            let r = seq![Hueco { inicio_mib: c, tamano_mib: (im - c) as u64 }] + resto;
            assert forall|i: int| 0 <= i < r.len() implies #[trigger] r[i].inicio_mib
                + r[i].tamano_mib <= cota_mib() by {
                if i > 0 {
                    assert(r[i] == resto[i - 1]);
                }
            }
        }
    }
}

/// El hueco mayor termina adentro de lo que se puede direccionar.
pub proof fn lemma_mayor_hueco_acotado(d: VistaDisco)
    ensures
        mayor_hueco(d).inicio_mib + mayor_hueco(d).tamano_mib <= cota_mib(),
{
    let s = ocupados_de(d);
    lemma_huecos_desde_acotados(s, INICIO_MIB);
    let e = huecos_en_orden(d);
    lemma_ordenar_contiene(e, por_tamano());
    if huecos_spec(d).len() > 0 {
        let h = huecos_spec(d)[0];
        assert(huecos_spec(d).contains(h));
        assert(e.contains(h));
        let i = choose|i: int| 0 <= i < e.len() && e[i] == h;
        let a = huecos_desde(s, INICIO_MIB);
        if i < a.len() {
            assert(e[i] == a[i]);
        }
    }
}

pub open spec fn plan_junto_a(d: VistaDisco, firmware: Firmware, fs: SistemaArchivos, cifrar: bool) -> Result<
    VistaPlan,
    VistaError,
> {
    match problema_del_disco(d) {
        Some(e) => Err(e),
        None => if firmware != Firmware::Uefi {
            Err(VistaError::SoloUefi)
        } else {
            let h = mayor_hueco(d);
            match esp_del_plan_spec(d, h) {
                Err(e) => Err(e),
                Ok((esp, gastado)) => {
                    let para_la_raiz = resta_saturada(h.tamano_mib, gastado);
                    if para_la_raiz < MINIMO_GIB * 1024 {
                        Err(VistaError::SinEspacioLibre { mayor_hueco_gib: (h.tamano_mib / 1024) as u64 })
                    } else {
                        Ok(
                            VistaPlan {
                                borrar_disco: false,
                                particiones: ordenar(
                                    seq![
                                        esp,
                                        raiz_spec(
                                            d.nvme,
                                            fs,
                                            cifrar,
                                            (h.inicio_mib + gastado) as u64,
                                            para_la_raiz,
                                            Accion::Crear,
                                            None,
                                        ),
                                    ],
                                    por_inicio(),
                                ),
                            },
                        )
                    }
                },
            }
        },
    }
}

/// Arma el plan para instalar en el espacio libre, sin tocar lo que ya está.
///
/// El plan se acomoda en el hueco más grande. Sólo UEFI: en BIOS la tabla es
/// MBR y no hay ESP que reusar.
pub fn planificar_junto_a(disco: &Disco, firmware: Firmware, fs: SistemaArchivos, cifrar: bool) -> (r:
    Result<Plan, ErrorPlan>)
    ensures
        vista_resultado(r) == plan_junto_a(disco@, firmware, fs, cifrar),
{
    match comprobar_disco(disco) {
        Err(e) => {
            return Err(e);
        },
        Ok(()) => {},
    }
    if firmware != Firmware::Uefi {
        return Err(ErrorPlan::SoloUefi);
    }
    let mayor = el_mayor_hueco(disco);
    let (esp, gastado) = match esp_del_plan(disco, mayor) {
        Ok(par) => par,
        Err(e) => {
            return Err(e);
        },
    };
    let para_la_raiz = mayor.tamano_mib.saturating_sub(gastado);
    if para_la_raiz < MINIMO_GIB * 1024 {
        return Err(ErrorPlan::SinEspacioLibre { mayor_hueco_gib: mayor.tamano_mib / 1024 });
    }
    proof {
        lemma_mayor_hueco_acotado(disco@);
    }
    let raiz = raiz_del_plan(
        disco,
        fs,
        cifrar,
        mayor.inicio_mib + gastado,
        para_la_raiz,
        Accion::Crear,
        None,
    );
    let particiones = en_orden(esp, raiz);
    Ok(Plan { borrar_disco: false, particiones })
}

pub open spec fn plan_sobre(
    d: VistaDisco,
    particion: Seq<char>,
    firmware: Firmware,
    fs: SistemaArchivos,
    cifrar: bool,
) -> Result<VistaPlan, VistaError> {
    match problema_del_disco(d) {
        Some(e) => Err(e),
        None => if firmware != Firmware::Uefi {
            Err(VistaError::SoloUefi)
        } else {
            let k = primero(d.particiones, con_ruta(particion));
            if k < 0 {
                Err(VistaError::ParticionNoEsta { ruta: particion })
            } else {
                let destino = d.particiones[k];
                let tiene_gib = (destino.tamano_bytes / GIB) as u64;
                if es_esp(destino) {
                    Err(VistaError::ParticionEsElEsp { ruta: particion })
                } else if !alineada(destino) {
                    Err(VistaError::ParticionDesalineada { ruta: particion })
                } else if tiene_gib < MINIMO_GIB {
                    Err(VistaError::Chico { tiene_gib, minimo_gib: MINIMO_GIB })
                } else {
                    match esp_del_plan_spec(d, mayor_hueco(d)) {
                        Err(e) => Err(e),
                        Ok((esp, _)) => Ok(
                            VistaPlan {
                                borrar_disco: false,
                                particiones: ordenar(
                                    seq![
                                        esp,
                                        raiz_spec(
                                            d.nvme,
                                            fs,
                                            cifrar,
                                            (destino.inicio_bytes / MIB) as u64,
                                            (destino.tamano_bytes / MIB) as u64,
                                            Accion::Formatear,
                                            Some(destino.ruta),
                                        ),
                                    ],
                                    por_inicio(),
                                ),
                            },
                        ),
                    }
                }
            }
        },
    }
}

/// Arma el plan para instalar sobre una partición que ya existe, formateando
/// sólo esa.
///
/// La partición se rehace con la misma geometría, así que tiene que estar
/// alineada a 1 MiB: una desalineada no se puede reproducir donde estaba.
pub fn planificar_sobre(
    disco: &Disco,
    particion: &str,
    firmware: Firmware,
    fs: SistemaArchivos,
    cifrar: bool,
) -> (r: Result<Plan, ErrorPlan>)
    ensures
        vista_resultado(r) == plan_sobre(disco@, particion@, firmware, fs, cifrar),
{
    match comprobar_disco(disco) {
        Err(e) => {
            return Err(e);
        },
        Ok(()) => {},
    }
    if firmware != Firmware::Uefi {
        return Err(ErrorPlan::SoloUefi);
    }
    let k = match buscar_ruta(disco, particion) {
        Some(k) => k,
        None => {
            return Err(ErrorPlan::ParticionNoEsta { ruta: cadena(particion) });
        },
    };
    let destino = &disco.particiones[k];
    assert(disco@.particiones[k as int] == destino@);
    if destino.es_esp() {
        return Err(ErrorPlan::ParticionEsElEsp { ruta: cadena(particion) });
    }
    if destino.inicio_bytes % MIB != 0 || destino.tamano_bytes % MIB != 0 {
        return Err(ErrorPlan::ParticionDesalineada { ruta: cadena(particion) });
    }
    let tiene_gib = destino.tamano_bytes / (1024 * MIB);
    if tiene_gib < MINIMO_GIB {
        return Err(ErrorPlan::Chico { tiene_gib, minimo_gib: MINIMO_GIB });
    }
    let mayor = el_mayor_hueco(disco);
    let (esp, _) = match esp_del_plan(disco, mayor) {
        Ok(par) => par,
        Err(e) => {
            return Err(e);
        },
    };
    let raiz = raiz_del_plan(
        disco,
        fs,
        cifrar,
        destino.inicio_bytes / MIB,
        destino.tamano_bytes / MIB,
        Accion::Formatear,
        Some(destino.ruta.clone()),
    );
    let particiones = en_orden(esp, raiz);
    Ok(Plan { borrar_disco: false, particiones })
}


// ── El modo manual ──────────────────────────────────────────────────────────

/// Los puntos de montaje que se pueden elegir a mano.
///
/// Una lista cerrada y no un campo de texto libre: un punto de montaje escrito
/// a mano es un lugar donde un error de tipeo deja el sistema instalado en una
/// carpeta que nadie mira.
pub const PUNTOS_MANUALES: [&'static str; 6] = ["/", "/boot", "/home", "/opt", "/srv", "/var"];

pub open spec fn puntos_manuales() -> Seq<Seq<char>> {
    seq!["/"@, "/boot"@, "/home"@, "/opt"@, "/srv"@, "/var"@]
}

/// El nombre que archinstall le da a un sistema de archivos que informó
/// `lsblk`, o `None` si no lo conoce. `crypto_LUKS` no va: no es algo que se
/// pueda montar.
pub open spec fn fs_archinstall_spec(fs: Seq<char>) -> Option<Seq<char>> {
    if fs == "vfat"@ || fs == "fat32"@ {
        Some("fat32"@)
    } else if fs == "fat16"@ {
        Some("fat16"@)
    } else if fs == "fat12"@ {
        Some("fat12"@)
    } else if fs == "swap"@ {
        Some("linux-swap"@)
    } else if fs == "btrfs"@ {
        Some("btrfs"@)
    } else if fs == "ext2"@ {
        Some("ext2"@)
    } else if fs == "ext3"@ {
        Some("ext3"@)
    } else if fs == "ext4"@ {
        Some("ext4"@)
    } else if fs == "f2fs"@ {
        Some("f2fs"@)
    } else if fs == "ntfs"@ {
        Some("ntfs"@)
    } else if fs == "xfs"@ {
        Some("xfs"@)
    } else {
        None
    }
}

/// El nombre que archinstall le da a un sistema de archivos de `lsblk`.
pub fn fs_para_archinstall(fs: &str) -> (r: Option<&'static str>)
    ensures
        vista_fija(r) == fs_archinstall_spec(fs@),
{
    if iguales(fs, "vfat") || iguales(fs, "fat32") {
        Some("fat32")
    } else if iguales(fs, "fat16") {
        Some("fat16")
    } else if iguales(fs, "fat12") {
        Some("fat12")
    } else if iguales(fs, "swap") {
        Some("linux-swap")
    } else if iguales(fs, "btrfs") {
        Some("btrfs")
    } else if iguales(fs, "ext2") {
        Some("ext2")
    } else if iguales(fs, "ext3") {
        Some("ext3")
    } else if iguales(fs, "ext4") {
        Some("ext4")
    } else if iguales(fs, "f2fs") {
        Some("f2fs")
    } else if iguales(fs, "ntfs") {
        Some("ntfs")
    } else if iguales(fs, "xfs") {
        Some("xfs")
    } else {
        None
    }
}

/// Lo que se lleva juntado al recorrer las asignaciones.
pub struct EstadoManual {
    pub puntos: Seq<Seq<char>>,
    pub rutas: Seq<Seq<char>>,
    pub plan: Seq<VistaPlaneada>,
    pub hay_raiz: bool,
}

pub open spec fn estado_inicial() -> EstadoManual {
    EstadoManual { puntos: seq![], rutas: seq![], plan: seq![], hay_raiz: false }
}

/// Una partición del modo manual que no es la raíz: el arranque o una de
/// datos. Si se formatea lleva el sistema de archivos elegido (FAT32 en el
/// arranque); si se conserva, el que ya tiene con el nombre de archinstall.
pub open spec fn otra_manual(
    e: VistaParticion,
    punto: Seq<char>,
    formatear: bool,
    fs: SistemaArchivos,
) -> VistaPlaneada {
    let es_arranque = punto == "/boot"@;
    VistaPlaneada {
        inicio_mib: (e.inicio_bytes / MIB) as u64,
        tamano_mib: (e.tamano_bytes / MIB) as u64,
        sistema_archivos: if formatear {
            Some(
                if es_arranque {
                    "fat32"@
                } else {
                    nombre_archinstall(fs)
                },
            )
        } else {
            match e.sistema_archivos {
                Some(f) => fs_archinstall_spec(f),
                None => None,
            }
        },
        punto_montaje: Some(punto),
        opciones_montaje: if es_arranque {
            seq!["umask=0077"@]
        } else {
            seq![]
        },
        banderas: if es_arranque {
            seq!["boot"@, "esp"@]
        } else {
            seq![]
        },
        subvolumenes: seq![],
        cifrada: false,
        rol: if es_arranque {
            Rol::Esp
        } else {
            Rol::Datos
        },
        accion: if formatear {
            Accion::Formatear
        } else {
            Accion::Conservar
        },
        ruta: Some(e.ruta),
    }
}

/// Una asignación con punto de montaje, en el orden de las comprobaciones.
pub open spec fn paso_manual(
    d: VistaDisco,
    a: VistaAsignacion,
    est: EstadoManual,
    fs: SistemaArchivos,
    cifrar: bool,
) -> Result<EstadoManual, VistaError> {
    let punto = a.punto_montaje->0;
    let k = primero(d.particiones, con_ruta(a.particion));
    let e = d.particiones[k];
    let es_raiz = punto == "/"@;
    let es_arranque = punto == "/boot"@;
    let accion = if a.formatear {
        Accion::Formatear
    } else {
        Accion::Conservar
    };
    if !puntos_manuales().contains(punto) {
        Err(VistaError::PuntoDeMontajeDesconocido { punto })
    } else if est.puntos.contains(punto) {
        Err(VistaError::AsignacionRepetida { que: punto })
    } else if k < 0 {
        Err(VistaError::ParticionNoEsta { ruta: a.particion })
    } else if est.rutas.contains(e.ruta) {
        Err(VistaError::AsignacionRepetida { que: e.ruta })
    } else if !alineada(e) {
        Err(VistaError::ParticionDesalineada { ruta: e.ruta })
    } else if es_arranque && !es_esp(e) {
        Err(VistaError::ArranqueNoEsEsp { ruta: e.ruta })
    } else if es_arranque && e.tamano_bytes / MIB < MINIMO_ESP_REUSABLE_MIB {
        Err(
            VistaError::EspChico {
                tiene_mib: (e.tamano_bytes / MIB) as u64,
                minimo_mib: MINIMO_ESP_REUSABLE_MIB,
            },
        )
    } else if !a.formatear && e.sistema_archivos == Some("crypto_LUKS"@) {
        Err(VistaError::ParticionCifrada { ruta: e.ruta })
    } else if es_raiz && !a.formatear {
        Err(VistaError::LaRaizSeFormatea)
    } else if es_raiz && e.tamano_bytes / GIB < MINIMO_GIB {
        Err(VistaError::Chico { tiene_gib: (e.tamano_bytes / GIB) as u64, minimo_gib: MINIMO_GIB })
    } else {
        let p = if es_raiz {
            raiz_spec(
                d.nvme,
                fs,
                cifrar,
                (e.inicio_bytes / MIB) as u64,
                (e.tamano_bytes / MIB) as u64,
                accion,
                Some(e.ruta),
            )
        } else {
            otra_manual(e, punto, a.formatear, fs)
        };
        Ok(
            EstadoManual {
                puntos: est.puntos.push(punto),
                rutas: est.rutas.push(e.ruta),
                plan: est.plan.push(p),
                hay_raiz: est.hay_raiz || es_raiz,
            },
        )
    }
}

/// Las asignaciones de principio a fin. Las que no tienen punto de montaje son
/// «dejala como está», lo mismo que no nombrarlas.
pub open spec fn manual_desde(
    d: VistaDisco,
    s: Seq<VistaAsignacion>,
    est: EstadoManual,
    fs: SistemaArchivos,
    cifrar: bool,
) -> Result<EstadoManual, VistaError>
    decreases s.len(),
{
    if s.len() == 0 {
        Ok(est)
    } else if s[0].punto_montaje is None {
        manual_desde(d, s.drop_first(), est, fs, cifrar)
    } else {
        match paso_manual(d, s[0], est, fs, cifrar) {
            Err(e) => Err(e),
            Ok(siguiente) => manual_desde(d, s.drop_first(), siguiente, fs, cifrar),
        }
    }
}

pub open spec fn vistas_asignaciones(s: Seq<AsignacionManual>) -> Seq<VistaAsignacion> {
    s.map_values(|a: AsignacionManual| a@)
}

pub open spec fn plan_manual(
    d: VistaDisco,
    asignaciones: Seq<VistaAsignacion>,
    firmware: Firmware,
    fs: SistemaArchivos,
    cifrar: bool,
) -> Result<VistaPlan, VistaError> {
    match problema_del_disco(d) {
        Some(e) => Err(e),
        None => if firmware != Firmware::Uefi {
            Err(VistaError::SoloUefi)
        } else {
            match manual_desde(d, asignaciones, estado_inicial(), fs, cifrar) {
                Err(e) => Err(e),
                Ok(f) => if !f.hay_raiz {
                    Err(VistaError::SinRaiz)
                } else if !f.puntos.contains("/boot"@) {
                    Err(VistaError::SinArranque)
                } else {
                    Ok(VistaPlan { borrar_disco: false, particiones: ordenar(f.plan, por_inicio()) })
                },
            }
        },
    }
}

fn contiene_fijo(v: &Vec<&'static str>, s: &str) -> (r: bool)
    ensures
        r == v@.map_values(|x: &'static str| x@).contains(s@),
{
    let ghost w = v@.map_values(|x: &'static str| x@);
    let mut i: usize = 0;
    while i < v.len()
        invariant
            i <= v.len(),
            w == v@.map_values(|x: &'static str| x@),
            forall|j: int| 0 <= j < i ==> w[j] != s@,
        decreases v.len() - i,
    {
        if iguales(v[i], s) {
            assert(w[i as int] == s@);
            return true;
        }
        i = i + 1;
    }
    false
}

fn contiene_cadena(v: &Vec<String>, s: &str) -> (r: bool)
    ensures
        r == v@.map_values(|x: String| x@).contains(s@),
{
    let ghost w = v@.map_values(|x: String| x@);
    let mut i: usize = 0;
    while i < v.len()
        invariant
            i <= v.len(),
            w == v@.map_values(|x: String| x@),
            forall|j: int| 0 <= j < i ==> w[j] != s@,
        decreases v.len() - i,
    {
        if iguales(v[i].as_str(), s) {
            assert(w[i as int] == s@);
            return true;
        }
        i = i + 1;
    }
    false
}

/// El punto de montaje de la lista, si está.
fn punto_conocido(pedido: &str) -> (r: Option<&'static str>)
    ensures
        match r {
            Some(p) => p@ == pedido@ && puntos_manuales().contains(pedido@),
            None => !puntos_manuales().contains(pedido@),
        },
{
    let mut i: usize = 0;
    while i < 6
        invariant
            i <= 6,
            forall|j: int| 0 <= j < i ==> puntos_manuales()[j] != pedido@,
        decreases 6 - i,
    {
        let p: &'static str = match i {
            0 => "/",
            1 => "/boot",
            2 => "/home",
            3 => "/opt",
            4 => "/srv",
            _ => "/var",
        };
        assert(p@ == puntos_manuales()[i as int]);
        if iguales(p, pedido) {
            return Some(p);
        }
        i = i + 1;
    }
    None
}

/// Una partición de arranque o de datos del modo manual.
fn nueva_otra_manual(
    e: &ParticionExistente,
    punto: &'static str,
    formatear: bool,
    fs: SistemaArchivos,
) -> (p: ParticionPlaneada)
    ensures
        p@ == otra_manual(e@, punto@, formatear, fs),
{
    let es_arranque = iguales(punto, "/boot");
    let sistema_archivos = if formatear {
        Some(
            if es_arranque {
                "fat32"
            } else {
                fs.como_archinstall()
            },
        )
    } else {
        match &e.sistema_archivos {
            Some(f) => fs_para_archinstall(f.as_str()),
            None => None,
        }
    };
    let mut opciones: Vec<String> = Vec::new();
    let mut banderas: Vec<&'static str> = Vec::new();
    if es_arranque {
        opciones.push(cadena("umask=0077"));
        banderas.push("boot");
        banderas.push("esp");
    }
    let p = ParticionPlaneada {
        inicio_mib: e.inicio_bytes / MIB,
        tamano_mib: e.tamano_bytes / MIB,
        sistema_archivos,
        punto_montaje: Some(punto),
        opciones_montaje: opciones,
        banderas,
        subvolumenes: Vec::new(),
        cifrada: false,
        rol: if es_arranque {
            Rol::Esp
        } else {
            Rol::Datos
        },
        accion: if formatear {
            Accion::Formatear
        } else {
            Accion::Conservar
        },
        ruta: Some(e.ruta.clone()),
    };
    proof {
        let q = otra_manual(e@, punto@, formatear, fs);
        assert(p@.opciones_montaje =~= q.opciones_montaje);
        assert(p@.banderas =~= q.banderas);
        assert(p@.subvolumenes =~= q.subvolumenes);
    }
    p
}

fn insertar_planeada(v: &mut Vec<ParticionPlaneada>, x: ParticionPlaneada)
    ensures
        vistas_planeadas(final(v)@) == insertar_antes(x@, vistas_planeadas(old(v)@), por_inicio()),
{
    let ghost w = vistas_planeadas(v@);
    let mut j: usize = 0;
    let mut hallado = false;
    while j < v.len() && !hallado
        invariant
            j <= v.len(),
            w == vistas_planeadas(v@),
            hallado ==> j < v.len() && por_inicio()(x@, w[j as int]),
            forall|i: int| 0 <= i < j ==> !por_inicio()(x@, #[trigger] w[i]),
        decreases (v.len() - j) as int + (if hallado { 0int } else { 1int }),
    {
        if x.inicio_mib < v[j].inicio_mib {
            hallado = true;
        } else {
            j = j + 1;
        }
    }
    proof {
        lemma_insertar_en(x@, w, por_inicio(), j as int);
        lemma_insertar_vista(v@, j as int, x, |p: ParticionPlaneada| p@);
    }
    v.insert(j, x);
}

/// Las particiones del plan en orden de posición.
fn ordenar_plan(plan: Vec<ParticionPlaneada>) -> (r: Vec<ParticionPlaneada>)
    ensures
        vistas_planeadas(r@) == ordenar(vistas_planeadas(plan@), por_inicio()),
{
    let ghost s = vistas_planeadas(plan@);
    let mut resto = plan;
    let mut r: Vec<ParticionPlaneada> = Vec::new();
    let mut i: usize = 0;
    let n = resto.len();
    while resto.len() > 0
        invariant
            i + resto.len() == n,
            n == s.len(),
            vistas_planeadas(resto@) == s.skip(i as int),
            vistas_planeadas(r@) == ordenar(s.take(i as int), por_inicio()),
        decreases resto.len(),
    {
        let ghost antes = resto@;
        let x = resto.remove(0);
        proof {
            assert(vistas_planeadas(antes)[0] == x@);
            assert(vistas_planeadas(resto@) =~= vistas_planeadas(antes).drop_first());
            assert(s.skip(i as int).drop_first() =~= s.skip(i as int + 1));
            assert(x@ == s[i as int]);
            assert(vistas_planeadas(resto@) =~= s.skip(i as int + 1));
            lemma_ordenar_paso(s, i as int, por_inicio());
        }
        insertar_planeada(&mut r, x);
        i = i + 1;
    }
    assert(s.take(i as int) =~= s);
    r
}

pub open spec fn vista_estado(
    puntos: Seq<&'static str>,
    rutas: Seq<String>,
    plan: Seq<ParticionPlaneada>,
    hay_raiz: bool,
) -> EstadoManual {
    EstadoManual {
        puntos: puntos.map_values(|x: &'static str| x@),
        rutas: rutas.map_values(|x: String| x@),
        plan: vistas_planeadas(plan),
        hay_raiz,
    }
}

/// Arma el plan a partir de lo que se eligió partición por partición.
///
/// Todo lo que no esté asignado no se toca. Se exige una raíz que se formatee
/// y llegue al mínimo, un `/boot` que sea el ESP y mida lo que hace falta,
/// particiones alineadas, y nada repetido: ni dos puntos de montaje iguales
/// ni dos veces la misma partición.
pub fn planificar_manual(
    disco: &Disco,
    asignaciones: &[AsignacionManual],
    firmware: Firmware,
    fs: SistemaArchivos,
    cifrar: bool,
) -> (r: Result<Plan, ErrorPlan>)
    ensures
        vista_resultado(r) == plan_manual(
            disco@,
            vistas_asignaciones(asignaciones@),
            firmware,
            fs,
            cifrar,
        ),
{
    match comprobar_disco(disco) {
        Err(e) => {
            return Err(e);
        },
        Ok(()) => {},
    }
    if firmware != Firmware::Uefi {
        return Err(ErrorPlan::SoloUefi);
    }
    let ghost d = disco@;
    let ghost s = vistas_asignaciones(asignaciones@);
    let mut puntos: Vec<&'static str> = Vec::new();
    let mut rutas: Vec<String> = Vec::new();
    let mut plan: Vec<ParticionPlaneada> = Vec::new();
    let mut hay_raiz = false;
    let mut i: usize = 0;
    proof {
        assert(s.skip(0) =~= s);
        assert(vista_estado(puntos@, rutas@, plan@, hay_raiz) == estado_inicial()) by {
            assert(vista_estado(puntos@, rutas@, plan@, hay_raiz).puntos =~= seq![]);
            assert(vista_estado(puntos@, rutas@, plan@, hay_raiz).rutas =~= seq![]);
            assert(vista_estado(puntos@, rutas@, plan@, hay_raiz).plan =~= seq![]);
        }
    }
    while i < asignaciones.len()
        invariant
            i <= asignaciones.len(),
            d == disco@,
            s == vistas_asignaciones(asignaciones@),
            problema_del_disco(d) is None,
            firmware == Firmware::Uefi,
            manual_desde(d, s, estado_inicial(), fs, cifrar) == manual_desde(
                d,
                s.skip(i as int),
                vista_estado(puntos@, rutas@, plan@, hay_raiz),
                fs,
                cifrar,
            ),
        decreases asignaciones.len() - i,
    {
        let a = &asignaciones[i];
        let ghost est = vista_estado(puntos@, rutas@, plan@, hay_raiz);
        proof {
            assert(s.skip(i as int)[0] == a@);
            assert(s.skip(i as int).drop_first() =~= s.skip(i as int + 1));
        }
        let pedido = match &a.punto_montaje {
            None => {
                i = i + 1;
                continue;
            },
            Some(p) => p.as_str(),
        };
        let ghost paso = paso_manual(d, a@, est, fs, cifrar);
        proof {
            assert(a@.punto_montaje == Some(pedido@));
            assert(manual_desde(d, s.skip(i as int), est, fs, cifrar) == match paso {
                Err(e) => Err(e),
                Ok(sig) => manual_desde(d, s.skip(i as int + 1), sig, fs, cifrar),
            });
        }
        let punto = match punto_conocido(pedido) {
            Some(p) => p,
            None => {
                assert(paso == Err::<EstadoManual, VistaError>(
                    VistaError::PuntoDeMontajeDesconocido { punto: pedido@ },
                ));
                return Err(ErrorPlan::PuntoDeMontajeDesconocido { punto: cadena(pedido) });
            },
        };
        if contiene_fijo(&puntos, punto) {
            return Err(ErrorPlan::AsignacionRepetida { que: cadena(punto) });
        }
        puntos.push(punto);
        let k = match buscar_ruta(disco, a.particion.as_str()) {
            Some(k) => k,
            None => {
                assert(paso == Err::<EstadoManual, VistaError>(
                    VistaError::ParticionNoEsta { ruta: a@.particion },
                ));
                return Err(ErrorPlan::ParticionNoEsta { ruta: a.particion.clone() });
            },
        };
        let existente = &disco.particiones[k];
        assert(d.particiones[k as int] == existente@);
        if contiene_cadena(&rutas, existente.ruta.as_str()) {
            return Err(ErrorPlan::AsignacionRepetida { que: existente.ruta.clone() });
        }
        rutas.push(existente.ruta.clone());
        if existente.inicio_bytes % MIB != 0 || existente.tamano_bytes % MIB != 0 {
            return Err(ErrorPlan::ParticionDesalineada { ruta: existente.ruta.clone() });
        }
        let es_raiz = iguales(punto, "/");
        let es_arranque = iguales(punto, "/boot");
        if es_arranque {
            if !existente.es_esp() {
                return Err(ErrorPlan::ArranqueNoEsEsp { ruta: existente.ruta.clone() });
            }
            let mib = existente.tamano_bytes / MIB;
            if mib < MINIMO_ESP_REUSABLE_MIB {
                return Err(
                    ErrorPlan::EspChico { tiene_mib: mib, minimo_mib: MINIMO_ESP_REUSABLE_MIB },
                );
            }
        }
        let cifrada_ajena = match &existente.sistema_archivos {
            Some(f) => iguales(f.as_str(), "crypto_LUKS"),
            None => false,
        };
        if !a.formatear && cifrada_ajena {
            return Err(ErrorPlan::ParticionCifrada { ruta: existente.ruta.clone() });
        }
        if es_raiz {
            hay_raiz = true;
            if !a.formatear {
                return Err(ErrorPlan::LaRaizSeFormatea);
            }
            let tiene_gib = existente.tamano_bytes / (1024 * MIB);
            if tiene_gib < MINIMO_GIB {
                return Err(ErrorPlan::Chico { tiene_gib, minimo_gib: MINIMO_GIB });
            }
        }
        let accion = if a.formatear {
            Accion::Formatear
        } else {
            Accion::Conservar
        };
        if es_raiz {
            plan.push(
                raiz_del_plan(
                    disco,
                    fs,
                    cifrar,
                    existente.inicio_bytes / MIB,
                    existente.tamano_bytes / MIB,
                    accion,
                    Some(existente.ruta.clone()),
                ),
            );
        } else {
            plan.push(nueva_otra_manual(existente, punto, a.formatear, fs));
        }
        proof {
            let nuevo = vista_estado(puntos@, rutas@, plan@, hay_raiz);
            let paso = paso_manual(d, a@, est, fs, cifrar);
            assert(nuevo.puntos =~= est.puntos.push(punto@));
            assert(nuevo.rutas =~= est.rutas.push(existente.ruta@));
            assert(nuevo.plan =~= est.plan.push(nuevo.plan.last()));
            assert(paso is Ok);
            assert(paso->Ok_0 == nuevo);
        }
        i = i + 1;
    }
    proof {
        assert(s.skip(i as int) =~= seq![]);
    }
    if !hay_raiz {
        return Err(ErrorPlan::SinRaiz);
    }
    if !contiene_fijo(&puntos, "/boot") {
        return Err(ErrorPlan::SinArranque);
    }
    let particiones = ordenar_plan(plan);
    Ok(Plan { borrar_disco: false, particiones })
}

pub open spec fn plan_con(
    d: VistaDisco,
    esquema: EsquemaDisco,
    particion: Option<Seq<char>>,
    asignaciones: Seq<VistaAsignacion>,
    firmware: Firmware,
    fs: SistemaArchivos,
    cifrar: bool,
) -> Result<VistaPlan, VistaError> {
    match esquema {
        EsquemaDisco::BorrarTodo => plan_borrando(d, firmware, fs, cifrar),
        EsquemaDisco::JuntoAOtroSistema => plan_junto_a(d, firmware, fs, cifrar),
        EsquemaDisco::Manual => plan_manual(d, asignaciones, firmware, fs, cifrar),
        EsquemaDisco::SobreUnaParticion => match particion {
            None => Err(VistaError::ParticionNoEsta { ruta: seq![] }),
            Some(r) => plan_sobre(d, r, firmware, fs, cifrar),
        },
    }
}

/// El plan que corresponde al esquema elegido.
///
/// El único despacho: la vista previa y la instalación pasan por acá, así que
/// la pantalla no puede mostrar un plan y ejecutarse otro. `particion` sólo se
/// mira con `SobreUnaParticion`, y ahí es obligatoria.
pub fn planificar_con(
    disco: &Disco,
    esquema: EsquemaDisco,
    particion: Option<&str>,
    asignaciones: &[AsignacionManual],
    firmware: Firmware,
    fs: SistemaArchivos,
    cifrar: bool,
) -> (r: Result<Plan, ErrorPlan>)
    ensures
        vista_resultado(r) == plan_con(
            disco@,
            esquema,
            match particion {
                Some(p) => Some(p@),
                None => None,
            },
            vistas_asignaciones(asignaciones@),
            firmware,
            fs,
            cifrar,
        ),
{
    match esquema {
        EsquemaDisco::BorrarTodo => planificar_borrando(disco, firmware, fs, cifrar),
        EsquemaDisco::JuntoAOtroSistema => planificar_junto_a(disco, firmware, fs, cifrar),
        EsquemaDisco::Manual => planificar_manual(disco, asignaciones, firmware, fs, cifrar),
        EsquemaDisco::SobreUnaParticion => match particion {
            None => {
                let r = Err(ErrorPlan::ParticionNoEsta { ruta: String::new() });
                assert(vista_resultado(r) == Err::<VistaPlan, VistaError>(
                    VistaError::ParticionNoEsta { ruta: seq![] },
                )) by {
                    assert(r->Err_0@ == VistaError::ParticionNoEsta { ruta: seq![] });
                }
                r
            },
            Some(ruta) => planificar_sobre(disco, ruta, firmware, fs, cifrar),
        },
    }
}


// ── Lo que se pierde ────────────────────────────────────────────────────────

/// Si una partición del plan destruye a una que existe: conservar es no
/// destruir; formatear destruye la que nombra por la ruta; y cualquiera que
/// no se conserve destruye lo que se solape con su geometría.
pub open spec fn pisa(p: VistaPlaneada, e: VistaParticion) -> bool {
    let inicio = producto_saturado(p.inicio_mib, MIB);
    let fin = suma_saturada(inicio, producto_saturado(p.tamano_mib, MIB));
    p.accion != Accion::Conservar && (p.ruta == Some(e.ruta) || (inicio < fin_de(e)
        && e.inicio_bytes < fin))
}

/// Si el plan destruye esa partición: todas, si borra el disco.
pub open spec fn destruida(plan: VistaPlan, e: VistaParticion) -> bool {
    plan.borrar_disco || exists|i: int|
        0 <= i < plan.particiones.len() && #[trigger] pisa(plan.particiones[i], e)
}

pub open spec fn destruye(plan: VistaPlan) -> spec_fn(VistaParticion) -> bool {
    |e: VistaParticion| destruida(plan, e)
}

/// Lo que se pierde, en el orden del disco.
pub open spec fn a_destruir_spec(plan: VistaPlan, d: VistaDisco) -> Seq<VistaParticion> {
    d.particiones.filter(destruye(plan))
}

fn por_mib(x: u64) -> (r: u64)
    ensures
        r == producto_saturado(x, MIB),
{
    match x.checked_mul(MIB) {
        Some(v) => v,
        None => u64::MAX,
    }
}

fn pisa_exec(p: &ParticionPlaneada, e: &ParticionExistente) -> (r: bool)
    ensures
        r == pisa(p@, e@),
{
    if p.accion == Accion::Conservar {
        return false;
    }
    let misma_ruta = match &p.ruta {
        Some(r) => iguales(r.as_str(), e.ruta.as_str()),
        None => false,
    };
    if misma_ruta {
        return true;
    }
    let inicio = por_mib(p.inicio_mib);
    let fin = inicio.saturating_add(por_mib(p.tamano_mib));
    inicio < e.fin_bytes() && e.inicio_bytes < fin
}

impl Plan {
    /// Qué particiones que hoy existen van a dejar de existir.
    ///
    /// Es la lista que se le muestra a la persona para confirmar, y nada fuera
    /// de ella se puede tocar. Se calcula desde el plan y no se va anotando
    /// mientras se arma: así un modo nuevo no puede olvidarse de declarar lo
    /// que destruye.
    pub fn a_destruir<'a>(&self, disco: &'a Disco) -> (r: Vec<&'a ParticionExistente>)
        ensures
            r@.map_values(|p: &ParticionExistente| p@) == a_destruir_spec(self@, disco@),
    {
        let ghost plan = self@;
        let ghost s = disco@.particiones;
        let mut r: Vec<&'a ParticionExistente> = Vec::new();
        let mut i: usize = 0;
        while i < disco.particiones.len()
            invariant
                i <= disco.particiones.len(),
                plan == self@,
                s == disco@.particiones,
                r@.map_values(|p: &ParticionExistente| p@) == s.take(i as int).filter(
                    destruye(plan),
                ),
            decreases disco.particiones.len() - i,
        {
            let e = &disco.particiones[i];
            assert(s[i as int] == e@);
            let mut cae = self.borrar_disco;
            let mut j: usize = 0;
            while j < self.particiones.len() && !cae
                invariant
                    j <= self.particiones.len(),
                    plan == self@,
                    cae == (plan.borrar_disco || exists|k: int|
                        0 <= k < j && #[trigger] pisa(plan.particiones[k], e@)),
                decreases (self.particiones.len() - j) as int + (if cae { 0int } else { 1int }),
            {
                assert(plan.particiones[j as int] == self.particiones[j as int]@);
                if pisa_exec(&self.particiones[j], e) {
                    cae = true;
                }
                j = j + 1;
            }
            assert(cae == destruida(plan, e@)) by {
                if !cae {
                    assert(j == self.particiones.len());
                }
            }
            proof {
                reveal(Seq::filter);
                assert(s.take(i as int + 1).drop_last() =~= s.take(i as int));
                assert(s.take(i as int + 1).last() == e@);
            }
            if cae {
                let ghost antes = r@;
                r.push(e);
                assert(r@.map_values(|p: &ParticionExistente| p@) =~= antes.map_values(
                    |p: &ParticionExistente| p@,
                ).push(e@));
            }
            i = i + 1;
        }
        assert(s.take(i as int) =~= s);
        r
    }
}


// ── Lo que vale de todo plan ────────────────────────────────────────────────
//
// Las leyes de acá hablan de discos como los deja un particionador: cada
// partición adentro del disco, sin pisar la cabecera ni la copia de la tabla
// GPT, ninguna encima de otra y cada una con su ruta.

/// Un disco como lo deja un particionador.
pub open spec fn disco_bien_formado(d: VistaDisco) -> bool {
    &&& particiones_acotadas(d)
    &&& forall|i: int|
        0 <= i < d.particiones.len() ==> {
            let e = #[trigger] d.particiones[i];
            &&& MIB <= e.inicio_bytes
            &&& 0 < e.tamano_bytes
        }
    &&& forall|i: int, j: int|
        0 <= i < j < d.particiones.len() ==> {
            let a = #[trigger] d.particiones[i];
            let b = #[trigger] d.particiones[j];
            &&& a.ruta != b.ruta
            &&& (a.inicio_bytes + a.tamano_bytes <= b.inicio_bytes || b.inicio_bytes
                + b.tamano_bytes <= a.inicio_bytes)
        }
}

/// Cada partición del disco termina antes del MiB que guarda la copia de la
/// tabla.
pub open spec fn particiones_acotadas(d: VistaDisco) -> bool {
    forall|i: int|
        0 <= i < d.particiones.len() ==> (#[trigger] d.particiones[i]).inicio_bytes
            + d.particiones[i].tamano_bytes <= d.tamano_bytes - MIB
}

/// Un hueco no se mete en un tramo ocupado.
pub open spec fn libre_de(h: Hueco, t: (u64, u64)) -> bool {
    (h.inicio_mib + h.tamano_mib) * MIB <= t.0 || t.1 <= h.inicio_mib * MIB
}

/// Un hueco donde se puede crear: alineado por construcción, no vacío,
/// después de la tabla, antes de su copia, y sin tocar ninguna partición.
pub open spec fn hueco_valido(d: VistaDisco, h: Hueco) -> bool {
    &&& INICIO_MIB <= h.inicio_mib
    &&& 0 < h.tamano_mib
    &&& (h.inicio_mib + h.tamano_mib) * MIB <= d.tamano_bytes - MIB
    &&& forall|k: int|
        0 <= k < d.particiones.len() ==> libre_de(
            h,
            (#[trigger] d.particiones[k].inicio_bytes, fin_de(d.particiones[k])),
        )
}

pub open spec fn tramos_por_inicio(s: Seq<(u64, u64)>) -> bool {
    forall|i: int, j: int| 0 <= i <= j < s.len() ==> #[trigger] s[i].0 <= #[trigger] s[j].0
}

proof fn lemma_techo(b: u64)
    ensures
        b <= techo_mib(b) * MIB,
        techo_mib(b) * MIB < b + MIB,
{
    assert(b == (b / MIB) * MIB + b % MIB);
}

proof fn lemma_huecos_desde_libres(s: Seq<(u64, u64)>, c: u64, cota: int)
    requires
        tramos_por_inicio(s),
        forall|k: int| 0 <= k < s.len() ==> #[trigger] s[k].0 <= cota,
    ensures
        forall|i: int|
            0 <= i < huecos_desde(s, c).len() ==> {
                let h = #[trigger] huecos_desde(s, c)[i];
                &&& c <= h.inicio_mib
                &&& 0 < h.tamano_mib
                &&& (h.inicio_mib + h.tamano_mib) * MIB <= cota
                &&& forall|k: int| 0 <= k < s.len() ==> libre_de(h, #[trigger] s[k])
            },
        c <= cursor_tras(s, c),
        forall|k: int| 0 <= k < s.len() ==> (#[trigger] s[k]).1 <= cursor_tras(s, c) * MIB,
    decreases s.len(),
{
    if s.len() > 0 {
        let t = s.drop_first();
        lemma_techo(s[0].1);
        let sig = mayor(c, techo_mib(s[0].1));
        assert(tramos_por_inicio(t)) by {
            assert forall|i: int, j: int| 0 <= i <= j < t.len() implies #[trigger] t[i].0
                <= #[trigger] t[j].0 by {
                assert(t[i] == s[i + 1]);
                assert(t[j] == s[j + 1]);
            }
        }
        assert forall|k: int| 0 <= k < t.len() implies #[trigger] t[k].0 <= cota by {
            assert(t[k] == s[k + 1]);
        }
        lemma_huecos_desde_libres(t, sig, cota);
        let im = (s[0].0 / MIB) as u64;
        assert(im * MIB <= s[0].0);
        let resto = huecos_desde(t, sig);
        let hs = huecos_desde(s, c);
        assert forall|i: int| 0 <= i < hs.len() implies {
            let h = #[trigger] hs[i];
            &&& c <= h.inicio_mib
            &&& 0 < h.tamano_mib
            &&& (h.inicio_mib + h.tamano_mib) * MIB <= cota
            &&& forall|k: int| 0 <= k < s.len() ==> libre_de(h, #[trigger] s[k])
        } by {
            let h = hs[i];
            if im > c && i == 0 {
                assert(h == Hueco { inicio_mib: c, tamano_mib: (im - c) as u64 });
                assert forall|k: int| 0 <= k < s.len() implies libre_de(h, #[trigger] s[k]) by {
                    assert(s[0].0 <= s[k].0);
                }
            } else {
                let j = if im > c {
                    i - 1
                } else {
                    i
                };
                assert(h == resto[j]);
                assert forall|k: int| 0 <= k < s.len() implies libre_de(h, #[trigger] s[k]) by {
                    if k > 0 {
                        assert(s[k] == t[k - 1]);
                    }
                }
            }
        }
        assert forall|k: int| 0 <= k < s.len() implies (#[trigger] s[k]).1 <= cursor_tras(s, c)
            * MIB by {
            if k > 0 {
                assert(s[k] == t[k - 1]);
            }
        }
    }
}

/// Los tramos ocupados quedan ordenados por inicio y son los de las
/// particiones.
proof fn lemma_ocupados(d: VistaDisco)
    ensures
        tramos_por_inicio(ocupados_de(d)),
        forall|k: int|
            0 <= k < d.particiones.len() ==> ocupados_de(d).contains(
                (#[trigger] d.particiones[k].inicio_bytes, fin_de(d.particiones[k])),
            ),
        forall|t: (u64, u64)| #[trigger]
            ocupados_de(d).contains(t) ==> exists|k: int|
                0 <= k < d.particiones.len() && t == (
                    #[trigger] d.particiones[k].inicio_bytes,
                    fin_de(d.particiones[k]),
                ),
{
    let crudos = d.particiones.map_values(|p: VistaParticion| (p.inicio_bytes, fin_de(p)));
    let menor_o_igual = |x: (u64, u64), y: (u64, u64)| x.0 < y.0 || (x.0 == y.0 && x.1 <= y.1);
    lemma_ordenar_ordenada(crudos, por_posicion(), menor_o_igual);
    lemma_ordenar_contiene(crudos, por_posicion());
    let s = ocupados_de(d);
    assert forall|i: int, j: int| 0 <= i <= j < s.len() implies #[trigger] s[i].0
        <= #[trigger] s[j].0 by {
        if i < j {
            assert(menor_o_igual(s[i], s[j]));
        }
    }
    assert forall|k: int| 0 <= k < d.particiones.len() implies s.contains(
        (#[trigger] d.particiones[k].inicio_bytes, fin_de(d.particiones[k])),
    ) by {
        assert(crudos[k] == (d.particiones[k].inicio_bytes, fin_de(d.particiones[k])));
    }
    assert forall|t: (u64, u64)| #[trigger] s.contains(t) implies exists|k: int|
        0 <= k < d.particiones.len() && t == (
            #[trigger] d.particiones[k].inicio_bytes,
            fin_de(d.particiones[k]),
        ) by {
        assert(crudos.contains(t));
        let k = choose|k: int| 0 <= k < crudos.len() && crudos[k] == t;
        assert(t == (d.particiones[k].inicio_bytes, fin_de(d.particiones[k])));
    }
}

/// **Los huecos no muerden a los vecinos**: cada hueco libre está alineado,
/// no está vacío, empieza después de la tabla, termina antes de su copia y no
/// se mete en ninguna partición, ni siquiera en una que empiece o termine a
/// mitad de un MiB.
pub proof fn los_huecos_no_muerden_a_los_vecinos(d: VistaDisco)
    requires
        particiones_acotadas(d),
    ensures
        forall|i: int| 0 <= i < huecos_spec(d).len() ==> hueco_valido(d, #[trigger] huecos_spec(d)[i]),
{
    let s = ocupados_de(d);
    lemma_ocupados(d);
    let cota = d.tamano_bytes - MIB;
    assert forall|k: int| 0 <= k < s.len() implies #[trigger] s[k].0 <= cota by {
        assert(s.contains(s[k]));
        let j = choose|j: int|
            0 <= j < d.particiones.len() && s[k] == (
                #[trigger] d.particiones[j].inicio_bytes,
                fin_de(d.particiones[j]),
            );
        let e = d.particiones[j];
    }
    lemma_huecos_desde_libres(s, INICIO_MIB, cota);
    let c = cursor_tras(s, INICIO_MIB);
    let a = huecos_desde(s, INICIO_MIB);
    let en = huecos_en_orden(d);
    assert forall|i: int| 0 <= i < en.len() implies hueco_valido(d, #[trigger] en[i]) by {
        let h = en[i];
        assert forall|k: int| 0 <= k < d.particiones.len() implies libre_de(
            h,
            (#[trigger] d.particiones[k].inicio_bytes, fin_de(d.particiones[k])),
        ) by {
            let t = (d.particiones[k].inicio_bytes, fin_de(d.particiones[k]));
            assert(s.contains(t));
            let j = choose|j: int| 0 <= j < s.len() && s[j] == t;
            if i < a.len() {
                assert(h == a[i]);
                assert(libre_de(h, s[j]));
            } else {
                assert(s[j].1 <= c * MIB);
            }
        }
        if i < a.len() {
            assert(h == a[i]);
        } else {
            let total = (d.tamano_bytes / MIB) as u64;
            assert(total * MIB <= d.tamano_bytes);
        }
    }
    lemma_ordenar_contiene(en, por_tamano());
    assert forall|i: int| 0 <= i < huecos_spec(d).len() implies hueco_valido(
        d,
        #[trigger] huecos_spec(d)[i],
    ) by {
        let h = huecos_spec(d)[i];
        assert(huecos_spec(d).contains(h));
        assert(en.contains(h));
    }
}

/// **De varios huecos libres se usa el más grande**: los huecos salen de
/// mayor a menor, y el que se usa es el primero.
pub proof fn se_usa_el_hueco_mas_grande(d: VistaDisco)
    ensures
        forall|i: int|
            0 <= i < huecos_spec(d).len() ==> (#[trigger] huecos_spec(d)[i]).tamano_mib
                <= mayor_hueco(d).tamano_mib,
        huecos_spec(d).len() > 0 ==> huecos_spec(d).contains(mayor_hueco(d)),
{
    let menor_o_igual = |x: Hueco, y: Hueco| x.tamano_mib >= y.tamano_mib;
    lemma_ordenar_ordenada(huecos_en_orden(d), por_tamano(), menor_o_igual);
    let h = huecos_spec(d);
    assert forall|i: int| 0 <= i < h.len() implies (#[trigger] h[i]).tamano_mib
        <= mayor_hueco(d).tamano_mib by {
        if i > 0 {
            assert(menor_o_igual(h[0], h[i]));
        }
    }
    if h.len() > 0 {
        assert(h[0] == mayor_hueco(d));
    }
}


/// Una partición del plan que es exactamente una del disco: la nombra por su
/// ruta y tiene su misma geometría.
pub open spec fn geometria_de(p: VistaPlaneada, e: VistaParticion) -> bool {
    &&& p.ruta == Some(e.ruta)
    &&& p.inicio_mib * MIB == e.inicio_bytes
    &&& p.tamano_mib * MIB == e.tamano_bytes
}

/// Lo que una partición del plan le hace al disco está en regla: la que se
/// crea no tiene ruta y no se solapa con ninguna que exista; la que se
/// conserva o se formatea es una que existe, tal como está.
pub open spec fn respeta(p: VistaPlaneada, d: VistaDisco) -> bool {
    if p.accion == Accion::Crear {
        &&& p.ruta is None
        &&& forall|k: int|
            0 <= k < d.particiones.len() ==> !(p.inicio_mib * MIB < fin_de(
                #[trigger] d.particiones[k],
            ) && d.particiones[k].inicio_bytes < (p.inicio_mib + p.tamano_mib) * MIB)
    } else {
        exists|k: int| 0 <= k < d.particiones.len() && geometria_de(p, #[trigger] d.particiones[k])
    }
}

/// No está vacía, empieza después de la tabla y termina antes de su copia.
pub open spec fn en_el_disco(p: VistaPlaneada, d: VistaDisco) -> bool {
    &&& INICIO_MIB <= p.inicio_mib
    &&& 0 < p.tamano_mib
    &&& (p.inicio_mib + p.tamano_mib) * MIB <= d.tamano_bytes - MIB
}

pub open spec fn separadas(p: VistaPlaneada, q: VistaPlaneada) -> bool {
    p.inicio_mib + p.tamano_mib <= q.inicio_mib || q.inicio_mib + q.tamano_mib <= p.inicio_mib
}

/// Un plan que no le hace al disco nada que no diga.
pub open spec fn plan_respeta(ps: Seq<VistaPlaneada>, d: VistaDisco) -> bool {
    &&& forall|i: int| 0 <= i < ps.len() ==> respeta(#[trigger] ps[i], d) && en_el_disco(ps[i], d)
    &&& forall|i: int, j: int|
        0 <= i < ps.len() && 0 <= j < ps.len() && i != j ==> separadas(
            #[trigger] ps[i],
            #[trigger] ps[j],
        )
}

proof fn lemma_ordenar_dos(a: VistaPlaneada, b: VistaPlaneada)
    ensures
        ordenar(seq![a, b], por_inicio()) == seq![a, b] || ordenar(seq![a, b], por_inicio()) == seq![
            b,
            a,
        ],
{
    reveal_with_fuel(ordenar, 3);
    reveal_with_fuel(insertar_antes, 3);
    assert(seq![a, b].drop_last() =~= seq![a]);
    assert(seq![a].drop_last() =~= seq![]);
    assert(seq![a].drop_first() =~= seq![]);
    if por_inicio()(b, a) {
        assert(ordenar(seq![a, b], por_inicio()) =~= seq![b, a]);
    } else {
        assert(ordenar(seq![a, b], por_inicio()) =~= seq![a, b]);
    }
}

proof fn lemma_respeta_dos(a: VistaPlaneada, b: VistaPlaneada, d: VistaDisco)
    requires
        respeta(a, d),
        respeta(b, d),
        en_el_disco(a, d),
        en_el_disco(b, d),
        separadas(a, b),
    ensures
        plan_respeta(ordenar(seq![a, b], por_inicio()), d),
        ordenar(seq![a, b], por_inicio()).len() == 2,
        (ordenar(seq![a, b], por_inicio())[0] == a && ordenar(seq![a, b], por_inicio())[1] == b)
            || (ordenar(seq![a, b], por_inicio())[0] == b && ordenar(seq![a, b], por_inicio())[1]
            == a),
{
    lemma_ordenar_dos(a, b);
    let r = ordenar(seq![a, b], por_inicio());
    assert(r[0] == a || r[1] == a);
    assert(r[0] == b || r[1] == b);
}

/// Lo que se crea adentro de un hueco válido está en regla.
proof fn lemma_dentro_del_hueco(p: VistaPlaneada, h: Hueco, d: VistaDisco)
    requires
        particiones_acotadas(d),
        hueco_valido(d, h),
        h.inicio_mib <= p.inicio_mib,
        p.inicio_mib + p.tamano_mib <= h.inicio_mib + h.tamano_mib,
        0 < p.tamano_mib,
        p.accion == Accion::Crear,
        p.ruta is None,
    ensures
        respeta(p, d),
        en_el_disco(p, d),
{
    assert forall|k: int| 0 <= k < d.particiones.len() implies !(p.inicio_mib * MIB < fin_de(
        #[trigger] d.particiones[k],
    ) && d.particiones[k].inicio_bytes < (p.inicio_mib + p.tamano_mib) * MIB) by {
        assert(libre_de(h, (d.particiones[k].inicio_bytes, fin_de(d.particiones[k]))));
    }
}

/// Una partición del disco reusada tal como está queda en regla.
proof fn lemma_reusada(p: VistaPlaneada, d: VistaDisco, k: int)
    requires
        disco_bien_formado(d),
        0 <= k < d.particiones.len(),
        geometria_de(p, d.particiones[k]),
        p.accion != Accion::Crear,
    ensures
        respeta(p, d),
        en_el_disco(p, d),
{
    let e = d.particiones[k];
}

/// El mayor hueco es válido cuando no está vacío.
proof fn lemma_mayor_hueco_valido(d: VistaDisco)
    requires
        particiones_acotadas(d),
        mayor_hueco(d).tamano_mib > 0,
    ensures
        hueco_valido(d, mayor_hueco(d)),
{
    los_huecos_no_muerden_a_los_vecinos(d);
    if huecos_spec(d).len() > 0 {
        assert(mayor_hueco(d) == huecos_spec(d)[0]);
    }
}

/// El ESP que elige un modo no destructivo, cuando se puede: o una partición
/// del disco que es el ESP, reusada tal como está y sin formatear, o uno
/// nuevo al principio del hueco, que tiene que entrar entero.
proof fn lemma_esp_del_plan(d: VistaDisco, h: Hueco)
    requires
        disco_bien_formado(d),
        esp_del_plan_spec(d, h) is Ok,
    ensures
        ({
            let (esp, gastado) = esp_del_plan_spec(d, h)->Ok_0;
            &&& esp.rol == Rol::Esp
            &&& !esp.cifrada
            &&& esp.banderas == seq!["boot"@, "esp"@]
            &&& esp.punto_montaje == Some("/boot"@)
            &&& esp.sistema_archivos == Some("fat32"@)
            &&& en_el_disco(esp, d) || gastado == ARRANQUE_MIB
            &&& if gastado == 0 {
                let k = primero(d.particiones, es_esp_fn());
                &&& 0 <= k < d.particiones.len()
                &&& es_esp(d.particiones[k])
                &&& esp.accion == Accion::Conservar
                &&& geometria_de(esp, d.particiones[k])
                &&& respeta(esp, d)
                &&& en_el_disco(esp, d)
            } else {
                &&& gastado == ARRANQUE_MIB
                &&& esp.accion == Accion::Crear
                &&& esp.ruta is None
                &&& esp.inicio_mib == h.inicio_mib
                &&& esp.tamano_mib == ARRANQUE_MIB
                &&& ARRANQUE_MIB <= h.tamano_mib
            }
        }),
{
    let k = primero(d.particiones, es_esp_fn());
    lemma_primero_encontro(d.particiones, es_esp_fn());
    if k >= 0 {
        let e = d.particiones[k];
        if alineada(e) && e.tamano_bytes / MIB >= MINIMO_ESP_REUSABLE_MIB {
            let (esp, _) = esp_del_plan_spec(d, h)->Ok_0;
            assert(esp.inicio_mib * MIB == e.inicio_bytes);
            assert(esp.tamano_mib * MIB == e.tamano_bytes);
            lemma_reusada(esp, d, k);
        }
    }
}

/// **Instalar al lado sólo está resuelto en UEFI, y la raíz va en el hueco
/// más grande.** Con un disco que pasa la comprobación, en BIOS la respuesta
/// es siempre `SoloUefi`. Cuando hay plan, la raíz se crea adentro del mayor
/// hueco libre, con al menos el mínimo de espacio, y nada se formatea.
pub proof fn instalar_al_lado_es_solo_uefi_y_usa_el_mayor_hueco(
    d: VistaDisco,
    firmware: Firmware,
    fs: SistemaArchivos,
    cifrar: bool,
)
    ensures
        problema_del_disco(d) is None && firmware != Firmware::Uefi ==> plan_junto_a(d, firmware, fs, cifrar)
            == Err::<VistaPlan, VistaError>(VistaError::SoloUefi),
        plan_junto_a(d, firmware, fs, cifrar) is Ok ==> {
            let ps = plan_junto_a(d, firmware, fs, cifrar)->Ok_0.particiones;
            let h = mayor_hueco(d);
            &&& firmware == Firmware::Uefi
            &&& !plan_junto_a(d, firmware, fs, cifrar)->Ok_0.borrar_disco
            &&& forall|i: int| 0 <= i < ps.len() ==> (#[trigger] ps[i]).accion != Accion::Formatear
            &&& exists|i: int|
                0 <= i < ps.len() && (#[trigger] ps[i]).rol == Rol::Raiz && ps[i].accion == Accion::Crear
                    && h.inicio_mib <= ps[i].inicio_mib && ps[i].inicio_mib + ps[i].tamano_mib
                    <= h.inicio_mib + h.tamano_mib && ps[i].tamano_mib >= MINIMO_GIB * 1024
        },
{
    if plan_junto_a(d, firmware, fs, cifrar) is Ok {
        let ps = plan_junto_a(d, firmware, fs, cifrar)->Ok_0.particiones;
        let h = mayor_hueco(d);
        let (esp, gastado) = esp_del_plan_spec(d, h)->Ok_0;
        let para = resta_saturada(h.tamano_mib, gastado);
        let raiz = raiz_spec(d.nvme, fs, cifrar, (h.inicio_mib + gastado) as u64, para, Accion::Crear, None);
        lemma_mayor_hueco_acotado(d);
        assert(esp.accion != Accion::Formatear);
        assert(gastado <= h.tamano_mib);
        lemma_ordenar_dos(esp, raiz);
        assert(ps == ordenar(seq![esp, raiz], por_inicio()));
        let ir = if ps[0] == raiz { 0int } else { 1int };
        assert(ps[ir] == raiz);
    }
}

/// **Lo que se crea al lado cae adentro del hueco.** En cualquier disco cuyas
/// particiones terminen antes del último MiB, todo lo que el plan para
/// instalar al lado crea está adentro del disco, después de la tabla y antes
/// de su copia, y no se mete en ninguna partición que ya esté.
pub proof fn lo_que_se_crea_al_lado_no_pisa_nada(
    d: VistaDisco,
    firmware: Firmware,
    fs: SistemaArchivos,
    cifrar: bool,
)
    requires
        particiones_acotadas(d),
        plan_junto_a(d, firmware, fs, cifrar) is Ok,
    ensures
        forall|i: int|
            0 <= i < plan_junto_a(d, firmware, fs, cifrar)->Ok_0.particiones.len()
                && (#[trigger] plan_junto_a(d, firmware, fs, cifrar)->Ok_0.particiones[i]).accion
                == Accion::Crear ==> respeta(plan_junto_a(d, firmware, fs, cifrar)->Ok_0.particiones[i], d)
                && en_el_disco(plan_junto_a(d, firmware, fs, cifrar)->Ok_0.particiones[i], d),
{
    let ps = plan_junto_a(d, firmware, fs, cifrar)->Ok_0.particiones;
    let h = mayor_hueco(d);
    let (esp, gastado) = esp_del_plan_spec(d, h)->Ok_0;
    let para = resta_saturada(h.tamano_mib, gastado);
    let raiz = raiz_spec(d.nvme, fs, cifrar, (h.inicio_mib + gastado) as u64, para, Accion::Crear, None);
    lemma_mayor_hueco_acotado(d);
    lemma_mayor_hueco_valido(d);
    lemma_dentro_del_hueco(raiz, h, d);
    if esp.accion == Accion::Crear {
        assert(esp == esp_uefi(Accion::Crear, None, h.inicio_mib, ARRANQUE_MIB));
        lemma_dentro_del_hueco(esp, h, d);
    }
    lemma_ordenar_dos(esp, raiz);
    assert(ps == ordenar(seq![esp, raiz], por_inicio()));
}

/// **Instalar al lado no destruye nada.** En un disco bien formado, el plan
/// que se acomoda en el espacio libre no borra la tabla, no crea nada encima
/// de lo que ya está, reusa el ESP ajeno tal como está, no se sale del disco,
/// sus particiones no se pisan entre sí, y la lista de lo que se pierde está
/// vacía.
pub proof fn instalar_al_lado_no_destruye_nada(
    d: VistaDisco,
    firmware: Firmware,
    fs: SistemaArchivos,
    cifrar: bool,
)
    requires
        disco_bien_formado(d),
        plan_junto_a(d, firmware, fs, cifrar) is Ok,
    ensures
        !plan_junto_a(d, firmware, fs, cifrar)->Ok_0.borrar_disco,
        plan_respeta(plan_junto_a(d, firmware, fs, cifrar)->Ok_0.particiones, d),
        a_destruir_spec(plan_junto_a(d, firmware, fs, cifrar)->Ok_0, d) == Seq::<
            VistaParticion,
        >::empty(),
{
    let h = mayor_hueco(d);
    let plan = plan_junto_a(d, firmware, fs, cifrar)->Ok_0;
    let (esp, gastado) = esp_del_plan_spec(d, h)->Ok_0;
    let para = resta_saturada(h.tamano_mib, gastado);
    let raiz = raiz_spec(d.nvme, fs, cifrar, (h.inicio_mib + gastado) as u64, para, Accion::Crear, None);
    lemma_esp_del_plan(d, h);
    lemma_mayor_hueco_valido(d);
    lemma_mayor_hueco_acotado(d);
    lemma_dentro_del_hueco(raiz, h, d);
    if gastado != 0 {
        lemma_dentro_del_hueco(esp, h, d);
    } else {
        let k = primero(d.particiones, es_esp_fn());
        assert(libre_de(h, (d.particiones[k].inicio_bytes, fin_de(d.particiones[k]))));
    }
    lemma_respeta_dos(esp, raiz, d);
    lemma_nada_fuera_de_lo_formateado(plan, d);
    assert forall|i: int| 0 <= i < d.particiones.len() implies !destruye(plan)(
        #[trigger] d.particiones[i],
    ) by {
        if destruida(plan, d.particiones[i]) {
            let j = choose|j: int|
                0 <= j < plan.particiones.len() && plan.particiones[j].accion == Accion::Formatear
                    && plan.particiones[j].ruta == Some(d.particiones[i].ruta);
            assert(j == 0 || j == 1);
        }
    }
    lemma_filtrar_ninguno(d.particiones, destruye(plan));
}

/// Con un plan en regla, lo que se pierde es exactamente lo que se formatea.
proof fn lemma_nada_fuera_de_lo_formateado(plan: VistaPlan, d: VistaDisco)
    requires
        disco_bien_formado(d),
        !plan.borrar_disco,
        plan_respeta(plan.particiones, d),
    ensures
        forall|m: int|
            0 <= m < d.particiones.len() ==> (destruida(plan, #[trigger] d.particiones[m])
                <==> exists|i: int|
                0 <= i < plan.particiones.len() && plan.particiones[i].accion == Accion::Formatear
                    && plan.particiones[i].ruta == Some(d.particiones[m].ruta)),
{
    assert forall|m: int| 0 <= m < d.particiones.len() implies (destruida(
        plan,
        #[trigger] d.particiones[m],
    ) <==> exists|i: int|
        0 <= i < plan.particiones.len() && plan.particiones[i].accion == Accion::Formatear
            && plan.particiones[i].ruta == Some(d.particiones[m].ruta)) by {
        let e = d.particiones[m];
        assert forall|i: int| 0 <= i < plan.particiones.len() implies (pisa(
            #[trigger] plan.particiones[i],
            e,
        ) <==> (plan.particiones[i].accion == Accion::Formatear && plan.particiones[i].ruta
            == Some(e.ruta))) by {
            let p = plan.particiones[i];
            assert(respeta(p, d) && en_el_disco(p, d));
            assert(producto_saturado(p.inicio_mib, MIB) == p.inicio_mib * MIB);
            assert(producto_saturado(p.tamano_mib, MIB) == p.tamano_mib * MIB);
            if p.accion == Accion::Formatear && p.ruta != Some(e.ruta) {
                let k = choose|k: int|
                    0 <= k < d.particiones.len() && geometria_de(p, #[trigger] d.particiones[k]);
                let f = d.particiones[k];
                assert(k != m);
                if k < m {
                    assert(f.ruta != e.ruta);
                } else {
                    assert(f.ruta != e.ruta);
                }
            }
        }
        if destruida(plan, e) {
            let i = choose|i: int| 0 <= i < plan.particiones.len() && #[trigger] pisa(
                plan.particiones[i],
                e,
            );
            assert(pisa(plan.particiones[i], e));
        }
        if exists|i: int|
            0 <= i < plan.particiones.len() && plan.particiones[i].accion == Accion::Formatear
                && plan.particiones[i].ruta == Some(e.ruta) {
            let i = choose|i: int|
                0 <= i < plan.particiones.len() && plan.particiones[i].accion == Accion::Formatear
                    && plan.particiones[i].ruta == Some(e.ruta);
            assert(pisa(plan.particiones[i], e));
        }
    }
}


/// **Instalar sobre una partición formatea ésa y sólo ésa.** En un disco bien
/// formado, el plan no borra la tabla, está en regla, y lo que se pierde es
/// exactamente la partición elegida; ella, formateada con su misma
/// geometría, es la raíz.
pub proof fn sobre_una_particion_se_pierde_esa_y_nada_mas(
    d: VistaDisco,
    particion: Seq<char>,
    firmware: Firmware,
    fs: SistemaArchivos,
    cifrar: bool,
)
    requires
        disco_bien_formado(d),
        plan_sobre(d, particion, firmware, fs, cifrar) is Ok,
    ensures
        ({
            let plan = plan_sobre(d, particion, firmware, fs, cifrar)->Ok_0;
            let k = primero(d.particiones, con_ruta(particion));
            &&& !plan.borrar_disco
            &&& plan_respeta(plan.particiones, d)
            &&& 0 <= k < d.particiones.len()
            &&& d.particiones[k].ruta == particion
            &&& a_destruir_spec(plan, d) == seq![d.particiones[k]]
        }),
{
    let plan = plan_sobre(d, particion, firmware, fs, cifrar)->Ok_0;
    let k = primero(d.particiones, con_ruta(particion));
    lemma_primero_encontro(d.particiones, con_ruta(particion));
    let destino = d.particiones[k];
    let h = mayor_hueco(d);
    let (esp, gastado) = esp_del_plan_spec(d, h)->Ok_0;
    let raiz = raiz_spec(
        d.nvme,
        fs,
        cifrar,
        (destino.inicio_bytes / MIB) as u64,
        (destino.tamano_bytes / MIB) as u64,
        Accion::Formatear,
        Some(destino.ruta),
    );
    lemma_esp_del_plan(d, h);
    assert(raiz.inicio_mib * MIB == destino.inicio_bytes);
    assert(raiz.tamano_mib * MIB == destino.tamano_bytes);
    lemma_reusada(raiz, d, k);
    if gastado != 0 {
        lemma_mayor_hueco_valido(d);
        lemma_mayor_hueco_acotado(d);
        lemma_dentro_del_hueco(esp, h, d);
        assert(libre_de(h, (destino.inicio_bytes, fin_de(destino))));
    } else {
        let j = primero(d.particiones, es_esp_fn());
        assert(j != k);
        if j < k {
            assert(d.particiones[j].inicio_bytes + d.particiones[j].tamano_bytes
                <= destino.inicio_bytes || destino.inicio_bytes + destino.tamano_bytes
                <= d.particiones[j].inicio_bytes);
        } else {
            assert(d.particiones[j].inicio_bytes + d.particiones[j].tamano_bytes
                <= destino.inicio_bytes || destino.inicio_bytes + destino.tamano_bytes
                <= d.particiones[j].inicio_bytes);
        }
    }
    lemma_respeta_dos(esp, raiz, d);
    lemma_nada_fuera_de_lo_formateado(plan, d);
    assert forall|m: int| 0 <= m < d.particiones.len() implies (destruye(plan)(
        #[trigger] d.particiones[m],
    ) <==> m == k) by {
        if destruida(plan, d.particiones[m]) {
            let i = choose|i: int|
                0 <= i < plan.particiones.len() && plan.particiones[i].accion == Accion::Formatear
                    && plan.particiones[i].ruta == Some(d.particiones[m].ruta);
            assert(i == 0 || i == 1);
            if m != k {
                assert(d.particiones[m].ruta != destino.ruta);
            }
        }
        if m == k {
            let i = if plan.particiones[0] == raiz {
                0int
            } else {
                1int
            };
            assert(plan.particiones[i].accion == Accion::Formatear);
        }
    }
    lemma_filtrar_uno(d.particiones, destruye(plan), k);
}

/// **Borrar el disco declara todo lo que se pierde**, y el plan que lo borra
/// no se sale del disco ni se pisa a sí mismo: el arranque va en el MiB 1 y
/// la raíz ocupa todo lo que sigue hasta la copia de la tabla.
pub proof fn borrar_el_disco_declara_todas_las_particiones(
    d: VistaDisco,
    firmware: Firmware,
    fs: SistemaArchivos,
    cifrar: bool,
)
    requires
        plan_borrando(d, firmware, fs, cifrar) is Ok,
    ensures
        ({
            let plan = plan_borrando(d, firmware, fs, cifrar)->Ok_0;
            let ps = plan.particiones;
            &&& plan.borrar_disco
            &&& a_destruir_spec(plan, d) == d.particiones
            &&& forall|i: int| 0 <= i < ps.len() ==> en_el_disco(#[trigger] ps[i], d)
            &&& forall|i: int, j: int|
                0 <= i < ps.len() && 0 <= j < ps.len() && i != j ==> separadas(
                    #[trigger] ps[i],
                    #[trigger] ps[j],
                )
            &&& forall|i: int| 0 <= i < ps.len() ==> (#[trigger] ps[i]).accion == Accion::Crear
        }),
{
    let plan = plan_borrando(d, firmware, fs, cifrar)->Ok_0;
    lemma_filtrar_todos(d.particiones, destruye(plan));
    let total = (d.tamano_bytes / MIB) as u64;
    assert(total * MIB <= d.tamano_bytes);
}

/// El arranque que archinstall reconoce: bandera `boot`, punto de montaje y
/// sistema de archivos, y sin cifrar.
pub open spec fn es_arranque_en_claro(p: VistaPlaneada) -> bool {
    &&& p.banderas.contains("boot"@)
    &&& p.punto_montaje is Some
    &&& p.sistema_archivos is Some
    &&& !p.cifrada
}

pub open spec fn tiene_arranque_en_claro(ps: Seq<VistaPlaneada>) -> bool {
    exists|i: int| 0 <= i < ps.len() && es_arranque_en_claro(#[trigger] ps[i])
}

/// Sólo la raíz va cifrada, y va cifrada si se pidió.
pub open spec fn solo_la_raiz_cifrada(ps: Seq<VistaPlaneada>, cifrar: bool) -> bool {
    forall|i: int| 0 <= i < ps.len() ==> (#[trigger] ps[i]).cifrada == (ps[i].rol == Rol::Raiz && cifrar)
}

/// Ninguna partición del plan que nombre un ESP del disco lo formatea.
pub open spec fn esp_ajeno_intacto(ps: Seq<VistaPlaneada>, d: VistaDisco) -> bool {
    forall|i: int, k: int|
        0 <= i < ps.len() && 0 <= k < d.particiones.len() && es_esp(#[trigger] d.particiones[k])
            && (#[trigger] ps[i]).ruta == Some(d.particiones[k].ruta) ==> ps[i].accion
            == Accion::Conservar
}

proof fn lemma_esp_en_claro(esp: VistaPlaneada)
    requires
        esp.banderas == seq!["boot"@, "esp"@] || esp.banderas == seq!["boot"@],
        esp.punto_montaje is Some,
        esp.sistema_archivos is Some,
        !esp.cifrada,
    ensures
        es_arranque_en_claro(esp),
{
    assert(esp.banderas[0] == "boot"@);
}

/// **Los modos que no borran tratan el ESP igual**: instalar al lado y sobre
/// una partición eligen, en el mismo disco, exactamente el mismo ESP.
pub proof fn los_modos_no_destructivos_tratan_el_esp_igual(
    d: VistaDisco,
    particion: Seq<char>,
    fs: SistemaArchivos,
    cifrar: bool,
)
    requires
        plan_junto_a(d, Firmware::Uefi, fs, cifrar) is Ok,
        plan_sobre(d, particion, Firmware::Uefi, fs, cifrar) is Ok,
    ensures
        plan_junto_a(d, Firmware::Uefi, fs, cifrar)->Ok_0.particiones.contains(
            esp_del_plan_spec(d, mayor_hueco(d))->Ok_0.0,
        ),
        plan_sobre(d, particion, Firmware::Uefi, fs, cifrar)->Ok_0.particiones.contains(
            esp_del_plan_spec(d, mayor_hueco(d))->Ok_0.0,
        ),
        forall|p: VistaPlaneada|
            #![trigger plan_junto_a(d, Firmware::Uefi, fs, cifrar)->Ok_0.particiones.contains(p)]
            #![trigger plan_sobre(d, particion, Firmware::Uefi, fs, cifrar)->Ok_0.particiones.contains(p)]
            p.rol == Rol::Esp ==> (plan_junto_a(d, Firmware::Uefi, fs, cifrar)->Ok_0.particiones.contains(p)
                || plan_sobre(d, particion, Firmware::Uefi, fs, cifrar)->Ok_0.particiones.contains(p))
                ==> p == esp_del_plan_spec(d, mayor_hueco(d))->Ok_0.0,
{
    let h = mayor_hueco(d);
    let (esp, gastado) = esp_del_plan_spec(d, h)->Ok_0;
    let a = plan_junto_a(d, Firmware::Uefi, fs, cifrar)->Ok_0.particiones;
    let b = plan_sobre(d, particion, Firmware::Uefi, fs, cifrar)->Ok_0.particiones;
    let ra = raiz_spec(d.nvme, fs, cifrar, (h.inicio_mib + gastado) as u64, resta_saturada(h.tamano_mib, gastado), Accion::Crear, None);
    let k = primero(d.particiones, con_ruta(particion));
    let destino = d.particiones[k];
    let rb = raiz_spec(
        d.nvme,
        fs,
        cifrar,
        (destino.inicio_bytes / MIB) as u64,
        (destino.tamano_bytes / MIB) as u64,
        Accion::Formatear,
        Some(destino.ruta),
    );
    lemma_ordenar_dos(esp, ra);
    lemma_ordenar_dos(esp, rb);
    if a[0] == esp {
        assert(a.contains(esp));
    } else {
        assert(a[1] == esp);
        assert(a.contains(esp));
    }
    if b[0] == esp {
        assert(b.contains(esp));
    } else {
        assert(b[1] == esp);
        assert(b.contains(esp));
    }
}


// ── Lo que vale del modo manual ─────────────────────────────────────────────

/// Lo que cada partición del plan manual es respecto de la del disco que
/// nombra.
pub open spec fn manual_fiel(
    p: VistaPlaneada,
    e: VistaParticion,
    punto: Seq<char>,
    cifrar: bool,
) -> bool {
    &&& geometria_de(p, e)
    &&& p.accion != Accion::Crear
    &&& p.cifrada == (p.rol == Rol::Raiz && cifrar)
    &&& (p.accion == Accion::Formatear || p.rol != Rol::Raiz)
    &&& (punto == "/boot"@ ==> {
        &&& es_esp(e)
        &&& p.rol == Rol::Esp
        &&& p.banderas == seq!["boot"@, "esp"@]
        &&& p.punto_montaje == Some("/boot"@)
        &&& (p.sistema_archivos is None ==> match e.sistema_archivos {
            Some(f) => fs_archinstall_spec(f) is None,
            None => true,
        })
    })
}

/// Ninguna asignación con punto de montaje formatea un ESP del disco.
pub open spec fn no_formatea_esp(d: VistaDisco, todas: Seq<VistaAsignacion>) -> bool {
    forall|j: int, k: int|
        0 <= j < todas.len() && 0 <= k < d.particiones.len() && (#[trigger] todas[j]).punto_montaje
            is Some && todas[j].formatear && (#[trigger] d.particiones[k]).ruta
            == todas[j].particion ==> !es_esp(d.particiones[k])
}

/// Lo que se va juntando en el modo manual.
pub open spec fn inv_manual(
    d: VistaDisco,
    todas: Seq<VistaAsignacion>,
    est: EstadoManual,
    cifrar: bool,
) -> bool {
    let n = est.plan.len();
    &&& est.rutas.len() == n
    &&& est.puntos.len() == n
    &&& forall|i: int|
        0 <= i < n ==> exists|k: int|
            0 <= k < d.particiones.len() && manual_fiel(
                #[trigger] est.plan[i],
                d.particiones[k],
                est.puntos[i],
                cifrar,
            ) && (est.plan[i].accion == Accion::Formatear && no_formatea_esp(d, todas) ==> !es_esp(
                d.particiones[k],
            ))
    &&& forall|i: int| 0 <= i < n ==> (#[trigger] est.plan[i]).ruta == Some(est.rutas[i])
    &&& forall|i: int, j: int|
        0 <= i < j < n ==> #[trigger] est.rutas[i] != #[trigger] est.rutas[j]
    &&& forall|i: int|
        0 <= i < n ==> exists|j: int|
            0 <= j < todas.len() && (#[trigger] todas[j]).punto_montaje is Some
                && todas[j].particion == #[trigger] est.rutas[i]
}

proof fn lemma_paso_manual(
    d: VistaDisco,
    todas: Seq<VistaAsignacion>,
    m: int,
    est: EstadoManual,
    fs: SistemaArchivos,
    cifrar: bool,
)
    requires
        0 <= m < todas.len(),
        todas[m].punto_montaje is Some,
        inv_manual(d, todas, est, cifrar),
        paso_manual(d, todas[m], est, fs, cifrar) is Ok,
    ensures
        inv_manual(d, todas, paso_manual(d, todas[m], est, fs, cifrar)->Ok_0, cifrar),
{
    reveal_strlit("/");
    reveal_strlit("/boot");
    let a = todas[m];
    let punto = a.punto_montaje->0;
    let k = primero(d.particiones, con_ruta(a.particion));
    lemma_primero_encontro(d.particiones, con_ruta(a.particion));
    let e = d.particiones[k];
    let sig = paso_manual(d, a, est, fs, cifrar)->Ok_0;
    let n = est.plan.len() as int;
    let p = sig.plan[n];
    assert(e.ruta == a.particion);
    assert(p.inicio_mib * MIB == e.inicio_bytes);
    assert(p.tamano_mib * MIB == e.tamano_bytes);
    if punto == "/boot"@ {
        assert("/boot"@.len() == 5);
        assert("/"@.len() == 1);
        assert(punto != "/"@);
    }
    assert(manual_fiel(p, e, punto, cifrar));
    assert forall|i: int| 0 <= i < n + 1 implies exists|k2: int|
        0 <= k2 < d.particiones.len() && manual_fiel(
            #[trigger] sig.plan[i],
            d.particiones[k2],
            sig.puntos[i],
            cifrar,
        ) && (sig.plan[i].accion == Accion::Formatear && no_formatea_esp(d, todas) ==> !es_esp(
            d.particiones[k2],
        )) by {
        if i < n {
            assert(sig.plan[i] == est.plan[i]);
            assert(sig.puntos[i] == est.puntos[i]);
        } else {
            assert(sig.plan[i] == p);
            assert(sig.puntos[i] == punto);
            if p.accion == Accion::Formatear && no_formatea_esp(d, todas) {
                assert(a.formatear);
                assert(!es_esp(d.particiones[k]));
            }
        }
    }
    assert forall|i: int| 0 <= i < n + 1 implies (#[trigger] sig.plan[i]).ruta == Some(
        sig.rutas[i],
    ) by {
        if i < n {
            assert(sig.plan[i] == est.plan[i]);
            assert(sig.rutas[i] == est.rutas[i]);
        }
    }
    assert forall|i: int, j: int| 0 <= i < j < n + 1 implies #[trigger] sig.rutas[i]
        != #[trigger] sig.rutas[j] by {
        if j == n {
            assert(sig.rutas[i] == est.rutas[i]);
            assert(est.rutas.contains(est.rutas[i]));
        } else {
            assert(sig.rutas[i] == est.rutas[i]);
            assert(sig.rutas[j] == est.rutas[j]);
        }
    }
    assert forall|i: int| 0 <= i < n + 1 implies exists|j: int|
        0 <= j < todas.len() && (#[trigger] todas[j]).punto_montaje is Some && todas[j].particion
            == #[trigger] sig.rutas[i] by {
        if i < n {
            assert(sig.rutas[i] == est.rutas[i]);
        } else {
            assert(todas[m].particion == sig.rutas[i]);
        }
    }
}

proof fn lemma_manual_desde(
    d: VistaDisco,
    todas: Seq<VistaAsignacion>,
    m: int,
    est: EstadoManual,
    fs: SistemaArchivos,
    cifrar: bool,
)
    requires
        0 <= m <= todas.len(),
        inv_manual(d, todas, est, cifrar),
        manual_desde(d, todas.skip(m), est, fs, cifrar) is Ok,
    ensures
        inv_manual(d, todas, manual_desde(d, todas.skip(m), est, fs, cifrar)->Ok_0, cifrar),
        est.puntos.contains("/boot"@) ==> manual_desde(
            d,
            todas.skip(m),
            est,
            fs,
            cifrar,
        )->Ok_0.puntos.contains("/boot"@),
    decreases todas.len() - m,
{
    if m < todas.len() {
        let s = todas.skip(m);
        assert(s[0] == todas[m]);
        assert(s.drop_first() =~= todas.skip(m + 1));
        if todas[m].punto_montaje is None {
            lemma_manual_desde(d, todas, m + 1, est, fs, cifrar);
        } else {
            lemma_paso_manual(d, todas, m, est, fs, cifrar);
            let sig = paso_manual(d, todas[m], est, fs, cifrar)->Ok_0;
            if est.puntos.contains("/boot"@) {
                let i = choose|i: int| 0 <= i < est.puntos.len() && est.puntos[i] == "/boot"@;
                assert(sig.puntos[i] == "/boot"@);
            }
            lemma_manual_desde(d, todas, m + 1, sig, fs, cifrar);
        }
    } else {
        assert(todas.skip(m) =~= seq![]);
    }
}


/// Todo ESP del disco tiene un sistema de archivos que archinstall conoce.
pub open spec fn esp_con_fs_conocido(d: VistaDisco) -> bool {
    forall|k: int|
        0 <= k < d.particiones.len() && es_esp(#[trigger] d.particiones[k]) ==> match d.particiones[k].sistema_archivos {
            Some(f) => fs_archinstall_spec(f) is Some,
            None => false,
        }
}

proof fn lemma_plan_manual(
    d: VistaDisco,
    asignaciones: Seq<VistaAsignacion>,
    firmware: Firmware,
    fs: SistemaArchivos,
    cifrar: bool,
)
    requires
        disco_bien_formado(d),
        plan_manual(d, asignaciones, firmware, fs, cifrar) is Ok,
    ensures
        ({
            let plan = plan_manual(d, asignaciones, firmware, fs, cifrar)->Ok_0;
            let ps = plan.particiones;
            &&& !plan.borrar_disco
            &&& plan_respeta(ps, d)
            &&& solo_la_raiz_cifrada(ps, cifrar)
            &&& forall|i: int|
                0 <= i < ps.len() ==> exists|j: int|
                    0 <= j < asignaciones.len() && (#[trigger] asignaciones[j]).punto_montaje is Some
                        && (#[trigger] ps[i]).ruta == Some(asignaciones[j].particion)
            &&& esp_con_fs_conocido(d) ==> tiene_arranque_en_claro(ps)
            &&& no_formatea_esp(d, asignaciones) ==> esp_ajeno_intacto(ps, d)
        }),
{
    let plan = plan_manual(d, asignaciones, firmware, fs, cifrar)->Ok_0;
    let ps = plan.particiones;
    assert(asignaciones.skip(0) =~= asignaciones);
    let ini = estado_inicial();
    assert(inv_manual(d, asignaciones, ini, cifrar));
    lemma_manual_desde(d, asignaciones, 0, ini, fs, cifrar);
    let f = manual_desde(d, asignaciones, ini, fs, cifrar)->Ok_0;
    assert(ps == ordenar(f.plan, por_inicio()));
    lemma_ordenar_contiene(f.plan, por_inicio());
    assert(f.plan.no_duplicates()) by {
        assert forall|i: int, j: int| 0 <= i < f.plan.len() && 0 <= j < f.plan.len() && i != j implies f.plan[i]
            != f.plan[j] by {
            assert(f.plan[i].ruta == Some(f.rutas[i]));
            assert(f.plan[j].ruta == Some(f.rutas[j]));
            if i < j {
                assert(f.rutas[i] != f.rutas[j]);
            } else {
                assert(f.rutas[j] != f.rutas[i]);
            }
        }
    }
    lemma_ordenar_sin_repetidos(f.plan, por_inicio());
    // Cada partición del plan ordenado es una de las que se juntaron.
    assert forall|i: int| 0 <= i < ps.len() implies exists|a: int|
        0 <= a < f.plan.len() && f.plan[a] == #[trigger] ps[i] by {
        assert(ps.contains(ps[i]));
    }
    assert forall|i: int| 0 <= i < ps.len() implies respeta(#[trigger] ps[i], d) && en_el_disco(
        ps[i],
        d,
    ) by {
        let a = choose|a: int| 0 <= a < f.plan.len() && f.plan[a] == ps[i];
        let k = choose|k: int|
            0 <= k < d.particiones.len() && manual_fiel(
                #[trigger] f.plan[a],
                d.particiones[k],
                f.puntos[a],
                cifrar,
            ) && (f.plan[a].accion == Accion::Formatear && no_formatea_esp(d, asignaciones)
                ==> !es_esp(d.particiones[k]));
        lemma_reusada(ps[i], d, k);
    }
    assert forall|i: int, j: int|
        0 <= i < ps.len() && 0 <= j < ps.len() && i != j implies separadas(
        #[trigger] ps[i],
        #[trigger] ps[j],
    ) by {
        let a = choose|a: int| 0 <= a < f.plan.len() && f.plan[a] == ps[i];
        let b = choose|b: int| 0 <= b < f.plan.len() && f.plan[b] == ps[j];
        assert(a != b);
        let ka = choose|k: int|
            0 <= k < d.particiones.len() && manual_fiel(
                #[trigger] f.plan[a],
                d.particiones[k],
                f.puntos[a],
                cifrar,
            ) && (f.plan[a].accion == Accion::Formatear && no_formatea_esp(d, asignaciones)
                ==> !es_esp(d.particiones[k]));
        let kb = choose|k: int|
            0 <= k < d.particiones.len() && manual_fiel(
                #[trigger] f.plan[b],
                d.particiones[k],
                f.puntos[b],
                cifrar,
            ) && (f.plan[b].accion == Accion::Formatear && no_formatea_esp(d, asignaciones)
                ==> !es_esp(d.particiones[k]));
        assert(f.plan[a].ruta == Some(f.rutas[a]));
        assert(f.plan[b].ruta == Some(f.rutas[b]));
        if a < b {
            assert(f.rutas[a] != f.rutas[b]);
        } else {
            assert(f.rutas[b] != f.rutas[a]);
        }
        assert(ka != kb);
        let ea = d.particiones[ka];
        let eb = d.particiones[kb];
        if ka < kb {
            assert(ea.inicio_bytes + ea.tamano_bytes <= eb.inicio_bytes || eb.inicio_bytes
                + eb.tamano_bytes <= ea.inicio_bytes);
        } else {
            assert(ea.inicio_bytes + ea.tamano_bytes <= eb.inicio_bytes || eb.inicio_bytes
                + eb.tamano_bytes <= ea.inicio_bytes);
        }
    }
    assert forall|i: int| 0 <= i < ps.len() implies (#[trigger] ps[i]).cifrada == (ps[i].rol
        == Rol::Raiz && cifrar) by {
        let a = choose|a: int| 0 <= a < f.plan.len() && f.plan[a] == ps[i];
        let k = choose|k: int|
            0 <= k < d.particiones.len() && manual_fiel(
                #[trigger] f.plan[a],
                d.particiones[k],
                f.puntos[a],
                cifrar,
            ) && (f.plan[a].accion == Accion::Formatear && no_formatea_esp(d, asignaciones)
                ==> !es_esp(d.particiones[k]));
    }
    assert forall|i: int| 0 <= i < ps.len() implies exists|j: int|
        0 <= j < asignaciones.len() && (#[trigger] asignaciones[j]).punto_montaje is Some && (
        #[trigger] ps[i]).ruta == Some(asignaciones[j].particion) by {
        let a = choose|a: int| 0 <= a < f.plan.len() && f.plan[a] == ps[i];
        assert(f.plan[a].ruta == Some(f.rutas[a]));
        let j = choose|j: int|
            0 <= j < asignaciones.len() && (#[trigger] asignaciones[j]).punto_montaje is Some
                && asignaciones[j].particion == #[trigger] f.rutas[a];
        assert(asignaciones[j].punto_montaje is Some);
    }
    if esp_con_fs_conocido(d) {
        let a = choose|a: int| 0 <= a < f.puntos.len() && f.puntos[a] == "/boot"@;
        let k = choose|k: int|
            0 <= k < d.particiones.len() && manual_fiel(
                #[trigger] f.plan[a],
                d.particiones[k],
                f.puntos[a],
                cifrar,
            ) && (f.plan[a].accion == Accion::Formatear && no_formatea_esp(d, asignaciones)
                ==> !es_esp(d.particiones[k]));
        let x = f.plan[a];
        assert(x.banderas[0] == "boot"@);
        assert(es_arranque_en_claro(x));
        assert(f.plan.contains(x));
        assert(ps.contains(x));
        let i = choose|i: int| 0 <= i < ps.len() && ps[i] == x;
        assert(es_arranque_en_claro(ps[i]));
    }
    if no_formatea_esp(d, asignaciones) {
        assert forall|i: int, k: int|
            0 <= i < ps.len() && 0 <= k < d.particiones.len() && es_esp(
                #[trigger] d.particiones[k],
            ) && (#[trigger] ps[i]).ruta == Some(d.particiones[k].ruta) implies ps[i].accion
            == Accion::Conservar by {
            let a = choose|a: int| 0 <= a < f.plan.len() && f.plan[a] == ps[i];
            let k2 = choose|k2: int|
                0 <= k2 < d.particiones.len() && manual_fiel(
                    #[trigger] f.plan[a],
                    d.particiones[k2],
                    f.puntos[a],
                    cifrar,
                ) && (f.plan[a].accion == Accion::Formatear && no_formatea_esp(d, asignaciones)
                    ==> !es_esp(d.particiones[k2]));
            if k2 != k {
                if k2 < k {
                    assert(d.particiones[k2].ruta != d.particiones[k].ruta);
                } else {
                    assert(d.particiones[k].ruta != d.particiones[k2].ruta);
                }
            }
        }
    }
}

/// **En el modo manual lo que no se asigna no se toca, y se pierde sólo lo que
/// se formatea.** En un disco bien formado, el plan manual no borra la tabla,
/// está en regla, cada una de sus particiones es una que se asignó con punto
/// de montaje, y una partición del disco se pierde si y sólo si el plan la
/// formatea.
pub proof fn en_manual_se_pierde_solo_lo_que_se_formatea(
    d: VistaDisco,
    asignaciones: Seq<VistaAsignacion>,
    firmware: Firmware,
    fs: SistemaArchivos,
    cifrar: bool,
)
    requires
        disco_bien_formado(d),
        plan_manual(d, asignaciones, firmware, fs, cifrar) is Ok,
    ensures
        ({
            let plan = plan_manual(d, asignaciones, firmware, fs, cifrar)->Ok_0;
            let ps = plan.particiones;
            &&& !plan.borrar_disco
            &&& plan_respeta(ps, d)
            &&& forall|i: int|
                0 <= i < ps.len() ==> exists|j: int|
                    0 <= j < asignaciones.len() && (#[trigger] asignaciones[j]).punto_montaje is Some
                        && (#[trigger] ps[i]).ruta == Some(asignaciones[j].particion)
            &&& forall|m: int|
                0 <= m < d.particiones.len() ==> (destruida(plan, #[trigger] d.particiones[m])
                    <==> exists|i: int|
                    0 <= i < ps.len() && ps[i].accion == Accion::Formatear && ps[i].ruta == Some(
                        d.particiones[m].ruta,
                    ))
        }),
{
    lemma_plan_manual(d, asignaciones, firmware, fs, cifrar);
    lemma_nada_fuera_de_lo_formateado(plan_manual(d, asignaciones, firmware, fs, cifrar)->Ok_0, d);
}

/// Lo que vale de los dos planes de dos particiones, el ESP y la raíz.
proof fn lemma_planes_de_dos(
    d: VistaDisco,
    esquema: EsquemaDisco,
    particion: Option<Seq<char>>,
    asignaciones: Seq<VistaAsignacion>,
    firmware: Firmware,
    fs: SistemaArchivos,
    cifrar: bool,
)
    requires
        disco_bien_formado(d),
        esquema == EsquemaDisco::JuntoAOtroSistema || esquema == EsquemaDisco::SobreUnaParticion,
        plan_con(d, esquema, particion, asignaciones, firmware, fs, cifrar) is Ok,
    ensures
        ({
            let ps = plan_con(d, esquema, particion, asignaciones, firmware, fs, cifrar)->Ok_0.particiones;
            &&& tiene_arranque_en_claro(ps)
            &&& solo_la_raiz_cifrada(ps, cifrar)
            &&& esp_ajeno_intacto(ps, d)
        }),
{
    let ps = plan_con(d, esquema, particion, asignaciones, firmware, fs, cifrar)->Ok_0.particiones;
    let h = mayor_hueco(d);
    lemma_esp_del_plan(d, h);
    let (esp, gastado) = esp_del_plan_spec(d, h)->Ok_0;
    lemma_esp_en_claro(esp);
    let raiz = if esquema == EsquemaDisco::JuntoAOtroSistema {
        raiz_spec(d.nvme, fs, cifrar, (h.inicio_mib + gastado) as u64, resta_saturada(h.tamano_mib, gastado), Accion::Crear, None)
    } else {
        let r = particion->0;
        let k = primero(d.particiones, con_ruta(r));
        let destino = d.particiones[k];
        raiz_spec(
            d.nvme,
            fs,
            cifrar,
            (destino.inicio_bytes / MIB) as u64,
            (destino.tamano_bytes / MIB) as u64,
            Accion::Formatear,
            Some(destino.ruta),
        )
    };
    lemma_ordenar_dos(esp, raiz);
    assert(ps == ordenar(seq![esp, raiz], por_inicio()));
    let ie = if ps[0] == esp {
        0int
    } else {
        1int
    };
    assert(es_arranque_en_claro(ps[ie]));
    if esquema == EsquemaDisco::SobreUnaParticion {
        let r = particion->0;
        let k = primero(d.particiones, con_ruta(r));
        lemma_primero_encontro(d.particiones, con_ruta(r));
        assert forall|i: int, m: int|
            0 <= i < ps.len() && 0 <= m < d.particiones.len() && es_esp(
                #[trigger] d.particiones[m],
            ) && (#[trigger] ps[i]).ruta == Some(d.particiones[m].ruta) implies ps[i].accion
            == Accion::Conservar by {
            if ps[i] == raiz {
                assert(m != k);
                if m < k {
                    assert(d.particiones[m].ruta != d.particiones[k].ruta);
                } else {
                    assert(d.particiones[k].ruta != d.particiones[m].ruta);
                }
            }
        }
    }
}

/// **Todo plan arranca, y el arranque va en claro.** En cualquier disco y sea
/// cual sea el esquema, el plan tiene una partición con la bandera `boot`, punto de montaje y
/// sistema de archivos —lo que archinstall busca para instalar el cargador—
/// y esa partición no va cifrada, porque el firmware tiene que poder leerla.
/// En el modo manual vale cuando los ESP del disco tienen un sistema de
/// archivos que archinstall conoce: uno que se conserva sin formatear lleva el
/// que ya tiene.
pub proof fn todo_plan_arranca_y_el_esp_va_en_claro(
    d: VistaDisco,
    esquema: EsquemaDisco,
    particion: Option<Seq<char>>,
    asignaciones: Seq<VistaAsignacion>,
    firmware: Firmware,
    fs: SistemaArchivos,
    cifrar: bool,
)
    requires
        plan_con(d, esquema, particion, asignaciones, firmware, fs, cifrar) is Ok,
        esquema == EsquemaDisco::Manual ==> esp_con_fs_conocido(d),
    ensures
        tiene_arranque_en_claro(
            plan_con(d, esquema, particion, asignaciones, firmware, fs, cifrar)->Ok_0.particiones,
        ),
{
    match esquema {
        EsquemaDisco::BorrarTodo => {
            let ps = plan_con(d, esquema, particion, asignaciones, firmware, fs, cifrar)->Ok_0.particiones;
            match firmware {
                Firmware::Uefi => lemma_esp_en_claro(esp_uefi(Accion::Crear, None, 1, 1024)),
                Firmware::Bios => lemma_esp_en_claro(arranque_bios(1, 1024)),
            }
            assert(es_arranque_en_claro(ps[0]));
        },
        EsquemaDisco::Manual => lemma_manual_tiene_arranque(d, asignaciones, firmware, fs, cifrar),
        _ => lemma_dos_cifrado(d, esquema, particion, asignaciones, firmware, fs, cifrar),
    }
}

/// Lo que vale de cada partición del modo manual: va cifrada sólo la raíz y
/// sólo si se pidió, y el arranque se monta en `/boot` con sus banderas y
/// sin que nadie más pueda leerlo.
pub open spec fn bien_manual(p: VistaPlaneada, cifrar: bool) -> bool {
    &&& p.cifrada == (cifrar && p.rol == Rol::Raiz)
    &&& p.rol == Rol::Esp ==> {
        &&& p.punto_montaje == Some("/boot"@)
        &&& p.banderas == seq!["boot"@, "esp"@]
        &&& p.opciones_montaje == seq!["umask=0077"@]
    }
}

proof fn lemma_manual_bien(
    d: VistaDisco,
    s: Seq<VistaAsignacion>,
    est: EstadoManual,
    fs: SistemaArchivos,
    cifrar: bool,
)
    requires
        forall|i: int| 0 <= i < est.plan.len() ==> bien_manual(#[trigger] est.plan[i], cifrar),
        manual_desde(d, s, est, fs, cifrar) is Ok,
    ensures
        forall|i: int|
            0 <= i < manual_desde(d, s, est, fs, cifrar)->Ok_0.plan.len() ==> bien_manual(
                #[trigger] manual_desde(d, s, est, fs, cifrar)->Ok_0.plan[i],
                cifrar,
            ),
    decreases s.len(),
{
    if s.len() > 0 {
        if s[0].punto_montaje is None {
            lemma_manual_bien(d, s.drop_first(), est, fs, cifrar);
        } else {
            let sig = paso_manual(d, s[0], est, fs, cifrar)->Ok_0;
            assert forall|i: int| 0 <= i < sig.plan.len() implies bien_manual(#[trigger] sig.plan[i], cifrar) by {
                if i == est.plan.len() {
                    let punto = s[0].punto_montaje->0;
                    let k = primero(d.particiones, con_ruta(s[0].particion));
                    let e = d.particiones[k];
                    if punto != "/"@ {
                        assert(sig.plan[i] == otra_manual(e, punto, s[0].formatear, fs));
                    }
                } else {
                    assert(sig.plan[i] == est.plan[i]);
                }
            }
            lemma_manual_bien(d, s.drop_first(), sig, fs, cifrar);
        }
    }
}

proof fn lemma_manual_arranque(
    d: VistaDisco,
    s: Seq<VistaAsignacion>,
    est: EstadoManual,
    fs: SistemaArchivos,
    cifrar: bool,
)
    requires
        esp_con_fs_conocido(d),
        est.plan.len() == est.puntos.len(),
        forall|i: int|
            0 <= i < est.plan.len() && #[trigger] est.puntos[i] == "/boot"@ ==> es_arranque_en_claro(est.plan[i]),
        manual_desde(d, s, est, fs, cifrar) is Ok,
    ensures
        ({
            let f = manual_desde(d, s, est, fs, cifrar)->Ok_0;
            &&& f.plan.len() == f.puntos.len()
            &&& forall|i: int|
                0 <= i < f.plan.len() && #[trigger] f.puntos[i] == "/boot"@ ==> es_arranque_en_claro(f.plan[i])
        }),
    decreases s.len(),
{
    if s.len() > 0 {
        if s[0].punto_montaje is None {
            lemma_manual_arranque(d, s.drop_first(), est, fs, cifrar);
        } else {
            let sig = paso_manual(d, s[0], est, fs, cifrar)->Ok_0;
            let punto = s[0].punto_montaje->0;
            let k = primero(d.particiones, con_ruta(s[0].particion));
            lemma_primero_encontro(d.particiones, con_ruta(s[0].particion));
            let e = d.particiones[k];
            let n = est.plan.len() as int;
            assert forall|i: int|
                0 <= i < sig.plan.len() && #[trigger] sig.puntos[i] == "/boot"@ implies es_arranque_en_claro(
                sig.plan[i],
            ) by {
                if i == n {
                    assert(punto == "/boot"@);
                    reveal_strlit("/boot");
                    reveal_strlit("/");
                    assert("/boot"@.len() != "/"@.len());
                    assert(punto != "/"@);
                    assert(es_esp(e));
                    let p = otra_manual(e, punto, s[0].formatear, fs);
                    assert(sig.plan[i] == p);
                    assert(p.banderas[0] == "boot"@);
                } else {
                    assert(sig.puntos[i] == est.puntos[i] && sig.plan[i] == est.plan[i]);
                }
            }
            lemma_manual_arranque(d, s.drop_first(), sig, fs, cifrar);
        }
    }
}

/// En el modo manual, si los ESP del disco tienen un sistema de archivos que
/// archinstall conoce, el plan tiene un arranque en claro, en cualquier disco.
proof fn lemma_manual_tiene_arranque(
    d: VistaDisco,
    asignaciones: Seq<VistaAsignacion>,
    firmware: Firmware,
    fs: SistemaArchivos,
    cifrar: bool,
)
    requires
        esp_con_fs_conocido(d),
        plan_manual(d, asignaciones, firmware, fs, cifrar) is Ok,
    ensures
        tiene_arranque_en_claro(plan_manual(d, asignaciones, firmware, fs, cifrar)->Ok_0.particiones),
{
    let ini = estado_inicial();
    lemma_manual_arranque(d, asignaciones, ini, fs, cifrar);
    let f = manual_desde(d, asignaciones, ini, fs, cifrar)->Ok_0;
    let ps = plan_manual(d, asignaciones, firmware, fs, cifrar)->Ok_0.particiones;
    assert(ps == ordenar(f.plan, por_inicio()));
    lemma_ordenar_contiene(f.plan, por_inicio());
    let b = choose|b: int| 0 <= b < f.puntos.len() && f.puntos[b] == "/boot"@;
    assert(es_arranque_en_claro(f.plan[b]));
    assert(f.plan.contains(f.plan[b]));
    assert(ps.contains(f.plan[b]));
}

/// **En el modo manual sólo la raíz va cifrada, y el arranque es un ESP
/// como corresponde**: en todo plan manual, cada partición va cifrada si y
/// sólo si es la raíz y se pidió cifrar, y la de arranque se monta en
/// `/boot`, con las banderas `boot` y `esp` y la opción `umask=0077`. Vale
/// para cualquier disco.
pub proof fn en_manual_solo_la_raiz_va_cifrada(
    d: VistaDisco,
    asignaciones: Seq<VistaAsignacion>,
    firmware: Firmware,
    fs: SistemaArchivos,
    cifrar: bool,
)
    requires
        plan_manual(d, asignaciones, firmware, fs, cifrar) is Ok,
    ensures
        forall|i: int|
            0 <= i < plan_manual(d, asignaciones, firmware, fs, cifrar)->Ok_0.particiones.len()
                ==> bien_manual(
                #[trigger] plan_manual(d, asignaciones, firmware, fs, cifrar)->Ok_0.particiones[i],
                cifrar,
            ),
{
    let ini = estado_inicial();
    lemma_manual_bien(d, asignaciones, ini, fs, cifrar);
    let f = manual_desde(d, asignaciones, ini, fs, cifrar)->Ok_0;
    let ps = plan_manual(d, asignaciones, firmware, fs, cifrar)->Ok_0.particiones;
    assert(ps == ordenar(f.plan, por_inicio()));
    lemma_ordenar_contiene(f.plan, por_inicio());
    assert forall|i: int| 0 <= i < ps.len() implies bien_manual(#[trigger] ps[i], cifrar) by {
        assert(ps.contains(ps[i]));
        assert(f.plan.contains(ps[i]));
    }
}

/// En los dos modos que no borran, el plan es el ESP y la raíz, y el ESP no
/// va cifrado.
proof fn lemma_dos_cifrado(
    d: VistaDisco,
    esquema: EsquemaDisco,
    particion: Option<Seq<char>>,
    asignaciones: Seq<VistaAsignacion>,
    firmware: Firmware,
    fs: SistemaArchivos,
    cifrar: bool,
)
    requires
        esquema == EsquemaDisco::JuntoAOtroSistema || esquema == EsquemaDisco::SobreUnaParticion,
        plan_con(d, esquema, particion, asignaciones, firmware, fs, cifrar) is Ok,
    ensures
        solo_la_raiz_cifrada(
            plan_con(d, esquema, particion, asignaciones, firmware, fs, cifrar)->Ok_0.particiones,
            cifrar,
        ),
        tiene_arranque_en_claro(
            plan_con(d, esquema, particion, asignaciones, firmware, fs, cifrar)->Ok_0.particiones,
        ),
{
    let ps = plan_con(d, esquema, particion, asignaciones, firmware, fs, cifrar)->Ok_0.particiones;
    let h = mayor_hueco(d);
    let (esp, gastado) = esp_del_plan_spec(d, h)->Ok_0;
    assert(!esp.cifrada && esp.rol != Rol::Raiz);
    assert(esp.banderas == seq!["boot"@, "esp"@] && esp.punto_montaje is Some && esp.sistema_archivos is Some);
    lemma_esp_en_claro(esp);
    let raiz = if esquema == EsquemaDisco::JuntoAOtroSistema {
        raiz_spec(d.nvme, fs, cifrar, (h.inicio_mib + gastado) as u64, resta_saturada(h.tamano_mib, gastado), Accion::Crear, None)
    } else {
        let r = particion->0;
        let k = primero(d.particiones, con_ruta(r));
        let destino = d.particiones[k];
        raiz_spec(
            d.nvme,
            fs,
            cifrar,
            (destino.inicio_bytes / MIB) as u64,
            (destino.tamano_bytes / MIB) as u64,
            Accion::Formatear,
            Some(destino.ruta),
        )
    };
    lemma_ordenar_dos(esp, raiz);
    assert(ps == ordenar(seq![esp, raiz], por_inicio()));
    let ie = if ps[0] == esp { 0int } else { 1int };
    assert(es_arranque_en_claro(ps[ie]));
}

/// Una partición del plan manual es la que pidió una asignación: la nombra,
/// tiene la geometría de la del disco con esa ruta, se formatea o se conserva
/// según se pidió, y es la raíz exactamente cuando se asignó a `/`.
pub open spec fn corresponde(d: VistaDisco, a: VistaAsignacion, p: VistaPlaneada) -> bool {
    &&& p.ruta == Some(a.particion)
    &&& exists|k: int|
        0 <= k < d.particiones.len() && (#[trigger] d.particiones[k]).ruta == a.particion
            && geometria_de(p, d.particiones[k])
    &&& p.accion == (if a.formatear {
        Accion::Formatear
    } else {
        Accion::Conservar
    })
    &&& (p.rol == Rol::Raiz) == (a.punto_montaje == Some("/"@))
}

/// Alguna asignación con punto de montaje pidió esta partición.
pub open spec fn pedida(d: VistaDisco, asignaciones: Seq<VistaAsignacion>, p: VistaPlaneada) -> bool {
    exists|j: int|
        0 <= j < asignaciones.len() && (#[trigger] asignaciones[j]).punto_montaje is Some
            && corresponde(d, asignaciones[j], p)
}

/// La asignación tiene su partición en el plan.
pub open spec fn tiene_la_suya(d: VistaDisco, a: VistaAsignacion, ps: Seq<VistaPlaneada>) -> bool {
    exists|i: int| 0 <= i < ps.len() && corresponde(d, a, #[trigger] ps[i])
}

/// La entrada `i` del estado vino de una de las primeras `m` asignaciones.
spec fn origen(d: VistaDisco, todas: Seq<VistaAsignacion>, m: int, est: EstadoManual, i: int) -> bool {
    exists|j: int|
        0 <= j < m && (#[trigger] todas[j]).punto_montaje == Some(est.puntos[i])
            && todas[j].particion == est.rutas[i] && corresponde(d, todas[j], est.plan[i])
}

/// La asignación `j` tiene su entrada en el estado.
spec fn destino(d: VistaDisco, todas: Seq<VistaAsignacion>, est: EstadoManual, j: int) -> bool {
    exists|i: int|
        0 <= i < est.plan.len() && todas[j].punto_montaje == Some(#[trigger] est.puntos[i])
            && todas[j].particion == est.rutas[i] && corresponde(d, todas[j], est.plan[i])
}

/// Cuántas de las primeras `m` asignaciones tienen punto de montaje.
pub open spec fn con_punto(todas: Seq<VistaAsignacion>, m: int) -> nat
    decreases m,
{
    if m <= 0 {
        0
    } else {
        con_punto(todas, m - 1) + if todas[m - 1].punto_montaje is Some {
            1nat
        } else {
            0nat
        }
    }
}

spec fn inv_geo(d: VistaDisco, todas: Seq<VistaAsignacion>, m: int, est: EstadoManual) -> bool {
    &&& 0 <= m <= todas.len()
    &&& est.plan.len() == est.rutas.len()
    &&& est.puntos.len() == est.plan.len()
    &&& forall|i: int| 0 <= i < est.plan.len() ==> #[trigger] origen(d, todas, m, est, i)
    &&& forall|j: int|
        0 <= j < m && (#[trigger] todas[j]).punto_montaje is Some ==> destino(d, todas, est, j)
    &&& forall|i: int, k: int|
        0 <= i < k < est.plan.len() ==> #[trigger] est.rutas[i] != #[trigger] est.rutas[k]
            && est.puntos[i] != est.puntos[k]
    &&& forall|j: int, l: int|
        0 <= j < l < m && (#[trigger] todas[j]).punto_montaje is Some
            && (#[trigger] todas[l]).punto_montaje is Some ==> todas[j].punto_montaje
            != todas[l].punto_montaje && todas[j].particion != todas[l].particion
    &&& est.hay_raiz == est.puntos.contains("/"@)
    &&& est.plan.len() == con_punto(todas, m)
}

#[verifier::spinoff_prover]
#[verifier::rlimit(40)]
proof fn lemma_geo_paso(
    d: VistaDisco,
    todas: Seq<VistaAsignacion>,
    m: int,
    est: EstadoManual,
    fs: SistemaArchivos,
    cifrar: bool,
)
    requires
        inv_geo(d, todas, m, est),
        m < todas.len(),
        todas[m].punto_montaje is Some,
        paso_manual(d, todas[m], est, fs, cifrar) is Ok,
    ensures
        inv_geo(d, todas, m + 1, paso_manual(d, todas[m], est, fs, cifrar)->Ok_0),
{
    let a = todas[m];
    let sig = paso_manual(d, a, est, fs, cifrar)->Ok_0;
    let punto = a.punto_montaje->0;
    let k = primero(d.particiones, con_ruta(a.particion));
    lemma_primero_encontro(d.particiones, con_ruta(a.particion));
    let e = d.particiones[k];
    assert(e.ruta == a.particion);
    let n = est.plan.len() as int;
    let p = sig.plan[n];
    assert(alineada(e));
    assert((e.inicio_bytes / MIB) * MIB == e.inicio_bytes);
    assert((e.tamano_bytes / MIB) * MIB == e.tamano_bytes);
    assert(geometria_de(p, e));
    assert(corresponde(d, a, p));
    assert forall|i: int| 0 <= i < sig.plan.len() implies #[trigger] origen(d, todas, m + 1, sig, i) by {
        if i < n {
            assert(origen(d, todas, m, est, i));
            let j = choose|j: int|
                0 <= j < m && (#[trigger] todas[j]).punto_montaje == Some(est.puntos[i])
                    && todas[j].particion == est.rutas[i] && corresponde(d, todas[j], est.plan[i]);
            assert(sig.puntos[i] == est.puntos[i] && sig.rutas[i] == est.rutas[i] && sig.plan[i] == est.plan[i]);
            assert(0 <= j < m + 1 && todas[j].punto_montaje == Some(sig.puntos[i]));
        } else {
            assert(todas[m].punto_montaje == Some(sig.puntos[n]));
        }
    }
    assert forall|j: int| 0 <= j < m + 1 && (#[trigger] todas[j]).punto_montaje is Some implies destino(
        d,
        todas,
        sig,
        j,
    ) by {
        if j < m {
            assert(destino(d, todas, est, j));
            let i = choose|i: int|
                0 <= i < est.plan.len() && todas[j].punto_montaje == Some(#[trigger] est.puntos[i])
                    && todas[j].particion == est.rutas[i] && corresponde(d, todas[j], est.plan[i]);
            assert(sig.puntos[i] == est.puntos[i] && sig.rutas[i] == est.rutas[i] && sig.plan[i] == est.plan[i]);
        } else {
            assert(sig.puntos[n] == punto);
        }
    }
    assert forall|i: int, l: int| 0 <= i < l < sig.plan.len() implies #[trigger] sig.rutas[i]
        != #[trigger] sig.rutas[l] && sig.puntos[i] != sig.puntos[l] by {
        if l == n {
            assert(est.rutas.contains(est.rutas[i]));
            assert(est.puntos.contains(est.puntos[i]));
        }
    }
    assert forall|j: int, l: int|
        0 <= j < l < m + 1 && (#[trigger] todas[j]).punto_montaje is Some
            && (#[trigger] todas[l]).punto_montaje is Some implies todas[j].punto_montaje
        != todas[l].punto_montaje && todas[j].particion != todas[l].particion by {
        if l == m {
            assert(destino(d, todas, est, j));
            let i = choose|i: int|
                0 <= i < est.plan.len() && todas[j].punto_montaje == Some(#[trigger] est.puntos[i])
                    && todas[j].particion == est.rutas[i] && corresponde(d, todas[j], est.plan[i]);
            assert(est.puntos.contains(est.puntos[i]));
            assert(est.rutas.contains(est.rutas[i]));
        }
    }
    if sig.puntos.contains("/"@) && !est.puntos.contains("/"@) {
        let i = choose|i: int| 0 <= i < sig.puntos.len() && sig.puntos[i] == "/"@;
        if i < n {
            assert(est.puntos[i] == "/"@);
        }
    }
    if est.puntos.contains("/"@) {
        let i = choose|i: int| 0 <= i < est.puntos.len() && est.puntos[i] == "/"@;
        assert(sig.puntos[i] == "/"@);
    }
    assert(sig.hay_raiz == sig.puntos.contains("/"@));
    assert(sig.plan.len() == sig.rutas.len() && sig.puntos.len() == sig.plan.len());
}

#[verifier::spinoff_prover]
proof fn lemma_geo_desde(
    d: VistaDisco,
    todas: Seq<VistaAsignacion>,
    m: int,
    est: EstadoManual,
    fs: SistemaArchivos,
    cifrar: bool,
)
    requires
        inv_geo(d, todas, m, est),
        manual_desde(d, todas.skip(m), est, fs, cifrar) is Ok,
    ensures
        inv_geo(d, todas, todas.len() as int, manual_desde(d, todas.skip(m), est, fs, cifrar)->Ok_0),
    decreases todas.len() - m,
{
    if m < todas.len() {
        let s = todas.skip(m);
        assert(s[0] == todas[m]);
        assert(s.drop_first() =~= todas.skip(m + 1));
        if todas[m].punto_montaje is None {
            assert forall|i: int| 0 <= i < est.plan.len() implies #[trigger] origen(d, todas, m + 1, est, i) by {
                assert(origen(d, todas, m, est, i));
                let j = choose|j: int|
                    0 <= j < m && (#[trigger] todas[j]).punto_montaje == Some(est.puntos[i])
                        && todas[j].particion == est.rutas[i] && corresponde(d, todas[j], est.plan[i]);
                assert(0 <= j < m + 1);
            }
            assert forall|j: int, l: int|
                0 <= j < l < m + 1 && (#[trigger] todas[j]).punto_montaje is Some
                    && (#[trigger] todas[l]).punto_montaje is Some implies todas[j].punto_montaje
                != todas[l].punto_montaje && todas[j].particion != todas[l].particion by {
                assert(l < m);
            }
            assert(inv_geo(d, todas, m + 1, est));
            lemma_geo_desde(d, todas, m + 1, est, fs, cifrar);
        } else {
            lemma_geo_paso(d, todas, m, est, fs, cifrar);
            lemma_geo_desde(d, todas, m + 1, paso_manual(d, todas[m], est, fs, cifrar)->Ok_0, fs, cifrar);
        }
    } else {
        assert(todas.skip(m) =~= seq![]);
    }
}

proof fn lemma_geo_orden(plan: Seq<VistaPlaneada>)
    ensures
        forall|i: int, k: int|
            0 <= i < k < ordenar(plan, por_inicio()).len() ==> (#[trigger] ordenar(plan, por_inicio())[i]).inicio_mib
                <= (#[trigger] ordenar(plan, por_inicio())[k]).inicio_mib,
{
    let menor_o_igual = |x: VistaPlaneada, y: VistaPlaneada| x.inicio_mib <= y.inicio_mib;
    lemma_ordenar_ordenada(plan, por_inicio(), menor_o_igual);
}

proof fn lemma_geo_sin_repetidos(d: VistaDisco, asignaciones: Seq<VistaAsignacion>, f: EstadoManual)
    requires
        inv_geo(d, asignaciones, asignaciones.len() as int, f),
    ensures
        f.plan.no_duplicates(),
        ordenar(f.plan, por_inicio()).no_duplicates(),
        forall|x: int| 0 <= x < f.plan.len() ==> (#[trigger] f.plan[x]).ruta == Some(f.rutas[x]),
        forall|i: int, k: int|
            0 <= i < ordenar(f.plan, por_inicio()).len() && 0 <= k < ordenar(f.plan, por_inicio()).len() && i != k
                ==> (#[trigger] ordenar(f.plan, por_inicio())[i]).ruta != (#[trigger] ordenar(f.plan, por_inicio())[k]).ruta,
{
    let n = asignaciones.len() as int;
    assert forall|x: int| 0 <= x < f.plan.len() implies (#[trigger] f.plan[x]).ruta == Some(f.rutas[x]) by {
        assert(origen(d, asignaciones, n, f, x));
    }
    assert forall|i: int, j: int| 0 <= i < f.plan.len() && 0 <= j < f.plan.len() && i != j implies f.plan[i]
        != f.plan[j] by {
        assert(f.plan[i].ruta == Some(f.rutas[i]));
        assert(f.plan[j].ruta == Some(f.rutas[j]));
        if i < j {
            assert(f.rutas[i] != f.rutas[j]);
        } else {
            assert(f.rutas[j] != f.rutas[i]);
        }
    }
    lemma_ordenar_sin_repetidos(f.plan, por_inicio());
    lemma_ordenar_contiene(f.plan, por_inicio());
    let ps = ordenar(f.plan, por_inicio());
    assert forall|i: int, k: int| 0 <= i < ps.len() && 0 <= k < ps.len() && i != k implies (#[trigger] ps[i]).ruta
        != (#[trigger] ps[k]).ruta by {
        assert(ps.contains(ps[i]));
        assert(ps.contains(ps[k]));
        let x = choose|x: int| 0 <= x < f.plan.len() && f.plan[x] == ps[i];
        let y = choose|y: int| 0 <= y < f.plan.len() && f.plan[y] == ps[k];
        assert(ps[i] != ps[k]);
        assert(f.plan[x].ruta == Some(f.rutas[x]));
        assert(f.plan[y].ruta == Some(f.rutas[y]));
        if x < y {
            assert(f.rutas[x] != f.rutas[y]);
        } else {
            assert(f.rutas[y] != f.rutas[x]);
        }
    }
}

proof fn lemma_geo_ida_y_vuelta(d: VistaDisco, asignaciones: Seq<VistaAsignacion>, f: EstadoManual)
    requires
        inv_geo(d, asignaciones, asignaciones.len() as int, f),
    ensures
        forall|i: int|
            0 <= i < ordenar(f.plan, por_inicio()).len() ==> pedida(
                d,
                asignaciones,
                #[trigger] ordenar(f.plan, por_inicio())[i],
            ),
        forall|j: int|
            0 <= j < asignaciones.len() && (#[trigger] asignaciones[j]).punto_montaje is Some
                ==> tiene_la_suya(d, asignaciones[j], ordenar(f.plan, por_inicio())),
{
    let n = asignaciones.len() as int;
    lemma_ordenar_contiene(f.plan, por_inicio());
    let ps = ordenar(f.plan, por_inicio());
    assert forall|i: int| 0 <= i < ps.len() implies pedida(d, asignaciones, #[trigger] ps[i]) by {
        assert(ps.contains(ps[i]));
        let x = choose|x: int| 0 <= x < f.plan.len() && f.plan[x] == ps[i];
        assert(origen(d, asignaciones, n, f, x));
        let j = choose|j: int|
            0 <= j < n && (#[trigger] asignaciones[j]).punto_montaje == Some(f.puntos[x])
                && asignaciones[j].particion == f.rutas[x] && corresponde(d, asignaciones[j], f.plan[x]);
        assert(asignaciones[j].punto_montaje is Some && corresponde(d, asignaciones[j], ps[i]));
    }
    assert forall|j: int|
        0 <= j < asignaciones.len() && (#[trigger] asignaciones[j]).punto_montaje is Some implies tiene_la_suya(
        d,
        asignaciones[j],
        ps,
    ) by {
        assert(destino(d, asignaciones, f, j));
        let x = choose|x: int|
            0 <= x < f.plan.len() && asignaciones[j].punto_montaje == Some(#[trigger] f.puntos[x])
                && asignaciones[j].particion == f.rutas[x] && corresponde(d, asignaciones[j], f.plan[x]);
        assert(f.plan.contains(f.plan[x]));
        assert(ps.contains(f.plan[x]));
        let i = choose|i: int| 0 <= i < ps.len() && ps[i] == f.plan[x];
        assert(corresponde(d, asignaciones[j], ps[i]));
    }
}

proof fn lemma_geo_raiz(d: VistaDisco, asignaciones: Seq<VistaAsignacion>, f: EstadoManual)
    requires
        inv_geo(d, asignaciones, asignaciones.len() as int, f),
        f.hay_raiz,
    ensures
        exists|i: int|
            0 <= i < ordenar(f.plan, por_inicio()).len() && (#[trigger] ordenar(f.plan, por_inicio())[i]).rol
                == Rol::Raiz,
        forall|i: int, k: int|
            0 <= i < ordenar(f.plan, por_inicio()).len() && 0 <= k < ordenar(f.plan, por_inicio()).len()
                && (#[trigger] ordenar(f.plan, por_inicio())[i]).rol == Rol::Raiz
                && (#[trigger] ordenar(f.plan, por_inicio())[k]).rol == Rol::Raiz ==> i == k,
{
    let n = asignaciones.len() as int;
    lemma_geo_sin_repetidos(d, asignaciones, f);
    lemma_ordenar_contiene(f.plan, por_inicio());
    let ps = ordenar(f.plan, por_inicio());
    let r = choose|r: int| 0 <= r < f.puntos.len() && f.puntos[r] == "/"@;
    assert(origen(d, asignaciones, n, f, r));
    assert(f.plan[r].rol == Rol::Raiz);
    assert(f.plan.contains(f.plan[r]));
    assert(ps.contains(f.plan[r]));
    let ir = choose|i: int| 0 <= i < ps.len() && ps[i] == f.plan[r];
    assert(ps[ir].rol == Rol::Raiz);
    assert forall|i: int, k: int|
        0 <= i < ps.len() && 0 <= k < ps.len() && (#[trigger] ps[i]).rol == Rol::Raiz
            && (#[trigger] ps[k]).rol == Rol::Raiz implies i == k by {
        assert(ps.contains(ps[i]));
        assert(ps.contains(ps[k]));
        let x = choose|x: int| 0 <= x < f.plan.len() && f.plan[x] == ps[i];
        let y = choose|y: int| 0 <= y < f.plan.len() && f.plan[y] == ps[k];
        assert(origen(d, asignaciones, n, f, x));
        assert(origen(d, asignaciones, n, f, y));
        assert(f.puntos[x] == "/"@ && f.puntos[y] == "/"@);
        if x < y {
            assert(f.puntos[x] != f.puntos[y]);
        } else if y < x {
            assert(f.puntos[y] != f.puntos[x]);
        }
        if i != k {
            assert(ps[i] != ps[k]);
        }
    }
}

proof fn lemma_geo_arranque(d: VistaDisco, asignaciones: Seq<VistaAsignacion>, f: EstadoManual)
    requires
        inv_geo(d, asignaciones, asignaciones.len() as int, f),
        f.puntos.contains("/boot"@),
    ensures
        exists|j: int|
            0 <= j < asignaciones.len() && (#[trigger] asignaciones[j]).punto_montaje == Some("/boot"@),
        forall|j: int, l: int|
            0 <= j < asignaciones.len() && 0 <= l < asignaciones.len()
                && (#[trigger] asignaciones[j]).punto_montaje == Some("/boot"@)
                && (#[trigger] asignaciones[l]).punto_montaje == Some("/boot"@) ==> j == l,
{
    let n = asignaciones.len() as int;
    let b = choose|b: int| 0 <= b < f.puntos.len() && f.puntos[b] == "/boot"@;
    assert(origen(d, asignaciones, n, f, b));
    assert forall|j: int, l: int|
        0 <= j < asignaciones.len() && 0 <= l < asignaciones.len()
            && (#[trigger] asignaciones[j]).punto_montaje == Some("/boot"@)
            && (#[trigger] asignaciones[l]).punto_montaje == Some("/boot"@) implies j == l by {
        if j < l {
            assert(asignaciones[j].punto_montaje != asignaciones[l].punto_montaje);
        } else if l < j {
            assert(asignaciones[l].punto_montaje != asignaciones[j].punto_montaje);
        }
    }
}

/// **En el modo manual cada asignación es una partición, tal como está en el
/// disco.** En todo plan manual, en cualquier disco: el disco no se borra, el
/// firmware es UEFI, el plan va en orden de posición, cada partición del plan
/// es la que pidió una asignación con punto de montaje —misma ruta, misma
/// geometría, formateada o conservada según se pidió—, cada asignación con
/// punto de montaje tiene la suya, hay tantas particiones como asignaciones
/// con punto de montaje, ninguna ruta se repite, hay una raíz y una sola, y
/// exactamente una asignación va a `/boot`. Las asignaciones sin
/// punto de montaje no aparecen.
pub proof fn en_manual_cada_asignacion_es_una_particion(
    d: VistaDisco,
    asignaciones: Seq<VistaAsignacion>,
    firmware: Firmware,
    fs: SistemaArchivos,
    cifrar: bool,
)
    requires
        plan_manual(d, asignaciones, firmware, fs, cifrar) is Ok,
    ensures
        ({
            let plan = plan_manual(d, asignaciones, firmware, fs, cifrar)->Ok_0;
            let ps = plan.particiones;
            &&& !plan.borrar_disco
            &&& firmware == Firmware::Uefi
            &&& ps.len() == con_punto(asignaciones, asignaciones.len() as int)
            &&& forall|i: int, k: int| 0 <= i < k < ps.len() ==> (#[trigger] ps[i]).inicio_mib <= (#[trigger] ps[k]).inicio_mib
            &&& forall|i: int| 0 <= i < ps.len() ==> pedida(d, asignaciones, #[trigger] ps[i])
            &&& forall|j: int|
                0 <= j < asignaciones.len() && (#[trigger] asignaciones[j]).punto_montaje is Some
                    ==> tiene_la_suya(d, asignaciones[j], ps)
            &&& forall|i: int, k: int| 0 <= i < k < ps.len() ==> (#[trigger] ps[i]).ruta != (#[trigger] ps[k]).ruta
            &&& exists|i: int| 0 <= i < ps.len() && (#[trigger] ps[i]).rol == Rol::Raiz
            &&& forall|i: int, k: int|
                0 <= i < ps.len() && 0 <= k < ps.len() && (#[trigger] ps[i]).rol == Rol::Raiz
                    && (#[trigger] ps[k]).rol == Rol::Raiz ==> i == k
            &&& exists|j: int|
                0 <= j < asignaciones.len() && (#[trigger] asignaciones[j]).punto_montaje == Some("/boot"@)
            &&& forall|j: int, l: int|
                0 <= j < asignaciones.len() && 0 <= l < asignaciones.len()
                    && (#[trigger] asignaciones[j]).punto_montaje == Some("/boot"@)
                    && (#[trigger] asignaciones[l]).punto_montaje == Some("/boot"@) ==> j == l
        }),
{
    let ini = estado_inicial();
    assert(asignaciones.skip(0) =~= asignaciones);
    assert(inv_geo(d, asignaciones, 0, ini));
    lemma_geo_desde(d, asignaciones, 0, ini, fs, cifrar);
    let f = manual_desde(d, asignaciones, ini, fs, cifrar)->Ok_0;
    let ps = plan_manual(d, asignaciones, firmware, fs, cifrar)->Ok_0.particiones;
    assert(ps == ordenar(f.plan, por_inicio()));
    lemma_geo_orden(f.plan);
    lemma_ordenar_contiene(f.plan, por_inicio());
    lemma_geo_sin_repetidos(d, asignaciones, f);
    lemma_geo_ida_y_vuelta(d, asignaciones, f);
    lemma_geo_raiz(d, asignaciones, f);
    lemma_geo_arranque(d, asignaciones, f);
}

/// **Sólo la raíz va cifrada.** En cualquier esquema, una partición del plan
/// va cifrada si y sólo si es la raíz y se pidió cifrar: el ESP nunca, y el
/// resto tampoco, porque no hay dónde pedir su frase al arrancar.
pub proof fn solo_la_raiz_va_cifrada(
    d: VistaDisco,
    esquema: EsquemaDisco,
    particion: Option<Seq<char>>,
    asignaciones: Seq<VistaAsignacion>,
    firmware: Firmware,
    fs: SistemaArchivos,
    cifrar: bool,
)
    requires
        plan_con(d, esquema, particion, asignaciones, firmware, fs, cifrar) is Ok,
    ensures
        solo_la_raiz_cifrada(
            plan_con(d, esquema, particion, asignaciones, firmware, fs, cifrar)->Ok_0.particiones,
            cifrar,
        ),
{
    match esquema {
        EsquemaDisco::BorrarTodo => {},
        EsquemaDisco::Manual => en_manual_solo_la_raiz_va_cifrada(d, asignaciones, firmware, fs, cifrar),
        _ => lemma_dos_cifrado(d, esquema, particion, asignaciones, firmware, fs, cifrar),
    }
}

/// **Un ESP que ya existía nunca se formatea.** Ninguna partición del plan
/// que nombre un ESP del disco lo formatea: es lo que separa un dual boot que
/// anda de un Windows que ya no arranca. En el modo manual vale cuando no se
/// pidió formatear un ESP.
pub proof fn un_esp_ajeno_nunca_se_formatea(
    d: VistaDisco,
    esquema: EsquemaDisco,
    particion: Option<Seq<char>>,
    asignaciones: Seq<VistaAsignacion>,
    firmware: Firmware,
    fs: SistemaArchivos,
    cifrar: bool,
)
    requires
        disco_bien_formado(d),
        plan_con(d, esquema, particion, asignaciones, firmware, fs, cifrar) is Ok,
        esquema == EsquemaDisco::Manual ==> no_formatea_esp(d, asignaciones),
    ensures
        esp_ajeno_intacto(
            plan_con(d, esquema, particion, asignaciones, firmware, fs, cifrar)->Ok_0.particiones,
            d,
        ),
{
    match esquema {
        EsquemaDisco::BorrarTodo => {},
        EsquemaDisco::Manual => lemma_plan_manual(d, asignaciones, firmware, fs, cifrar),
        _ => lemma_planes_de_dos(d, esquema, particion, asignaciones, firmware, fs, cifrar),
    }
}

/// **Ningún plan pisa lo que no declara, ni se sale del disco, ni se pisa a
/// sí mismo.** En un disco bien formado, todo plan que no borra la tabla está
/// en regla: lo que crea va en espacio libre, lo que conserva o formatea es
/// una partición que existe con su geometría exacta. Y en todo plan, borre o
/// no, cada partición empieza después de la tabla, termina antes de su copia
/// y no se solapa con otra del plan.
pub proof fn ningun_plan_pisa_lo_que_no_declara(
    d: VistaDisco,
    esquema: EsquemaDisco,
    particion: Option<Seq<char>>,
    asignaciones: Seq<VistaAsignacion>,
    firmware: Firmware,
    fs: SistemaArchivos,
    cifrar: bool,
)
    requires
        disco_bien_formado(d),
        plan_con(d, esquema, particion, asignaciones, firmware, fs, cifrar) is Ok,
    ensures
        ({
            let plan = plan_con(d, esquema, particion, asignaciones, firmware, fs, cifrar)->Ok_0;
            let ps = plan.particiones;
            &&& plan.borrar_disco || plan_respeta(ps, d)
            &&& forall|i: int| 0 <= i < ps.len() ==> en_el_disco(#[trigger] ps[i], d)
            &&& forall|i: int, j: int|
                0 <= i < ps.len() && 0 <= j < ps.len() && i != j ==> separadas(
                    #[trigger] ps[i],
                    #[trigger] ps[j],
                )
        }),
{
    match esquema {
        EsquemaDisco::BorrarTodo => borrar_el_disco_declara_todas_las_particiones(
            d,
            firmware,
            fs,
            cifrar,
        ),
        EsquemaDisco::Manual => lemma_plan_manual(d, asignaciones, firmware, fs, cifrar),
        EsquemaDisco::JuntoAOtroSistema => instalar_al_lado_no_destruye_nada(d, firmware, fs, cifrar),
        EsquemaDisco::SobreUnaParticion => sobre_una_particion_se_pierde_esa_y_nada_mas(
            d,
            particion->0,
            firmware,
            fs,
            cifrar,
        ),
    }
}

/// **Los subvolúmenes no se repiten** ni en nombre ni en punto de montaje, y
/// todos se montan en una ruta absoluta.
pub proof fn los_subvolumenes_no_se_repiten()
    ensures
        forall|i: int, j: int|
            0 <= i < j < subvolumenes_spec().len() ==> (#[trigger] subvolumenes_spec()[i]).0
                != (#[trigger] subvolumenes_spec()[j]).0 && subvolumenes_spec()[i].1
                != subvolumenes_spec()[j].1,
        forall|i: int|
            0 <= i < subvolumenes_spec().len() ==> (#[trigger] subvolumenes_spec()[i]).1.len() > 0
                && subvolumenes_spec()[i].1[0] == '/',
{
    reveal_strlit("@");
    reveal_strlit("@home");
    reveal_strlit("@root");
    reveal_strlit("@srv");
    reveal_strlit("@cache");
    reveal_strlit("@tmp");
    reveal_strlit("@log");
    reveal_strlit("/");
    reveal_strlit("/home");
    reveal_strlit("/root");
    reveal_strlit("/srv");
    reveal_strlit("/var/cache");
    reveal_strlit("/var/tmp");
    reveal_strlit("/var/log");
    let s = subvolumenes_spec();
    assert forall|i: int, j: int| 0 <= i < j < s.len() implies (#[trigger] s[i]).0 != (
    #[trigger] s[j]).0 && s[i].1 != s[j].1 by {
        if s[i].0 == s[j].0 {
            assert(s[i].0.len() == s[j].0.len());
            assert(s[i].0[1] == s[j].0[1]);
            assert(s[i].0[2] == s[j].0[2]);
        }
        if s[i].1 == s[j].1 {
            assert(s[i].1.len() == s[j].1.len());
            assert(s[i].1[1] == s[j].1[1]);
            assert(s[i].1[5] == s[j].1[5]);
        }
    }
}


// ── Los mensajes ────────────────────────────────────────────────────────────

/// Lo que se le dice a la persona cuando un disco no se puede usar.
pub open spec fn mensaje(e: VistaError) -> Seq<char> {
    match e {
        VistaError::Chico { tiene_gib, minimo_gib } => "el disco tiene "@ + decimal(
            tiene_gib as nat,
        ) + " GiB y hacen falta al menos "@ + decimal(minimo_gib as nat) + " GiB"@,
        VistaError::EnUso => "el disco está en uso"@,
        VistaError::Invalido => "el disco informa un tamaño o un sector inválidos"@,
        VistaError::SinEspacioLibre { mayor_hueco_gib } =>
            "no hay espacio libre suficiente: el hueco más grande es de "@ + decimal(
            mayor_hueco_gib as nat,
        ) + " GiB y hacen falta "@ + decimal(MINIMO_GIB as nat),
        VistaError::EspChico { tiene_mib, minimo_mib } =>
            "la partición EFI que ya existe tiene "@ + decimal(tiene_mib as nat)
                + " MiB y hacen falta al menos "@ + decimal(minimo_mib as nat),
        VistaError::SoloUefi =>
            "instalar junto a otro sistema sólo está disponible en equipos UEFI"@,
        VistaError::ParticionNoEsta { ruta } => "el disco ya no tiene la partición "@ + ruta,
        VistaError::ParticionDesalineada { ruta } => "la partición "@ + ruta
            + " no empieza y termina en un MiB entero, y rehacerla la movería"@,
        VistaError::ParticionEsElEsp { ruta } => ruta
            + " es la partición de arranque EFI: usarla como raíz dejaría el equipo sin arrancar"@,
        VistaError::PuntoDeMontajeDesconocido { punto } => "«"@ + punto
            + "» no es un punto de montaje que se pueda elegir: /, /boot, /home, /opt, /srv, /var"@,
        VistaError::AsignacionRepetida { que } => que + " está asignado dos veces"@,
        VistaError::SinRaiz => "falta elegir en qué partición va el sistema (/)"@,
        VistaError::SinArranque => "falta elegir la partición de arranque EFI (/boot)"@,
        VistaError::LaRaizSeFormatea =>
            "la partición del sistema tiene que formatearse: instalar encima de lo que ya hay deja dos sistemas mezclados"@,
        VistaError::ArranqueNoEsEsp { ruta } => ruta
            + " no es una partición de sistema EFI, y en UEFI el arranque tiene que serlo"@,
        VistaError::ParticionCifrada { ruta } => ruta
            + " está cifrada: todavía no se puede conservar y montar una partición cifrada que no sea la raíz"@,
    }
}

impl ErrorPlan {
    /// El mensaje para la persona.
    pub fn describir(&self) -> (r: String)
        ensures
            r@ == mensaje(self@),
    {
        let mut v: Vec<char> = Vec::new();
        match self {
            ErrorPlan::Chico { tiene_gib, minimo_gib } => {
                agregar(&mut v, "el disco tiene ");
                escribir_decimal(&mut v, *tiene_gib);
                agregar(&mut v, " GiB y hacen falta al menos ");
                escribir_decimal(&mut v, *minimo_gib);
                agregar(&mut v, " GiB");
            },
            ErrorPlan::EnUso => agregar(&mut v, "el disco está en uso"),
            ErrorPlan::Invalido => agregar(
                &mut v,
                "el disco informa un tamaño o un sector inválidos",
            ),
            ErrorPlan::SinEspacioLibre { mayor_hueco_gib } => {
                agregar(&mut v, "no hay espacio libre suficiente: el hueco más grande es de ");
                escribir_decimal(&mut v, *mayor_hueco_gib);
                agregar(&mut v, " GiB y hacen falta ");
                escribir_decimal(&mut v, MINIMO_GIB);
            },
            ErrorPlan::EspChico { tiene_mib, minimo_mib } => {
                agregar(&mut v, "la partición EFI que ya existe tiene ");
                escribir_decimal(&mut v, *tiene_mib);
                agregar(&mut v, " MiB y hacen falta al menos ");
                escribir_decimal(&mut v, *minimo_mib);
            },
            ErrorPlan::SoloUefi => agregar(
                &mut v,
                "instalar junto a otro sistema sólo está disponible en equipos UEFI",
            ),
            ErrorPlan::ParticionNoEsta { ruta } => {
                agregar(&mut v, "el disco ya no tiene la partición ");
                agregar(&mut v, ruta.as_str());
            },
            ErrorPlan::ParticionDesalineada { ruta } => {
                agregar(&mut v, "la partición ");
                agregar(&mut v, ruta.as_str());
                agregar(&mut v, " no empieza y termina en un MiB entero, y rehacerla la movería");
            },
            ErrorPlan::ParticionEsElEsp { ruta } => {
                agregar(&mut v, ruta.as_str());
                agregar(
                    &mut v,
                    " es la partición de arranque EFI: usarla como raíz dejaría el equipo sin arrancar",
                );
            },
            ErrorPlan::PuntoDeMontajeDesconocido { punto } => {
                agregar(&mut v, "«");
                agregar(&mut v, punto.as_str());
                agregar(
                    &mut v,
                    "» no es un punto de montaje que se pueda elegir: /, /boot, /home, /opt, /srv, /var",
                );
            },
            ErrorPlan::AsignacionRepetida { que } => {
                agregar(&mut v, que.as_str());
                agregar(&mut v, " está asignado dos veces");
            },
            ErrorPlan::SinRaiz => agregar(&mut v, "falta elegir en qué partición va el sistema (/)"),
            ErrorPlan::SinArranque => agregar(
                &mut v,
                "falta elegir la partición de arranque EFI (/boot)",
            ),
            ErrorPlan::LaRaizSeFormatea => agregar(
                &mut v,
                "la partición del sistema tiene que formatearse: instalar encima de lo que ya hay deja dos sistemas mezclados",
            ),
            ErrorPlan::ArranqueNoEsEsp { ruta } => {
                agregar(&mut v, ruta.as_str());
                agregar(
                    &mut v,
                    " no es una partición de sistema EFI, y en UEFI el arranque tiene que serlo",
                );
            },
            ErrorPlan::ParticionCifrada { ruta } => {
                agregar(&mut v, ruta.as_str());
                agregar(
                    &mut v,
                    " está cifrada: todavía no se puede conservar y montar una partición cifrada que no sea la raíz",
                );
            },
        }
        assert(v@ =~= mensaje(self@));
        cadena_de(v)
    }
}

} // verus!
