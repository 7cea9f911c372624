//! El idioma que hablan la interfaz y el ayudante privilegiado.
//!
//! Son dos procesos: la ventana corre como el usuario de la sesión live y el
//! ayudante corre como root. Entre los dos viaja una línea de JSON por mensaje.
//! Acá están los tipos de ese idioma; la forma en JSON la ponen las copias con
//! `serde` del lado de la aplicación, que convierten a estos y desde estos.

use vstd::prelude::*;

verus! {

/// Lo que la interfaz le pide al ayudante.
///
/// El `id` lo elige la interfaz y vuelve en la respuesta: sin él no se puede
/// saber a qué pregunta contesta una respuesta cuando hay dos en vuelo.
pub struct Peticion {
    pub id: u64,
    pub cuerpo: CuerpoPeticion,
}

pub enum CuerpoPeticion {
    /// Los discos del equipo, con sus particiones actuales.
    SondearDiscos,
    /// Firmware (UEFI o BIOS), memoria, CPU y si hay red.
    SondearSistema,
    /// Arranca la instalación. Es el punto sin retorno.
    Instalar(Box<PlanInstalacion>),
    /// Corta una instalación en curso. No deshace lo hecho.
    Cancelar,
}

/// Cómo se usa el disco.
#[derive(Debug, Clone, Copy, PartialEq, Eq, Structural)]
pub enum EsquemaDisco {
    /// Borra el disco entero y arma la tabla de cero.
    BorrarTodo,
    /// Se instala en el espacio libre, sin tocar lo que ya está.
    JuntoAOtroSistema,
    /// Se formatea una partición que ya existe y sólo ésa.
    SobreUnaParticion,
    /// Cada partición se asigna a mano.
    Manual,
}

#[derive(Debug, Clone, Copy, PartialEq, Eq, Structural)]
pub enum SistemaArchivos {
    Btrfs,
    Ext4,
    Xfs,
}

/// El nombre que usa archinstall en `fs_type`.
pub open spec fn nombre_archinstall(fs: SistemaArchivos) -> Seq<char> {
    match fs {
        SistemaArchivos::Btrfs => "btrfs"@,
        SistemaArchivos::Ext4 => "ext4"@,
        SistemaArchivos::Xfs => "xfs"@,
    }
}

impl SistemaArchivos {
    /// El nombre que usa archinstall en `fs_type`.
    pub fn como_archinstall(self) -> (r: &'static str)
        ensures
            r@ == nombre_archinstall(self),
    {
        match self {
            SistemaArchivos::Btrfs => "btrfs",
            SistemaArchivos::Ext4 => "ext4",
            SistemaArchivos::Xfs => "xfs",
        }
    }
}

/// Una partición elegida a mano en el modo manual.
#[derive(Debug, Clone)]
pub struct AsignacionManual {
    /// La ruta de la partición (`/dev/sda3`).
    pub particion: String,
    /// Dónde se monta. `None` es «dejala como está».
    pub punto_montaje: Option<String>,
    /// Si se formatea o se conserva con lo que tiene.
    pub formatear: bool,
}

/// Lo que se sabe de una asignación, como valores.
pub struct VistaAsignacion {
    pub particion: Seq<char>,
    pub punto_montaje: Option<Seq<char>>,
    pub formatear: bool,
}

pub open spec fn vista_texto(o: Option<String>) -> Option<Seq<char>> {
    match o {
        Some(s) => Some(s@),
        None => None,
    }
}

impl View for AsignacionManual {
    type V = VistaAsignacion;

    open spec fn view(&self) -> VistaAsignacion {
        VistaAsignacion {
            particion: self.particion@,
            punto_montaje: vista_texto(self.punto_montaje),
            formatear: self.formatear,
        }
    }
}

/// Todo lo que la interfaz juntó, en la forma en que la interfaz lo piensa.
///
/// No es el JSON de archinstall: ese se arma a partir de esto.
#[derive(Clone)]
pub struct PlanInstalacion {
    /// Ruta del disco a usar, tal como la devolvió el sondeo.
    pub disco: String,
    pub esquema: EsquemaDisco,
    /// La partición elegida con `SobreUnaParticion`.
    pub particion_destino: Option<String>,
    /// Las asignaciones del modo manual.
    pub asignaciones: Vec<AsignacionManual>,
    pub sistema_archivos: SistemaArchivos,
    /// Cifrado LUKS de la raíz. La frase va aparte, en `secretos`.
    pub cifrar: bool,
    /// zram en lugar de partición de intercambio.
    pub zram: bool,
    pub zona_horaria: String,
    /// Local del sistema sin el `.UTF-8` (`es_AR`).
    pub idioma_sistema: String,
    pub teclado: String,
    pub ntp: bool,
    pub hostname: String,
    pub nombre_completo: String,
    pub usuario: String,
    /// Si el usuario va al grupo `wheel` y a sudoers.
    pub administrador: bool,
    /// Cuenta de root habilitada.
    pub root_habilitado: bool,
    /// Los identificadores de los complementos elegidos.
    pub complementos: Vec<String>,
    /// Contraseñas en claro. Nunca van a un archivo.
    pub secretos: Secretos,
}

/// Aparte del resto para que sea evidente qué campos no se pueden registrar.
///
/// No tiene `Debug`: la petición entera se registra cuando algo falla, y un
/// `Debug` derivado pondría las contraseñas ahí.
#[derive(Clone, Default)]
pub struct Secretos {
    pub usuario: String,
    pub root: String,
    /// Frase del volumen LUKS. Vacía si no se cifra.
    pub cifrado: String,
}

/// Cómo se muestran los secretos en un registro: con los campos y sin los
/// valores.
pub open spec fn secretos_ocultos() -> Seq<char> {
    "Secretos { usuario: \"(oculto)\", root: \"(oculto)\", cifrado: \"(oculto)\" }"@
}

impl Secretos {
    /// Los secretos como se registran: la petición entera se anota cuando algo
    /// falla, y ninguna contraseña puede quedar en esa anotación.
    pub fn describir(&self) -> (r: String)
        ensures
            r@ == secretos_ocultos(),
    {
        crate::texto::cadena(
            "Secretos { usuario: \"(oculto)\", root: \"(oculto)\", cifrado: \"(oculto)\" }",
        )
    }
}

#[derive(Debug, Clone, Copy, PartialEq, Eq, Structural)]
pub enum Nivel {
    Info,
    Warn,
    Error,
}

/// Los pasos de la instalación, en orden.
#[derive(Debug, Clone, Copy, PartialEq, Eq, Structural)]
pub enum Paso {
    /// Escribir la tabla de particiones y formatear.
    Particionar,
    /// Montar el destino en el orden correcto.
    Montar,
    /// Elegir espejos y sumar el repositorio de VasakOS.
    Espejos,
    /// pacstrap del sistema base. El paso largo.
    SistemaBase,
    /// Los paquetes del escritorio de VasakOS.
    Escritorio,
    /// initramfs, GRUB y la entrada de arranque.
    Arranque,
    /// Cuentas, contraseñas y grupos.
    Usuarios,
    /// Zona horaria, teclado, local, red y servicios.
    Configuracion,
    /// Los ajustes propios de VasakOS sobre el sistema instalado.
    Vasakos,
    /// Desmontar y cerrar.
    Cierre,
}

/// La clave del catálogo de idioma de cada paso.
pub open spec fn clave_de(p: Paso) -> Seq<char> {
    match p {
        Paso::Particionar => "particionar"@,
        Paso::Montar => "montar"@,
        Paso::Espejos => "espejos"@,
        Paso::SistemaBase => "sistemaBase"@,
        Paso::Escritorio => "escritorio"@,
        Paso::Arranque => "arranque"@,
        Paso::Usuarios => "usuarios"@,
        Paso::Configuracion => "configuracion"@,
        Paso::Vasakos => "vasakos"@,
        Paso::Cierre => "cierre"@,
    }
}

/// Los pasos en el orden real de ejecución.
pub open spec fn pasos_en_orden() -> Seq<Paso> {
    seq![
        Paso::Particionar,
        Paso::Montar,
        Paso::Espejos,
        Paso::SistemaBase,
        Paso::Escritorio,
        Paso::Arranque,
        Paso::Usuarios,
        Paso::Configuracion,
        Paso::Vasakos,
        Paso::Cierre,
    ]
}

impl Paso {
    /// En orden. La interfaz la usa para armar la lista y para saber cuánto
    /// falta; el orden acá es el orden real de ejecución.
    pub const TODOS: [Paso; 10] = [
        Paso::Particionar,
        Paso::Montar,
        Paso::Espejos,
        Paso::SistemaBase,
        Paso::Escritorio,
        Paso::Arranque,
        Paso::Usuarios,
        Paso::Configuracion,
        Paso::Vasakos,
        Paso::Cierre,
    ];

    /// La clave del catálogo de idioma. La interfaz la resuelve con `t()`.
    pub fn clave(self) -> (r: &'static str)
        ensures
            r@ == clave_de(self),
    {
        match self {
            Paso::Particionar => "particionar",
            Paso::Montar => "montar",
            Paso::Espejos => "espejos",
            Paso::SistemaBase => "sistemaBase",
            Paso::Escritorio => "escritorio",
            Paso::Arranque => "arranque",
            Paso::Usuarios => "usuarios",
            Paso::Configuracion => "configuracion",
            Paso::Vasakos => "vasakos",
            Paso::Cierre => "cierre",
        }
    }
}

/// Las claves de los pasos, en orden: lo que la interfaz usa para armar la
/// lista de la barra de progreso.
pub fn pasos_de_instalacion() -> (r: Vec<&'static str>)
    ensures
        r@.len() == pasos_en_orden().len(),
        forall|i: int| 0 <= i < r@.len() ==> (#[trigger] r@[i])@ == clave_de(pasos_en_orden()[i]),
{
    let todos = [
        Paso::Particionar,
        Paso::Montar,
        Paso::Espejos,
        Paso::SistemaBase,
        Paso::Escritorio,
        Paso::Arranque,
        Paso::Usuarios,
        Paso::Configuracion,
        Paso::Vasakos,
        Paso::Cierre,
    ];
    assert(todos@ =~= pasos_en_orden());
    let mut r: Vec<&'static str> = Vec::new();
    let mut i: usize = 0;
    while i < 10
        invariant
            i <= 10,
            todos@ == pasos_en_orden(),
            r@.len() == i,
            forall|j: int| 0 <= j < i ==> (#[trigger] r@[j])@ == clave_de(pasos_en_orden()[j]),
        decreases 10 - i,
    {
        r.push(todos[i].clave());
        i = i + 1;
    }
    r
}

/// **Cada paso tiene una clave propia**: dos pasos distintos nunca comparten
/// la clave del catálogo, así que la lista que arma la interfaz no repite
/// ninguno.
pub proof fn las_claves_de_los_pasos_son_distintas(a: Paso, b: Paso)
    requires
        a != b,
    ensures
        clave_de(a) != clave_de(b),
{
    reveal_strlit("particionar");
    reveal_strlit("montar");
    reveal_strlit("espejos");
    reveal_strlit("sistemaBase");
    reveal_strlit("escritorio");
    reveal_strlit("arranque");
    reveal_strlit("usuarios");
    reveal_strlit("configuracion");
    reveal_strlit("vasakos");
    reveal_strlit("cierre");
    if clave_de(a) == clave_de(b) {
        assert(clave_de(a).len() == clave_de(b).len());
        assert(clave_de(a)[0] == clave_de(b)[0]);
        assert(clave_de(a)[1] == clave_de(b)[1]);
        assert(clave_de(a)[2] == clave_de(b)[2]);
    }
}

/// **Los pasos en orden son todos, y cada uno una sola vez.**
pub proof fn los_pasos_estan_una_vez()
    ensures
        pasos_en_orden().len() == 10,
        forall|i: int, j: int|
            0 <= i < j < 10 ==> #[trigger] pasos_en_orden()[i] != #[trigger] pasos_en_orden()[j],
        forall|p: Paso| #[trigger] pasos_en_orden().contains(p),
{
    assert forall|p: Paso| #[trigger] pasos_en_orden().contains(p) by {
        let s = pasos_en_orden();
        match p {
            Paso::Particionar => assert(s[0] == p),
            Paso::Montar => assert(s[1] == p),
            Paso::Espejos => assert(s[2] == p),
            Paso::SistemaBase => assert(s[3] == p),
            Paso::Escritorio => assert(s[4] == p),
            Paso::Arranque => assert(s[5] == p),
            Paso::Usuarios => assert(s[6] == p),
            Paso::Configuracion => assert(s[7] == p),
            Paso::Vasakos => assert(s[8] == p),
            Paso::Cierre => assert(s[9] == p),
        }
    }
}

#[derive(Debug, Clone, Copy, PartialEq, Eq, Structural)]
pub enum EstadoPaso {
    Pendiente,
    EnCurso,
    Hecho,
    Fallado,
}

/// Los eventos que escucha la interfaz. Son contrato con ella: cambiar uno
/// acá sin cambiarlo allá deja la barra de progreso quieta sin ningún error.
pub const EVENTO_PROGRESO: &'static str = "instalacion://progreso";
pub const EVENTO_REGISTRO: &'static str = "instalacion://registro";
pub const EVENTO_FIN: &'static str = "instalacion://fin";
/// El ayudante murió sin haber terminado.
pub const EVENTO_CAIDO: &'static str = "instalacion://ayudante-caido";

} // verus!
