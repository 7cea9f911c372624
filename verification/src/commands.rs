//! Lo que la interfaz le pide a la ventana y se decide sin privilegios.
//!
//! La vista previa del particionado sale de acá a propósito: la persona tiene
//! que poder ver exactamente qué particiones se van a crear antes de que exista
//! un proceso root en la máquina, y lo que ve sale de la misma función que
//! después ejecuta el ayudante.

use vstd::prelude::*;

use crate::archconfig::{nombre_firmware, vista_opcional, vista_texto_opcional};
use crate::complementos::vistas_textos;
use crate::layout::{
    mensaje, plan_de_borrado, planificar, vista_fija, vistas_planeadas, Disco, Firmware,
    ParticionPlaneada, Rol, VistaDisco, VistaError, VistaParticion, VistaPlaneada, GIB, MIB,
};
use crate::orden::{lemma_primera, primera};
use crate::protocol::{PlanInstalacion, SistemaArchivos};
use crate::texto::{agregar, cadena, cadena_de, iguales};
use crate::validar::{
    depuracion, error_de_equipo, error_de_usuario, idioma, idioma_spec, nombre_de_equipo,
    nombre_de_usuario, teclado, teclado_spec, vista_texto_res, vistas_cadenas, zona_horaria,
    veredicto_zona_spec,
};

verus! {

broadcast use vstd::string::group_string_axioms;

/// Las listas que la interfaz ofrece en los desplegables.
#[derive(Debug)]
pub struct Catalogos {
    pub zonas: Vec<String>,
    pub idiomas: Vec<String>,
    pub teclados: Vec<String>,
}

/// Una partición del plan, en la forma que muestra el resumen.
///
/// Los tamaños van en bytes y no formateados: el formato es cosa de la
/// interfaz, que sabe en qué idioma está.
#[derive(Debug)]
pub struct ParticionVistaPrevia {
    pub rol: String,
    pub inicio_bytes: u64,
    pub tamano_bytes: u64,
    pub sistema_archivos: Option<String>,
    pub punto_montaje: Option<String>,
    pub opciones_montaje: Vec<String>,
    pub subvolumenes: Vec<String>,
    pub cifrada: bool,
}

#[derive(Debug)]
pub struct VistaPrevia {
    pub firmware: String,
    pub particiones: Vec<ParticionVistaPrevia>,
    /// Lo que se va a perder, para que el resumen lo pueda enumerar en vez de
    /// decir «se borrará todo» y esperar que se crea.
    pub se_pierde: Vec<String>,
}

pub struct VistaParticionPrevia {
    pub rol: Seq<char>,
    pub inicio_bytes: u64,
    pub tamano_bytes: u64,
    pub sistema_archivos: Option<Seq<char>>,
    pub punto_montaje: Option<Seq<char>>,
    pub opciones_montaje: Seq<Seq<char>>,
    pub subvolumenes: Seq<Seq<char>>,
    pub cifrada: bool,
}

impl View for ParticionVistaPrevia {
    type V = VistaParticionPrevia;

    open spec fn view(&self) -> VistaParticionPrevia {
        VistaParticionPrevia {
            rol: self.rol@,
            inicio_bytes: self.inicio_bytes,
            tamano_bytes: self.tamano_bytes,
            sistema_archivos: vista_texto_opcional(self.sistema_archivos),
            punto_montaje: vista_texto_opcional(self.punto_montaje),
            opciones_montaje: vistas_textos(self.opciones_montaje@),
            subvolumenes: vistas_textos(self.subvolumenes@),
            cifrada: self.cifrada,
        }
    }
}

pub struct VistaResumen {
    pub firmware: Seq<char>,
    pub particiones: Seq<VistaParticionPrevia>,
    pub se_pierde: Seq<Seq<char>>,
}

impl View for VistaPrevia {
    type V = VistaResumen;

    open spec fn view(&self) -> VistaResumen {
        VistaResumen {
            firmware: self.firmware@,
            particiones: self.particiones@.map_values(|p: ParticionVistaPrevia| p@),
            se_pierde: vistas_textos(self.se_pierde@),
        }
    }
}

/// Cómo se nombra el papel de cada partición en el resumen.
pub open spec fn rol_spec(r: Rol) -> Seq<char> {
    match r {
        Rol::Esp => "esp"@,
        Rol::Raiz => "raiz"@,
        Rol::Datos => "datos"@,
    }
}

/// Un subvolumen como se lee en el resumen: `@home → /home`.
pub open spec fn subvolumen_spec(s: (Seq<char>, Seq<char>)) -> Seq<char> {
    s.0 + " → "@ + s.1
}

/// Una partición del plan, como la muestra el resumen.
pub open spec fn particion_previa_spec(p: VistaPlaneada) -> VistaParticionPrevia {
    VistaParticionPrevia {
        rol: rol_spec(p.rol),
        inicio_bytes: (p.inicio_mib * MIB) as u64,
        tamano_bytes: (p.tamano_mib * MIB) as u64,
        sistema_archivos: p.sistema_archivos,
        punto_montaje: p.punto_montaje,
        opciones_montaje: p.opciones_montaje,
        subvolumenes: p.subvolumenes.map_values(|s: (Seq<char>, Seq<char>)| subvolumen_spec(s)),
        cifrada: p.cifrada,
    }
}

/// Lo que se pierde de una partición, con el sistema operativo primero:
/// «Windows 11» dice mucho más que «ntfs», y es lo que hace que alguien se
/// detenga a mirar.
pub open spec fn perdida_spec(p: VistaParticion) -> Seq<char> {
    match (p.sistema_operativo, p.sistema_archivos) {
        (Some(os), _) => p.ruta + " — "@ + os,
        (None, Some(fs)) => p.ruta + " — "@ + fs,
        (None, None) => p.ruta,
    }
}

pub open spec fn resumen_spec(d: VistaDisco, firmware: Firmware, plan: Seq<VistaPlaneada>) -> VistaResumen {
    VistaResumen {
        firmware: nombre_firmware(firmware),
        particiones: plan.map_values(|p: VistaPlaneada| particion_previa_spec(p)),
        se_pierde: d.particiones.map_values(|p: VistaParticion| perdida_spec(p)),
    }
}

/// Que cada partición del plan se pueda escribir en bytes.
pub open spec fn cabe_en_bytes(plan: Seq<VistaPlaneada>) -> bool {
    forall|i: int|
        0 <= i < plan.len() ==> (#[trigger] plan[i]).inicio_mib * MIB <= u64::MAX
            && plan[i].tamano_mib * MIB <= u64::MAX
}

fn texto_fijo(o: Option<&'static str>) -> (r: Option<String>)
    ensures
        vista_texto_opcional(r) == vista_fija(o),
{
    match o {
        Some(s) => Some(cadena(s)),
        None => None,
    }
}

fn copia_de_textos(v: &Vec<String>) -> (r: Vec<String>)
    ensures
        vistas_textos(r@) == vistas_textos(v@),
{
    let mut r: Vec<String> = Vec::new();
    let mut i: usize = 0;
    while i < v.len()
        invariant
            i <= v.len(),
            vistas_textos(r@) == vistas_textos(v@).take(i as int),
        decreases v.len() - i,
    {
        let ghost antes = r@;
        let x = cadena(v[i].as_str());
        r.push(x);
        assert(vistas_textos(r@) =~= vistas_textos(antes).push(x@));
        assert(vistas_textos(r@) =~= vistas_textos(v@).take(i as int + 1));
        i = i + 1;
    }
    assert(vistas_textos(v@).take(i as int) =~= vistas_textos(v@));
    r
}

fn particion_previa(p: &ParticionPlaneada) -> (r: ParticionVistaPrevia)
    requires
        p.inicio_mib * MIB <= u64::MAX,
        p.tamano_mib * MIB <= u64::MAX,
    ensures
        r@ == particion_previa_spec(p@),
{
    let rol = match p.rol {
        Rol::Esp => cadena("esp"),
        Rol::Raiz => cadena("raiz"),
        Rol::Datos => cadena("datos"),
    };
    let ghost subs = p@.subvolumenes;
    let mut subvolumenes: Vec<String> = Vec::new();
    let mut i: usize = 0;
    while i < p.subvolumenes.len()
        invariant
            i <= p.subvolumenes.len(),
            subs == p@.subvolumenes,
            subs.len() == p.subvolumenes.len(),
            vistas_textos(subvolumenes@) == subs.map_values(
                |s: (Seq<char>, Seq<char>)| subvolumen_spec(s),
            ).take(i as int),
        decreases p.subvolumenes.len() - i,
    {
        let (nombre, punto) = p.subvolumenes[i];
        assert(subs[i as int] == (nombre@, punto@));
        let mut v: Vec<char> = Vec::new();
        agregar(&mut v, nombre);
        agregar(&mut v, " → ");
        agregar(&mut v, punto);
        let x = cadena_de(v);
        let ghost antes = subvolumenes@;
        subvolumenes.push(x);
        assert(vistas_textos(subvolumenes@) =~= vistas_textos(antes).push(x@));
        assert(vistas_textos(subvolumenes@) =~= subs.map_values(
            |s: (Seq<char>, Seq<char>)| subvolumen_spec(s),
        ).take(i as int + 1));
        i = i + 1;
    }
    assert(subs.map_values(|s: (Seq<char>, Seq<char>)| subvolumen_spec(s)).take(i as int)
        =~= subs.map_values(|s: (Seq<char>, Seq<char>)| subvolumen_spec(s)));
    let opciones = copia_de_textos(&p.opciones_montaje);
    let r = ParticionVistaPrevia {
        rol,
        inicio_bytes: p.inicio_mib * MIB,
        tamano_bytes: p.tamano_mib * MIB,
        sistema_archivos: texto_fijo(p.sistema_archivos),
        punto_montaje: texto_fijo(p.punto_montaje),
        opciones_montaje: opciones,
        subvolumenes,
        cifrada: p.cifrada,
    };
    assert(r@.opciones_montaje =~= p@.opciones_montaje);
    r
}

fn perdida(p: &crate::layout::ParticionExistente) -> (r: String)
    ensures
        r@ == perdida_spec(p@),
{
    match (&p.sistema_operativo, &p.sistema_archivos) {
        (Some(os), _) => {
            let mut v: Vec<char> = Vec::new();
            agregar(&mut v, p.ruta.as_str());
            agregar(&mut v, " — ");
            agregar(&mut v, os.as_str());
            cadena_de(v)
        },
        (None, Some(fs)) => {
            let mut v: Vec<char> = Vec::new();
            agregar(&mut v, p.ruta.as_str());
            agregar(&mut v, " — ");
            agregar(&mut v, fs.as_str());
            cadena_de(v)
        },
        (None, None) => cadena(p.ruta.as_str()),
    }
}

/// Convierte el plan a lo que muestra el resumen.
///
/// Es aritmética pura, separada del sondeo de los discos: es lo que permite
/// comparar la vista previa contra el plan real con números conocidos.
pub fn vista_previa_de(disco: &Disco, firmware: Firmware, plan: &[ParticionPlaneada]) -> (r:
    VistaPrevia)
    requires
        cabe_en_bytes(vistas_planeadas(plan@)),
    ensures
        r@ == resumen_spec(disco@, firmware, vistas_planeadas(plan@)),
{
    let ghost vp = vistas_planeadas(plan@);
    let mut particiones: Vec<ParticionVistaPrevia> = Vec::new();
    let mut i: usize = 0;
    while i < plan.len()
        invariant
            i <= plan.len(),
            vp == vistas_planeadas(plan@),
            vp.len() == plan.len(),
            cabe_en_bytes(vp),
            particiones@.map_values(|p: ParticionVistaPrevia| p@) == vp.map_values(
                |p: VistaPlaneada| particion_previa_spec(p),
            ).take(i as int),
        decreases plan.len() - i,
    {
        assert(plan@[i as int]@ == vp[i as int]);
        let x = particion_previa(&plan[i]);
        let ghost antes = particiones@;
        particiones.push(x);
        assert(particiones@.map_values(|p: ParticionVistaPrevia| p@) =~= antes.map_values(
            |p: ParticionVistaPrevia| p@,
        ).push(x@));
        assert(particiones@.map_values(|p: ParticionVistaPrevia| p@) =~= vp.map_values(
            |p: VistaPlaneada| particion_previa_spec(p),
        ).take(i as int + 1));
        i = i + 1;
    }
    assert(vp.map_values(|p: VistaPlaneada| particion_previa_spec(p)).take(i as int) =~= vp.map_values(
        |p: VistaPlaneada| particion_previa_spec(p),
    ));
    let ghost dp = disco@.particiones;
    let mut se_pierde: Vec<String> = Vec::new();
    let mut j: usize = 0;
    while j < disco.particiones.len()
        invariant
            j <= disco.particiones.len(),
            dp == disco@.particiones,
            dp.len() == disco.particiones.len(),
            vistas_textos(se_pierde@) == dp.map_values(|p: VistaParticion| perdida_spec(p)).take(
                j as int,
            ),
        decreases disco.particiones.len() - j,
    {
        assert(disco.particiones@[j as int]@ == dp[j as int]);
        let x = perdida(&disco.particiones[j]);
        let ghost antes = se_pierde@;
        se_pierde.push(x);
        assert(vistas_textos(se_pierde@) =~= vistas_textos(antes).push(x@));
        assert(vistas_textos(se_pierde@) =~= dp.map_values(|p: VistaParticion| perdida_spec(p)).take(
            j as int + 1,
        ));
        j = j + 1;
    }
    assert(dp.map_values(|p: VistaParticion| perdida_spec(p)).take(j as int) =~= dp.map_values(
        |p: VistaParticion| perdida_spec(p),
    ));
    let firmware_texto = match firmware {
        Firmware::Uefi => cadena("uefi"),
        Firmware::Bios => cadena("bios"),
    };
    VistaPrevia { firmware: firmware_texto, particiones, se_pierde }
}

pub open spec fn vistas_discos(s: Seq<Disco>) -> Seq<VistaDisco> {
    s.map_values(|d: Disco| d@)
}

pub open spec fn con_ruta(ruta: Seq<char>) -> spec_fn(VistaDisco) -> bool {
    |d: VistaDisco| d.ruta == ruta
}

pub open spec fn vista_previa_resultado(r: Result<VistaPrevia, String>) -> Result<VistaResumen, Seq<char>> {
    match r {
        Ok(v) => Ok(v@),
        Err(e) => Err(e@),
    }
}

/// La vista previa de borrar el disco `ruta`, de entre los discos sondeados.
pub open spec fn vista_previa_spec(
    discos: Seq<VistaDisco>,
    ruta: Seq<char>,
    firmware: Firmware,
    fs: SistemaArchivos,
    cifrar: bool,
) -> Result<VistaResumen, Seq<char>> {
    let k = primera(discos, con_ruta(ruta));
    if k < 0 {
        Err("no se encontró el disco "@ + ruta)
    } else {
        match plan_de_borrado(discos[k], firmware, fs, cifrar) {
            Err(e) => Err(mensaje(e)),
            Ok(plan) => Ok(resumen_spec(discos[k], firmware, plan)),
        }
    }
}

proof fn lemma_el_borrado_cabe(d: VistaDisco, firmware: Firmware, fs: SistemaArchivos, cifrar: bool)
    ensures
        match plan_de_borrado(d, firmware, fs, cifrar) {
            Ok(plan) => cabe_en_bytes(plan),
            Err(_) => true,
        },
{
    match plan_de_borrado(d, firmware, fs, cifrar) {
        Ok(plan) => {
            let total = d.tamano_bytes / MIB;
            assert(total * MIB <= d.tamano_bytes) by (nonlinear_arith)
                requires
                    total == d.tamano_bytes / MIB,
                    MIB > 0,
            ;
            assert forall|i: int| 0 <= i < plan.len() implies (#[trigger] plan[i]).inicio_mib * MIB
                <= u64::MAX && plan[i].tamano_mib * MIB <= u64::MAX by {
                assert(plan[i].inicio_mib <= total && plan[i].tamano_mib <= total);
            }
        },
        Err(_) => {},
    }
}

/// Calcula qué particiones se van a crear en el disco elegido, sin crear
/// nada. Usa la misma función que después ejecuta el ayudante: un cálculo
/// distinto para mostrar y para hacer es un resumen que puede mentir.
pub fn vista_previa_particionado(
    discos: &[Disco],
    disco: &str,
    firmware: Firmware,
    fs: SistemaArchivos,
    cifrar: bool,
) -> (r: Result<VistaPrevia, String>)
    ensures
        vista_previa_resultado(r) == vista_previa_spec(vistas_discos(discos@), disco@, firmware, fs, cifrar),
{
    let ghost vd = vistas_discos(discos@);
    let mut k: usize = 0;
    while k < discos.len()
        invariant
            k <= discos.len(),
            vd == vistas_discos(discos@),
            vd.len() == discos.len(),
            forall|j: int| 0 <= j < k ==> !con_ruta(disco@)(#[trigger] vd[j]),
        ensures
            k <= discos.len(),
            vd == vistas_discos(discos@),
            vd.len() == discos.len(),
            forall|j: int| 0 <= j < k ==> !con_ruta(disco@)(#[trigger] vd[j]),
            k < discos.len() ==> con_ruta(disco@)(vd[k as int]),
        decreases discos.len() - k,
    {
        assert(discos@[k as int]@ == vd[k as int]);
        if iguales(discos[k].ruta.as_str(), disco) {
            break;
        }
        k = k + 1;
    }
    if k == discos.len() {
        proof {
            lemma_primera(vd, con_ruta(disco@), k as int);
        }
        let mut v: Vec<char> = Vec::new();
        agregar(&mut v, "no se encontró el disco ");
        agregar(&mut v, disco);
        return Err(cadena_de(v));
    }
    let elegido = &discos[k];
    proof {
        assert(discos@[k as int]@ == vd[k as int]);
        lemma_primera(vd, con_ruta(disco@), k as int);
        lemma_el_borrado_cabe(elegido@, firmware, fs, cifrar);
    }
    match planificar(elegido, firmware, fs, cifrar) {
        Err(e) => Err(e.describir()),
        Ok(plan) => Ok(vista_previa_de(elegido, firmware, plan.as_slice())),
    }
}

// ── La última palabra antes de instalar ─────────────────────────────────────

pub open spec fn vacio(s: Seq<char>) -> bool {
    s.len() == 0
}

/// Lo que se comprueba antes de mandar el plan al ayudante, en orden, con la
/// zona horaria ya comprobada contra el disco.
pub open spec fn revision_spec(
    usuario: Seq<char>,
    equipo: Seq<char>,
    zona: Result<(), Seq<char>>,
    idioma_sistema: Seq<char>,
    soportados: Option<Seq<char>>,
    mapa: Seq<char>,
    mapas: Seq<Seq<char>>,
    clave_usuario: Seq<char>,
    root_habilitado: bool,
    clave_root: Seq<char>,
    cifrar: bool,
    frase: Seq<char>,
) -> Result<(), Seq<char>> {
    match error_de_usuario(usuario) {
        Some(e) => Err("el nombre de usuario no es válido: "@ + depuracion(e)),
        None => match error_de_equipo(equipo) {
            Some(e) => Err("el nombre del equipo no es válido: "@ + depuracion(e)),
            None => match zona {
                Err(m) => Err("la zona horaria no es válida: "@ + m),
                Ok(()) => match idioma_spec(idioma_sistema, soportados) {
                    Err(m) => Err("el idioma del sistema no es válido: "@ + m),
                    Ok(()) => match teclado_spec(mapa, mapas) {
                        Err(m) => Err("la distribución de teclado no es válida: "@ + m),
                        Ok(()) => if vacio(clave_usuario) {
                            Err("falta la contraseña del usuario"@)
                        } else if root_habilitado && vacio(clave_root) {
                            Err("se habilitó root pero falta su contraseña"@)
                        } else if cifrar && vacio(frase) {
                            Err("se pidió cifrado pero falta la frase"@)
                        } else {
                            Ok(())
                        },
                    },
                },
            },
        },
    }
}

pub open spec fn revision_del_plan(
    plan: &PlanInstalacion,
    zona: Result<(), Seq<char>>,
    soportados: Option<Seq<char>>,
    mapas: Seq<Seq<char>>,
) -> Result<(), Seq<char>> {
    revision_spec(
        plan.usuario@,
        plan.hostname@,
        zona,
        plan.idioma_sistema@,
        soportados,
        plan.teclado@,
        mapas,
        plan.secretos.usuario@,
        plan.root_habilitado,
        plan.secretos.root@,
        plan.cifrar,
        plan.secretos.cifrado@,
    )
}

fn con_prefijo(prefijo: &str, resto: &str) -> (r: String)
    ensures
        r@ == prefijo@ + resto@,
{
    let mut v: Vec<char> = Vec::new();
    agregar(&mut v, prefijo);
    agregar(&mut v, resto);
    cadena_de(v)
}

/// Lo que se comprueba antes de instalar, con el veredicto de la zona horaria
/// ya tomado.
///
/// Se vuelve a validar aunque la interfaz ya lo haya hecho: lo que valida la
/// interfaz es para decirlo mientras se escribe, y esto es lo que decide. Un
/// nombre inválido que pase de acá lo rechaza `useradd` con el disco ya
/// formateado.
pub fn revisar_plan_con(
    plan: &PlanInstalacion,
    zona: Result<(), String>,
    soportados: Option<&str>,
    mapas: &[String],
) -> (r: Result<(), String>)
    ensures
        vista_texto_res(r) == revision_del_plan(
            plan,
            vista_texto_res(zona),
            vista_opcional(soportados),
            vistas_cadenas(mapas@),
        ),
{
    match nombre_de_usuario(plan.usuario.as_str()) {
        Err(e) => {
            return Err(con_prefijo("el nombre de usuario no es válido: ", e.depurar().as_str()));
        },
        Ok(()) => {},
    }
    match nombre_de_equipo(plan.hostname.as_str()) {
        Err(e) => {
            return Err(con_prefijo("el nombre del equipo no es válido: ", e.depurar().as_str()));
        },
        Ok(()) => {},
    }
    match zona {
        Err(m) => {
            return Err(con_prefijo("la zona horaria no es válida: ", m.as_str()));
        },
        Ok(()) => {},
    }
    match idioma(plan.idioma_sistema.as_str(), soportados) {
        Err(m) => {
            return Err(con_prefijo("el idioma del sistema no es válido: ", m.as_str()));
        },
        Ok(()) => {},
    }
    match teclado(plan.teclado.as_str(), mapas) {
        Err(m) => {
            return Err(con_prefijo("la distribución de teclado no es válida: ", m.as_str()));
        },
        Ok(()) => {},
    }
    if plan.secretos.usuario.as_str().is_empty() {
        return Err(cadena("falta la contraseña del usuario"));
    }
    if plan.root_habilitado && plan.secretos.root.as_str().is_empty() {
        return Err(cadena("se habilitó root pero falta su contraseña"));
    }
    if plan.cifrar && plan.secretos.cifrado.as_str().is_empty() {
        return Err(cadena("se pidió cifrado pero falta la frase"));
    }
    Ok(())
}

/// Lo que se comprueba antes de instalar. La zona horaria se comprueba contra
/// la base de zonas del disco, así que de ella se promete sólo que es uno de
/// los veredictos posibles; lo demás, exacto.
pub fn revisar_plan(plan: &PlanInstalacion, soportados: Option<&str>, mapas: &[String]) -> (r:
    Result<(), String>)
    ensures
        exists|hay_base: bool, existe: bool|
            vista_texto_res(r) == revision_del_plan(
                plan,
                veredicto_zona_spec(plan.zona_horaria@, hay_base, existe),
                vista_opcional(soportados),
                vistas_cadenas(mapas@),
            ),
{
    let zona = zona_horaria(plan.zona_horaria.as_str());
    let ghost vz = vista_texto_res(zona);
    let r = revisar_plan_con(plan, zona, soportados, mapas);
    proof {
        let (hb, ex) = choose|hay_base: bool, existe: bool|
            vz == veredicto_zona_spec(plan.zona_horaria@, hay_base, existe);
        assert(vista_texto_res(r) == revision_del_plan(
            plan,
            veredicto_zona_spec(plan.zona_horaria@, hb, ex),
            vista_opcional(soportados),
            vistas_cadenas(mapas@),
        ));
    }
    r
}

} // verus!
