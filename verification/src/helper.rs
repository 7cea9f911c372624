//! Las decisiones del ayudante privilegiado, el único proceso que corre como
//! root.
//!
//! El ayudante lanza procesos, lee archivos y escribe en el canal con la
//! ventana; eso lo hace la aplicación. Acá está lo que el ayudante decide con
//! lo que le vuelve: si una contraseña se puede hashear, si lo que devolvió
//! `openssl` es un hash, qué se le dice a la persona cuando archinstall
//! termina, a qué grupo de procesos se le manda la señal al cancelar, y qué
//! líneas del archivo de eventos ya están completas.

use vstd::prelude::*;

use crate::conflictos::{vistas_choques, Choque};
use crate::conjunto::Conjunto;
use crate::protocol::{CuerpoPeticion, Nivel, PlanInstalacion};
use crate::texto::{
    agregar, cadena, cadena_de, caracteres, control, decimal, es_control, escribir_decimal,
    partes, recortado, recortar,
};

verus! {

broadcast use vstd::string::group_string_axioms;

/// Los diseños de XKB que conoce el sistema, para que la ventana pueda
/// validar el teclado sin ser root. `contenido` es el de
/// `/usr/share/X11/xkb/rules/base.lst`, o `None` si no se pudo leer.
pub fn disenos_conocidos(contenido: Option<&str>) -> (r: Conjunto)
    ensures
        r@ == crate::teclado::disenos_spec(
            match contenido {
                Some(c) => Some(c@),
                None => None,
            },
        ),
{
    crate::teclado::disenos_de_xkb(contenido)
}

// ── Contraseñas ─────────────────────────────────────────────────────────────

pub open spec fn vista_resultado(r: Result<(), String>) -> Result<(), Seq<char>> {
    match r {
        Ok(()) => Ok(()),
        Err(e) => Err(e@),
    }
}

/// Si una contraseña se puede pasar a `openssl passwd -6 -stdin`.
///
/// `-stdin` lee una sola línea: un `\n` en el medio haría hashear algo
/// distinto de lo que la persona tipeó, y después no podría entrar con su
/// propia contraseña. Por eso se rechazan los caracteres de control; los
/// espacios y los acentos sí se aceptan.
pub open spec fn contrasena_spec(c: Seq<char>) -> Result<(), Seq<char>> {
    if c.len() == 0 {
        Err("la contraseña está vacía"@)
    } else if exists|i: int| 0 <= i < c.len() && es_control(#[trigger] c[i]) {
        Err("la contraseña tiene caracteres de control"@)
    } else {
        Ok(())
    }
}

/// Lo que se comprueba de una contraseña antes de hashearla.
pub fn revisar_contrasena(contrasena: &str) -> (r: Result<(), String>)
    ensures
        vista_resultado(r) == contrasena_spec(contrasena@),
{
    if contrasena.is_empty() {
        return Err(cadena("la contraseña está vacía"));
    }
    let c = caracteres(contrasena);
    let mut i: usize = 0;
    while i < c.len()
        invariant
            i <= c.len(),
            c@ == contrasena@,
            forall|j: int| 0 <= j < i ==> !es_control(#[trigger] c@[j]),
        decreases c.len() - i,
    {
        if control(c[i]) {
            return Err(cadena("la contraseña tiene caracteres de control"));
        }
        i = i + 1;
    }
    Ok(())
}

pub open spec fn empieza_con(t: Seq<char>, p: Seq<char>) -> bool {
    p.len() <= t.len() && t.take(p.len() as int) == p
}

/// Lo que se acepta de la salida de `openssl passwd -6`: recortada, y sólo si
/// empieza con `$6$`. El prefijo confirma que salió un SHA-512 crypt y no,
/// por ejemplo, el mensaje de uso de `openssl`; un hash inválido en
/// `/etc/shadow` deja la cuenta sin poder entrar.
pub open spec fn hash_spec(salida: Seq<char>) -> Result<Seq<char>, Seq<char>> {
    let h = recortado(salida);
    if empieza_con(h, "$6$"@) {
        Ok(h)
    } else {
        Err("openssl no devolvió un hash SHA-512"@)
    }
}

pub open spec fn vista_hash(r: Result<String, String>) -> Result<Seq<char>, Seq<char>> {
    match r {
        Ok(h) => Ok(h@),
        Err(e) => Err(e@),
    }
}

/// El hash que va al archivo de credenciales, a partir de lo que imprimió
/// `openssl passwd -6`.
pub fn hash_de_salida(salida: &str) -> (r: Result<String, String>)
    ensures
        vista_hash(r) == hash_spec(salida@),
{
    let h = recortar(&caracteres(salida));
    proof {
        reveal_strlit("$6$");
    }
    if h.len() >= 3 && h[0] == '$' && h[1] == '6' && h[2] == '$' {
        assert(h@.take(3) =~= "$6$"@);
        Ok(cadena_de(h))
    } else {
        proof {
            if h@.len() >= 3 {
                assert(h@.take(3)[0] == h@[0]);
                assert(h@.take(3)[1] == h@[1]);
                assert(h@.take(3)[2] == h@[2]);
            }
        }
        Err(cadena("openssl no devolvió un hash SHA-512"))
    }
}

/// El texto recortado, y nada si quedó vacío.
pub open spec fn recortado_no_vacio(t: Seq<char>) -> Option<Seq<char>> {
    let v = recortado(t);
    if v.len() == 0 {
        None
    } else {
        Some(v)
    }
}

fn no_vacio(t: &str) -> (r: Option<String>)
    ensures
        crate::archconfig::vista_texto_opcional(r) == recortado_no_vacio(t@),
{
    let v = recortar(&caracteres(t));
    if v.len() == 0 {
        None
    } else {
        Some(cadena_de(v))
    }
}

/// La versión de archinstall, a partir de lo que imprimió su módulo de
/// Python: recortada, y nada si quedó vacía. Se le pregunta al módulo y no a
/// `pacman` porque lo que importa es el que va a leer el archivo.
pub fn version_de(salida: &str) -> (r: Option<String>)
    ensures
        crate::archconfig::vista_texto_opcional(r) == recortado_no_vacio(salida@),
{
    no_vacio(salida)
}

// ── Cancelar ────────────────────────────────────────────────────────────────

/// A qué se le manda la señal al cancelar: al grupo de procesos entero, que
/// es lo que significa el identificador negativo, y sólo si hay uno.
///
/// archinstall lanza `pacstrap`, `parted` y `mkfs` como hijos suyos; matando
/// sólo al padre, esos hijos quedan huérfanos escribiendo en el disco.
pub open spec fn senal_spec(grupo: i32) -> Option<i32> {
    if grupo <= 0 {
        None
    } else {
        Some((-grupo) as i32)
    }
}

pub fn a_quien_senalar(grupo: i32) -> (r: Option<i32>)
    ensures
        r == senal_spec(grupo),
{
    if grupo <= 0 {
        None
    } else {
        Some(-grupo)
    }
}

/// **Cancelar nunca le manda la señal al grupo propio.** Con el grupo en cero,
/// una señal a `-0` le llegaría al grupo del propio ayudante: «matate vos y
/// todo lo que te rodea». Lo que se señala es siempre un grupo ajeno y entero.
pub proof fn cancelar_nunca_senala_al_grupo_propio(grupo: i32)
    ensures
        match senal_spec(grupo) {
            Some(g) => g < 0 && g == -grupo,
            None => grupo <= 0,
        },
{
}

// ── Cómo terminó archinstall ────────────────────────────────────────────────

/// Un entero con signo, como lo escribe `{}`.
pub open spec fn entero(n: int) -> Seq<char> {
    if n < 0 {
        "-"@ + decimal((-n) as nat)
    } else {
        decimal(n as nat)
    }
}

/// Lo que se le dice a la persona cuando archinstall termina.
///
/// Se distingue la cancelación por la marca y no por el código de salida: una
/// muerte por señal no trae código, pero tampoco lo trae un archinstall que
/// recibió un `SIGABRT`, y decirle «cancelaste» a alguien que no canceló nada
/// es la peor forma de informar un fallo.
pub open spec fn desenlace_spec(exito: bool, cancelado: bool, codigo: Option<i32>) -> Result<(), Seq<char>> {
    if exito {
        Ok(())
    } else if cancelado {
        Err("la instalación se canceló"@)
    } else {
        match codigo {
            Some(c) => Err(
                "archinstall terminó con código "@ + entero(c as int)
                    + ". El registro de arriba dice dónde falló; el detalle completo está en /var/log/archinstall/install.log"@,
            ),
            None => Err("archinstall se interrumpió sin terminar"@),
        }
    }
}

pub fn desenlace(exito: bool, cancelado: bool, codigo: Option<i32>) -> (r: Result<(), String>)
    ensures
        vista_resultado(r) == desenlace_spec(exito, cancelado, codigo),
{
    if exito {
        return Ok(());
    }
    if cancelado {
        return Err(cadena("la instalación se canceló"));
    }
    match codigo {
        Some(c) => {
            let mut v: Vec<char> = Vec::new();
            agregar(&mut v, "archinstall terminó con código ");
            let ghost base = v@;
            if c < 0 {
                agregar(&mut v, "-");
                let absoluto: u64 = (0i64 - (c as i64)) as u64;
                assert(absoluto == -(c as int));
                escribir_decimal(&mut v, absoluto);
                assert(v@ =~= base + entero(c as int));
            } else {
                escribir_decimal(&mut v, c as u64);
                assert(v@ =~= base + entero(c as int));
            }
            agregar(
                &mut v,
                ". El registro de arriba dice dónde falló; el detalle completo está en /var/log/archinstall/install.log",
            );
            Err(cadena_de(v))
        },
        None => Err(cadena("archinstall se interrumpió sin terminar")),
    }
}

// ── Los choques entre paquetes ──────────────────────────────────────────────

/// Los choques, cada uno como frase, separados por `; `.
pub open spec fn frases(cs: Seq<(Seq<char>, Seq<char>, Seq<char>)>) -> Seq<char>
    decreases cs.len(),
{
    if cs.len() == 0 {
        seq![]
    } else if cs.len() == 1 {
        frase(cs[0])
    } else {
        frases(cs.drop_last()) + "; "@ + frase(cs.last())
    }
}

pub open spec fn frase(c: (Seq<char>, Seq<char>, Seq<char>)) -> Seq<char> {
    c.0 + " y "@ + c.1 + " no pueden convivir (por «"@ + c.2 + "»)"@
}

/// Sin choques se sigue; con choques se frena con el disco intacto, y se dice
/// cuáles son. Suele ser una dependencia virtual con más de un proveedor.
pub open spec fn choques_spec(cs: Seq<(Seq<char>, Seq<char>, Seq<char>)>) -> Result<(), Seq<char>> {
    if cs.len() == 0 {
        Ok(())
    } else {
        Err(
            "los paquetes elegidos no se pueden instalar juntos, así que no se tocó el disco: "@
                + frases(cs)
                + ". Suele ser una dependencia virtual con más de un proveedor: hay que nombrar el que corresponde en /usr/share/vasak-installer/paquetes.txt"@,
        )
    }
}

/// El veredicto de la comprobación de paquetes, antes de formatear.
pub fn veredicto_de_choques(choques: &[Choque]) -> (r: Result<(), String>)
    ensures
        vista_resultado(r) == choques_spec(vistas_choques(choques@)),
{
    let ghost cs = vistas_choques(choques@);
    if choques.len() == 0 {
        return Ok(());
    }
    let mut v: Vec<char> = Vec::new();
    agregar(
        &mut v,
        "los paquetes elegidos no se pueden instalar juntos, así que no se tocó el disco: ",
    );
    let ghost base = v@;
    let mut i: usize = 0;
    while i < choques.len()
        invariant
            i <= choques.len(),
            cs == vistas_choques(choques@),
            cs.len() == choques.len(),
            v@ == base + frases(cs.take(i as int)),
        decreases choques.len() - i,
    {
        let ghost previo = v@;
        assert(cs[i as int] == choques@[i as int]@);
        if i > 0 {
            agregar(&mut v, "; ");
        }
        let d = choques[i].describir();
        agregar(&mut v, d.as_str());
        proof {
            let t = cs.take(i as int + 1);
            assert(t.drop_last() =~= cs.take(i as int));
            assert(t.last() == cs[i as int]);
            if i == 0 {
                assert(cs.take(0) =~= Seq::<(Seq<char>, Seq<char>, Seq<char>)>::empty());
                assert(v@ =~= base + frases(t));
            } else {
                assert(v@ =~= base + frases(t));
            }
        }
        i = i + 1;
    }
    assert(cs.take(i as int) =~= cs);
    agregar(
        &mut v,
        ". Suele ser una dependencia virtual con más de un proveedor: hay que nombrar el que corresponde en /usr/share/vasak-installer/paquetes.txt",
    );
    Err(cadena_de(v))
}

// ── El archivo de eventos ───────────────────────────────────────────────────

/// Las líneas completas de lo que se lleva leído, recortadas y sin las
/// vacías, y lo que queda esperando su fin de línea.
///
/// Una línea incompleta —el plugin escribió la mitad y todavía no llegó el
/// `\n`— se deja para la próxima vuelta en vez de parsearla: de ahí venían los
/// eventos perdidos.
pub open spec fn completas(pendiente: Seq<char>) -> Seq<Seq<char>> {
    let ps = partes(pendiente, '\n');
    no_vacias(ps.drop_last())
}

pub open spec fn no_vacias(ls: Seq<Seq<char>>) -> Seq<Seq<char>>
    decreases ls.len(),
{
    if ls.len() == 0 {
        seq![]
    } else {
        no_vacias(ls.drop_last()) + if recortado(ls.last()).len() == 0 {
            seq![]
        } else {
            seq![recortado(ls.last())]
        }
    }
}

pub open spec fn resto(pendiente: Seq<char>) -> Seq<char> {
    partes(pendiente, '\n').last()
}

/// Saca de `pendiente` las líneas completas y las devuelve, en orden,
/// recortadas y sin las vacías. Lo que queda es la última línea, sin terminar.
pub fn lineas_completas(pendiente: &mut String) -> (r: Vec<String>)
    ensures
        crate::complementos::vistas_textos(r@) == completas(old(pendiente)@),
        final(pendiente)@ == resto(old(pendiente)@),
{
    let ps = crate::texto::dividir(pendiente.as_str(), '\n');
    let ghost vp = ps@.map_values(|t: Vec<char>| t@);
    proof {
        crate::texto::lemma_partes_no_vacias(old(pendiente)@, '\n');
    }
    let n = ps.len() - 1;
    let mut r: Vec<String> = Vec::new();
    let mut i: usize = 0;
    while i < n
        invariant
            i <= n,
            n + 1 == ps.len(),
            vp == ps@.map_values(|t: Vec<char>| t@),
            crate::complementos::vistas_textos(r@) == no_vacias(vp.take(i as int)),
        decreases n - i,
    {
        proof {
            assert(vp.take(i as int + 1).drop_last() =~= vp.take(i as int));
            assert(vp.take(i as int + 1).last() == ps@[i as int]@);
        }
        let limpia = recortar(&ps[i]);
        let ghost antes = crate::complementos::vistas_textos(r@);
        if limpia.len() > 0 {
            let x = cadena_de(limpia);
            r.push(x);
            assert(crate::complementos::vistas_textos(r@) =~= antes.push(x@));
        }
        i = i + 1;
    }
    assert(vp.take(n as int) =~= vp.drop_last());
    *pendiente = cadena_de(crate::texto::copia(&ps[n]));
    r
}

/// Lo que va al registro de una línea de la salida de archinstall: recortada,
/// y nada si quedó vacía. pacman escribe barras de progreso que dejan líneas
/// en blanco, y esas no se registran.
pub fn linea_para_registro(linea: &str) -> (r: Option<String>)
    ensures
        crate::archconfig::vista_texto_opcional(r) == recortado_no_vacio(linea@),
{
    no_vacio(linea)
}

// ── Antes de tocar el disco ─────────────────────────────────────────────────

pub open spec fn vista_plan_res(r: Result<crate::layout::Plan, String>) -> Result<crate::layout::VistaPlan, Seq<char>> {
    match r {
        Ok(p) => Ok(p@),
        Err(e) => Err(e@),
    }
}

/// El plan que se va a ejecutar: el del esquema elegido, sobre el disco del
/// plan tal como está ahora. Si el disco ya no está, o el plan no se puede
/// armar, se frena con el disco intacto.
pub open spec fn plan_de_instalacion_spec(
    discos: Seq<crate::layout::VistaDisco>,
    plan: &PlanInstalacion,
    firmware: crate::layout::Firmware,
) -> Result<crate::layout::VistaPlan, Seq<char>> {
    let k = crate::orden::primera(discos, crate::commands::con_ruta(plan.disco@));
    if k < 0 {
        Err("el disco "@ + plan.disco@ + " ya no está"@)
    } else {
        match crate::layout::plan_con(
            discos[k],
            plan.esquema,
            crate::protocol::vista_texto(plan.particion_destino),
            crate::layout::vistas_asignaciones(plan.asignaciones@),
            firmware,
            plan.sistema_archivos,
            plan.cifrar,
        ) {
            Ok(p) => Ok(p),
            Err(e) => Err(crate::layout::mensaje(e)),
        }
    }
}

/// Arma el plan de particionado de la instalación. Es lo primero que se
/// comprueba: un error después del primer `mkfs` no se puede deshacer.
pub fn plan_de_instalacion(
    discos: &[crate::layout::Disco],
    plan: &PlanInstalacion,
    firmware: crate::layout::Firmware,
) -> (r: Result<crate::layout::Plan, String>)
    ensures
        vista_plan_res(r) == plan_de_instalacion_spec(
            crate::commands::vistas_discos(discos@),
            plan,
            firmware,
        ),
{
    let ghost vd = crate::commands::vistas_discos(discos@);
    let mut k: usize = 0;
    while k < discos.len()
        invariant
            k <= discos.len(),
            vd == crate::commands::vistas_discos(discos@),
            vd.len() == discos.len(),
            forall|j: int| 0 <= j < k ==> !crate::commands::con_ruta(plan.disco@)(#[trigger] vd[j]),
        ensures
            k <= discos.len(),
            vd == crate::commands::vistas_discos(discos@),
            vd.len() == discos.len(),
            forall|j: int| 0 <= j < k ==> !crate::commands::con_ruta(plan.disco@)(#[trigger] vd[j]),
            k < discos.len() ==> crate::commands::con_ruta(plan.disco@)(vd[k as int]),
        decreases discos.len() - k,
    {
        assert(discos@[k as int]@ == vd[k as int]);
        if crate::texto::iguales(discos[k].ruta.as_str(), plan.disco.as_str()) {
            break;
        }
        k = k + 1;
    }
    proof {
        crate::orden::lemma_primera(vd, crate::commands::con_ruta(plan.disco@), k as int);
    }
    if k == discos.len() {
        let mut v: Vec<char> = Vec::new();
        agregar(&mut v, "el disco ");
        agregar(&mut v, plan.disco.as_str());
        agregar(&mut v, " ya no está");
        return Err(cadena_de(v));
    }
    assert(discos@[k as int]@ == vd[k as int]);
    let particion = match &plan.particion_destino {
        Some(p) => Some(p.as_str()),
        None => None,
    };
    match crate::layout::planificar_con(
        &discos[k],
        plan.esquema,
        particion,
        plan.asignaciones.as_slice(),
        firmware,
        plan.sistema_archivos,
        plan.cifrar,
    ) {
        Ok(p) => Ok(p),
        Err(e) => Err(e.describir()),
    }
}

/// Si pedir cifrado sin frase: cryptsetup no tiene con qué abrir el volumen.
pub fn falta_la_frase(plan: &PlanInstalacion) -> (r: Option<String>)
    ensures
        crate::archconfig::vista_texto_opcional(r) == if plan.cifrar && plan.secretos.cifrado@.len()
            == 0 {
            Some("se pidió cifrado pero no hay frase"@)
        } else {
            None
        },
{
    if plan.cifrar && plan.secretos.cifrado.as_str().is_empty() {
        Some(cadena("se pidió cifrado pero no hay frase"))
    } else {
        None
    }
}

pub open spec fn vista_lista_res(r: Result<Vec<String>, String>) -> Result<Seq<Seq<char>>, Seq<char>> {
    match r {
        Ok(v) => Ok(crate::complementos::vistas_textos(v@)),
        Err(e) => Err(e@),
    }
}

/// Los paquetes del escritorio, del archivo de datos. Un archivo sin ningún
/// paquete es un error de empaquetado y frena la instalación.
pub open spec fn paquetes_del_escritorio_spec(ruta: Seq<char>, contenido: Seq<char>) -> Result<
    Seq<Seq<char>>,
    Seq<char>,
> {
    let ps = crate::archconfig::paquetes_spec(contenido);
    if ps.len() == 0 {
        Err(ruta + " no tiene ningún paquete"@)
    } else {
        Ok(ps)
    }
}

pub fn paquetes_del_escritorio(ruta: &str, contenido: &str) -> (r: Result<Vec<String>, String>)
    ensures
        vista_lista_res(r) == paquetes_del_escritorio_spec(ruta@, contenido@),
{
    let ps = crate::archconfig::leer_paquetes(contenido);
    if ps.len() == 0 {
        let mut v: Vec<char> = Vec::new();
        agregar(&mut v, ruta);
        agregar(&mut v, " no tiene ningún paquete");
        Err(cadena_de(v))
    } else {
        Ok(ps)
    }
}

/// Los complementos elegidos, o nada si el catálogo no se pudo leer.
///
/// Un catálogo ilegible no aborta la instalación: significa quedarse sin
/// navegador y sin controladores opcionales, que es un sistema que arranca y
/// en el que todo eso se puede instalar después. Se avisa.
pub open spec fn aporte_o_nada_spec(
    catalogo: Result<Seq<crate::complementos::VistaComplemento>, crate::complementos::VistaErrorCatalogo>,
    elegidos: Seq<Seq<char>>,
) -> (Seq<Seq<char>>, Seq<Seq<char>>, Option<Seq<char>>) {
    match catalogo {
        Ok(c) => (
            crate::complementos::juntos_hasta(c, elegidos, false),
            crate::complementos::juntos_hasta(c, elegidos, true),
            None,
        ),
        Err(e) => (
            seq![],
            seq![],
            Some(
                "no se pudo leer el catálogo de complementos ("@ + crate::complementos::mensaje_catalogo(e)
                    + "); se instala el escritorio sin navegador ni controladores opcionales"@,
            ),
        ),
    }
}

pub open spec fn vista_catalogo_res(
    r: Result<Vec<crate::complementos::Complemento>, crate::complementos::ErrorCatalogo>,
) -> Result<Seq<crate::complementos::VistaComplemento>, crate::complementos::VistaErrorCatalogo> {
    match r {
        Ok(c) => Ok(crate::complementos::vistas_catalogo(c@)),
        Err(e) => Err(e@),
    }
}

pub fn aporte_o_nada(
    catalogo: Result<Vec<crate::complementos::Complemento>, crate::complementos::ErrorCatalogo>,
    elegidos: &[String],
) -> (r: (crate::complementos::Aporte, Option<String>))
    ensures
        (
            crate::complementos::vistas_textos(r.0.paquetes@),
            crate::complementos::vistas_textos(r.0.servicios@),
            crate::archconfig::vista_texto_opcional(r.1),
        ) == aporte_o_nada_spec(vista_catalogo_res(catalogo), crate::complementos::vistas_textos(elegidos@)),
{
    match catalogo {
        Ok(c) => (crate::complementos::aporte_de(c.as_slice(), elegidos), None),
        Err(e) => {
            let mut v: Vec<char> = Vec::new();
            agregar(&mut v, "no se pudo leer el catálogo de complementos (");
            agregar(&mut v, e.describir().as_str());
            agregar(
                &mut v,
                "); se instala el escritorio sin navegador ni controladores opcionales",
            );
            let vacio = crate::complementos::Aporte { paquetes: Vec::new(), servicios: Vec::new() };
            assert(crate::complementos::vistas_textos(vacio.paquetes@) =~= Seq::<Seq<char>>::empty());
            assert(crate::complementos::vistas_textos(vacio.servicios@) =~= Seq::<Seq<char>>::empty());
            (vacio, Some(cadena_de(v)))
        },
    }
}

/// El diseño de XKB con que arranca el escritorio, y el aviso si hubo que
/// caer al respaldo: se instala igual con `us`, pero queda anotado por qué el
/// teclado no es el que se eligió.
pub open spec fn teclado_del_escritorio_spec(keymap: Seq<char>, conocidos: Seq<Seq<char>>) -> (
    (Seq<char>, Seq<char>),
    Option<Seq<char>>,
) {
    match crate::teclado::traducir_spec(keymap, conocidos) {
        Ok(par) => (par, None),
        Err(respaldo) => (
            respaldo,
            Some(
                "el teclado «"@ + keymap + "» no tiene diseño de XKB conocido; el escritorio arranca con «"@
                    + respaldo.0 + "»"@,
            ),
        ),
    }
}

pub fn teclado_del_escritorio(keymap: &str, conocidos: &Conjunto) -> (r: ((String, String), Option<String>))
    ensures
        ((r.0.0@, r.0.1@), crate::archconfig::vista_texto_opcional(r.1)) == teclado_del_escritorio_spec(
            keymap@,
            conocidos@,
        ),
{
    match crate::teclado::traducir(keymap, conocidos) {
        Ok(par) => (par, None),
        Err(respaldo) => {
            let mut v: Vec<char> = Vec::new();
            agregar(&mut v, "el teclado «");
            agregar(&mut v, keymap);
            agregar(&mut v, "» no tiene diseño de XKB conocido; el escritorio arranca con «");
            agregar(&mut v, respaldo.0.as_str());
            agregar(&mut v, "»");
            (respaldo, Some(cadena_de(v)))
        },
    }
}

/// Qué se hace con lo que devolvió la comprobación de paquetes.
///
/// Sin choques se sigue. Con choques se frena con el disco intacto. Si no se
/// pudo comprobar —sin base sincronizada, sin red— se avisa y se sigue, porque
/// un chequeo roto no puede dejar el instalador sin poder instalar; salvo que
/// se haya cancelado, y entonces se frena con el motivo.
pub open spec fn tras_la_comprobacion_spec(
    resultado: Result<Seq<(Seq<char>, Seq<char>, Seq<char>)>, Seq<char>>,
    cancelado: bool,
) -> Result<(Nivel, Seq<char>), Seq<char>> {
    match resultado {
        Ok(cs) => if cs.len() == 0 {
            Ok((Nivel::Info, "los paquetes pueden convivir"@))
        } else {
            match choques_spec(cs) {
                Err(m) => Err(m),
                Ok(()) => Ok((Nivel::Info, "los paquetes pueden convivir"@)),
            }
        },
        Err(motivo) => if cancelado {
            Err(motivo)
        } else {
            Ok(
                (
                    Nivel::Warn,
                    "no se pudo comprobar si los paquetes conviven ("@ + motivo + "); se sigue igual"@,
                ),
            )
        },
    }
}

pub open spec fn vista_comprobacion(r: Result<Vec<Choque>, String>) -> Result<
    Seq<(Seq<char>, Seq<char>, Seq<char>)>,
    Seq<char>,
> {
    match r {
        Ok(cs) => Ok(vistas_choques(cs@)),
        Err(e) => Err(e@),
    }
}

pub open spec fn vista_aviso(r: Result<(Nivel, String), String>) -> Result<(Nivel, Seq<char>), Seq<char>> {
    match r {
        Ok((n, m)) => Ok((n, m@)),
        Err(e) => Err(e@),
    }
}

pub fn tras_la_comprobacion(resultado: Result<Vec<Choque>, String>, cancelado: bool) -> (r: Result<
    (Nivel, String),
    String,
>)
    ensures
        vista_aviso(r) == tras_la_comprobacion_spec(vista_comprobacion(resultado), cancelado),
{
    match resultado {
        Ok(cs) => {
            match veredicto_de_choques(cs.as_slice()) {
                Ok(()) => Ok((Nivel::Info, cadena("los paquetes pueden convivir"))),
                Err(m) => Err(m),
            }
        },
        Err(motivo) => {
            if cancelado {
                Err(motivo)
            } else {
                let mut v: Vec<char> = Vec::new();
                agregar(&mut v, "no se pudo comprobar si los paquetes conviven (");
                agregar(&mut v, motivo.as_str());
                agregar(&mut v, "); se sigue igual");
                Ok((Nivel::Warn, cadena_de(v)))
            }
        },
    }
}

// ── Lo que entra por la entrada estándar ────────────────────────────────────

/// Qué se hace con una línea que llegó de la ventana.
#[derive(Debug, Clone, Copy, PartialEq, Eq, Structural)]
pub enum Recepcion {
    /// Una línea en blanco: no es nada.
    Saltear,
    /// Una línea que no se entiende: se anota en el registro y se descarta,
    /// sin cortar el canal.
    Registrar,
    /// `Cancelar` no espera turno: se atiende en el momento, aunque haya una
    /// instalación corriendo.
    CancelarYa,
    /// Cualquier otra petición pasa a la cola, en orden.
    Encolar,
}

/// Si la línea es toda blanca (o está vacía).
pub fn linea_en_blanco(linea: &str) -> (r: bool)
    ensures
        r == crate::texto::todo_blanco(linea@),
{
    let c = caracteres(linea);
    let mut i: usize = 0;
    while i < c.len()
        invariant
            i <= c.len(),
            c@ == linea@,
            forall|j: int| 0 <= j < i ==> crate::texto::es_blanco(#[trigger] c@[j]),
        decreases c.len() - i,
    {
        if !crate::texto::blanco(c[i]) {
            return false;
        }
        i = i + 1;
    }
    true
}

/// Qué hacer con una línea: `en_blanco` si es toda blanca, y `peticion` lo
/// que se leyó de ella, `None` si no se pudo leer.
pub fn que_hacer_con_la_linea(en_blanco: bool, peticion: Option<&CuerpoPeticion>) -> (r: Recepcion)
    ensures
        r == (if en_blanco {
            Recepcion::Saltear
        } else {
            match peticion {
                None => Recepcion::Registrar,
                Some(CuerpoPeticion::Cancelar) => Recepcion::CancelarYa,
                Some(_) => Recepcion::Encolar,
            }
        }),
{
    if en_blanco {
        Recepcion::Saltear
    } else {
        match peticion {
            None => Recepcion::Registrar,
            Some(CuerpoPeticion::Cancelar) => Recepcion::CancelarYa,
            Some(_) => Recepcion::Encolar,
        }
    }
}

} // verus!
