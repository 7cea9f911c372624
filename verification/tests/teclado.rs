//! La traducción de los mapas de consola a los diseños de XKB.

use vasak_installer::conjunto::Conjunto;
use vasak_installer::teclado::traducir;


fn conocidos() -> Conjunto {
    let mut c = Conjunto::new();
    for s in ["us", "es", "latam", "de", "fr", "gb", "ca", "br", "tr", "jp", "ch", "gr", "it", "pt"] {
        c.insert(s.to_string());
    }
    c
}

/// El caso que motiva el módulo: sin esta traducción, alguien que elige el
/// teclado latinoamericano termina con un greeter en `us` y no puede
/// escribir su propia contraseña en el primer arranque.
#[test]
fn el_latinoamericano_se_traduce_a_latam() {
    assert_eq!(
        traducir("la-latin1", &conocidos()),
        Ok(("latam".to_string(), String::new()))
    );
}

#[test]
fn los_sufijos_de_codificacion_se_van() {
    let c = conocidos();
    assert_eq!(traducir("de-latin1", &c), Ok(("de".into(), String::new())));
    // Dos sufijos en el mismo nombre: si sólo se sacara uno quedaría
    // `de-latin1`, que XKB no conoce, y caería al respaldo.
    assert_eq!(
        traducir("de-latin1-nodeadkeys", &c),
        Ok(("de".into(), String::new()))
    );
    assert_eq!(traducir("fr-latin1", &c), Ok(("fr".into(), String::new())));
}

#[test]
fn las_excepciones_de_nombre_se_respetan() {
    let c = conocidos();
    // `uk` en consola es `gb` en XKB: es el código ISO del país, no el TLD.
    assert_eq!(traducir("uk", &c), Ok(("gb".into(), String::new())));
    assert_eq!(traducir("cf", &c), Ok(("ca".into(), "fr".into())));
    assert_eq!(traducir("trq", &c), Ok(("tr".into(), String::new())));
    assert_eq!(traducir("jp106", &c), Ok(("jp".into(), String::new())));
}

#[test]
fn los_disenos_alternativos_son_variantes_de_us() {
    let c = conocidos();
    // Dvorak y Colemak no son diseños de XKB: son variantes de `us`.
    // Mandarlos como diseño hace que el compositor los ignore en silencio.
    assert_eq!(traducir("dvorak", &c), Ok(("us".into(), "dvorak".into())));
    assert_eq!(traducir("colemak", &c), Ok(("us".into(), "colemak".into())));
}

#[test]
fn el_abnt2_brasileno_es_variante_y_no_diseno() {
    assert_eq!(
        traducir("br-abnt2", &conocidos()),
        Ok(("br".into(), "abnt2".into()))
    );
}

#[test]
fn un_keymap_que_xkb_no_conoce_cae_al_respaldo_avisando() {
    // `Err` y no `Ok`: se instala igual con `us`, pero el plugin tiene que
    // poder anotarlo en el registro. Un respaldo silencioso deja a alguien
    // preguntándose por qué su teclado no es el que eligió.
    assert_eq!(
        traducir("no-existe-este", &conocidos()),
        Err(("us".to_string(), String::new()))
    );
}

#[test]
fn sin_lista_de_disenos_se_acepta_la_traduccion_mecanica() {
    // Es lo que pasa si `xkeyboard-config` no está en el medio live.
    // Rechazar todo dejaría a todo el mundo en `us`; la traducción mecánica
    // acierta en la enorme mayoría.
    let vacia = Conjunto::new();
    assert_eq!(traducir("es", &vacia), Ok(("es".into(), String::new())));
    assert_eq!(traducir("la-latin1", &vacia), Ok(("latam".into(), String::new())));
}

#[test]
fn el_mayusculas_del_pais_se_normaliza() {
    // `fr_CH` está en las excepciones, pero la regla general también tiene
    // que bajar a minúscula: XKB no conoce ningún diseño con mayúsculas.
    let c = conocidos();
    assert_eq!(traducir("fr_CH", &c), Ok(("ch".into(), "fr".into())));
    assert_eq!(traducir("IT", &c), Ok(("it".into(), String::new())));
}
