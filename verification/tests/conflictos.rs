//! Que los paquetes elegidos se puedan instalar juntos.

use vasak_installer::conflictos::{choques, leer_fichas, Choque, Ficha};
use vasak_installer::conjunto::Conjunto;

fn conjunto(nombres: &[&str]) -> Conjunto {
    let mut c = Conjunto::new();
    for n in nombres {
        c.insert(n.to_string());
    }
    c
}

fn ficha(nombre: &str, provee: &[&str], conflictos: &[&str]) -> Ficha {
    Ficha {
        nombre: nombre.into(),
        provee: conjunto(provee),
        conflictos: conjunto(conflictos),
    }
}

/// La salida real de `LC_ALL=C pacman -Si jack2 pipewire-jack`, recortada a
/// los campos que este módulo lee más uno que tiene que ignorar.
const SALIDA: &str = "\
Repository      : extra
Name            : jack2
Version         : 1.9.22-2
Depends On      : libsamplerate  libdb  celt
Provides        : jack  libjack.so=0-64
Conflicts With  : jack
Replaces        : None

Repository      : extra
Name            : pipewire-jack
Version         : 1:1.6.8-1
Depends On      : pipewire
Provides        : jack  libjack.so=0-64
Conflicts With  : jack  jack2  pipewire-jack-client
Replaces        : None
";

#[test]
fn se_leen_los_dos_paquetes_con_lo_que_ocupan_y_con_lo_que_chocan() {
    let fichas = leer_fichas(SALIDA);

    assert_eq!(fichas.len(), 2);
    assert_eq!(fichas[0].nombre, "jack2");
    assert!(fichas[0].provee.contains("jack"));
    assert!(fichas[0].conflictos.contains("jack"));
    assert!(fichas[1].conflictos.contains("jack2"));
}

#[test]
fn el_valor_none_no_es_un_nombre() {
    let fichas = leer_fichas(SALIDA);
    assert!(fichas.iter().all(|f| !f.conflictos.contains("None")));
}

#[test]
fn los_campos_que_no_interesan_no_se_cuelan() {
    // `Depends On` viene justo antes de `Provides`, y una continuación mal
    // atribuida metería `celt` entre lo que el paquete ocupa.
    let fichas = leer_fichas(SALIDA);
    assert!(fichas[0].provee.como_lista().iter().all(|p| p != "celt"));
    assert!(fichas[0].conflictos.como_lista().iter().all(|c| c != "libsamplerate"));
}

#[test]
fn una_lista_cortada_en_varias_lineas_se_lee_entera() {
    // pacman corta las listas largas al ancho de la terminal y sigue en la
    // línea de abajo, indentada. Sin esto se perdería justamente el
    // proveedor que rompe.
    let texto = "\
Name            : pipewire-jack
Conflicts With  : jack  jack2
              pipewire-jack-client
Replaces        : None
";
    let fichas = leer_fichas(texto);
    assert!(fichas[0].conflictos.contains("pipewire-jack-client"));
}

#[test]
fn el_mismo_paquete_en_dos_repositorios_se_lee_dos_veces_y_no_choca() {
    // `pacman -Si jack2` con el paquete en `extra` y en un repo de CachyOS
    // lo imprime dos veces seguidas. Chocaría consigo mismo por `jack`.
    let texto = format!("{}\n{}", SALIDA.split("\n\n").next().unwrap(), SALIDA.split("\n\n").next().unwrap());
    let fichas = leer_fichas(&texto);

    assert_eq!(fichas.len(), 2, "las dos entradas se leen");
    assert!(choques(&fichas).is_empty(), "pero es el mismo paquete");
}

#[test]
fn el_choque_de_la_instalacion_que_se_rompio() {
    // El caso real: `jack2` entró porque ffmpeg pide `jack` y pacman eligió
    // el default; `pipewire-jack` entró porque el escritorio lo exige.
    let choques = choques(&leer_fichas(SALIDA));

    assert_eq!(choques.len(), 1);
    assert_eq!(choques[0].uno, "jack2");
    assert_eq!(choques[0].otro, "pipewire-jack");
    // Por `jack`, el nombre **virtual**, y no por `jack2` —que también
    // serviría para detectarlo, porque `pipewire-jack` lo nombra—. Se llega
    // primero por el virtual, y es el dato útil de los dos: dice qué
    // dependencia con varios proveedores hay que fijar.
    assert_eq!(choques[0].por, "jack");
}

#[test]
fn se_detecta_aunque_lo_declare_solo_uno_de_los_dos() {
    // `jack2` no nombra a `pipewire-jack`: sólo choca con el virtual `jack`.
    // Mirando en una sola dirección, la mitad de los pares se escapan.
    let a = ficha("jack2", &["jack"], &["jack"]);
    let b = ficha("pipewire-jack", &["jack"], &[]);

    assert_eq!(choques(&[a, b]).len(), 1);
}

#[test]
fn un_conjunto_sin_conflictos_no_informa_nada() {
    let fichas = vec![
        ficha("pipewire-jack", &["jack"], &["jack", "jack2"]),
        ficha("ffmpeg", &[], &[]),
        ficha("firefox", &[], &[]),
    ];

    assert!(choques(&fichas).is_empty());
}

#[test]
fn un_conflicto_con_version_no_frena_la_instalacion() {
    // Un `conflicts=('foo<1.2')` suele estar satisfecho en un sistema nuevo.
    // Tratarlo como choque frenaría instalaciones legítimas, y este módulo
    // puede pasar algo por alto pero no puede inventar nada.
    let a = ficha("nuevo", &[], &["viejo<1.2"]);
    let b = ficha("viejo", &[], &[]);

    assert!(choques(&[a, b]).is_empty());
}

#[test]
fn un_conflicto_sin_version_con_el_nombre_pelado_si() {
    let a = ficha("nuevo", &[], &["viejo"]);
    let b = ficha("viejo", &[], &[]);

    assert_eq!(choques(&[a, b]).len(), 1);
}

#[test]
fn un_solo_choque_aunque_el_paquete_este_en_dos_repositorios() {
    // Lo encontró la prueba con datos reales: `jack2` está en `extra` y en
    // un repo de CachyOS, así que `pacman -Si` lo devuelve dos veces y el
    // mismo problema se informaba dos veces. Un aviso repetido hace dudar de
    // si son dos problemas distintos.
    let fichas = vec![
        ficha("jack2", &["jack"], &["jack"]),
        ficha("jack2", &["jack"], &["jack"]),
        ficha("pipewire-jack", &["jack"], &["jack", "jack2"]),
    ];

    assert_eq!(choques(&fichas).len(), 1);
}

#[test]
fn cada_par_se_informa_una_sola_vez() {
    // Los dos se nombran mutuamente; dos avisos del mismo problema hacen
    // dudar de si son dos problemas.
    let a = ficha("uno", &[], &["otro"]);
    let b = ficha("otro", &[], &["uno"]);

    assert_eq!(choques(&[a, b]).len(), 1);
}

#[test]
fn el_choque_se_lee_como_una_frase() {
    let choque = Choque {
        uno: "jack2".into(),
        otro: "pipewire-jack".into(),
        por: "jack".into(),
    };

    assert_eq!(
        choque.describir(),
        "jack2 y pipewire-jack no pueden convivir (por «jack»)"
    );
}
