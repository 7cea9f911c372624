//! Lo que se le pregunta al sistema de archivos del equipo.
//!
//! Son preguntas cuya respuesta depende de lo que hay en el disco en ese
//! momento, así que de ninguna se promete nada: quien las usa decide con lo
//! que vuelva, sea lo que sea.

use vstd::prelude::*;

verus! {

/// Si la ruta existe y es un directorio.
///
/// Envuelve `std::path::Path::is_dir`. No se promete nada del resultado: es
/// lo que haya en el disco.
#[verifier::external_body]
pub(crate) fn es_directorio(ruta: &str) -> bool {
    std::path::Path::new(ruta).is_dir()
}

/// Si la ruta existe y es un archivo común.
///
/// Envuelve `std::path::Path::is_file`. No se promete nada del resultado: es
/// lo que haya en el disco.
#[verifier::external_body]
pub(crate) fn es_archivo(ruta: &str) -> bool {
    std::path::Path::new(ruta).is_file()
}

} // verus!
