//! How the client reads an answer of the server.
use vstd::prelude::*;

verus! {

/// What the client does after an answer.
pub enum ResultadoComunicacion {
    /// Go on: an answer, or a recoverable error.
    Continuar(String),
    /// Stop: an error that is not recoverable, or the end of the connection.
    Cerrar(String),
}

/// An answer's outcome, with its text as a character sequence.
pub enum ResultadoVista {
    Continuar(Seq<char>),
    Cerrar(Seq<char>),
}

impl View for ResultadoComunicacion {
    type V = ResultadoVista;

    open spec fn view(&self) -> ResultadoVista {
        match self {
            ResultadoComunicacion::Continuar(s) => ResultadoVista::Continuar(s@),
            ResultadoComunicacion::Cerrar(s) => ResultadoVista::Cerrar(s@),
        }
    }
}

} // verus!
