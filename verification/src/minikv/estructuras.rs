//! Types shared by the rest of the project: the messages for the
//! persistence worker and the operations that the log records.
use vstd::prelude::*;

verus! {

/// What the persistence worker is asked to do.
pub enum MensajePersistencia {
    /// Write the database to the data file and empty the log.
    Snapshot,
    /// Record in the log, and apply, the binding of `valor` to `clave`.
    Asignar { clave: String, valor: String },
    /// Record in the log, and apply, the removal of `clave`.
    Delete { clave: String },
}

/// A message for the persistence worker, with its key and value as
/// character sequences.
pub enum MensajeVista {
    Snapshot,
    Asignar { clave: Seq<char>, valor: Seq<char> },
    Delete { clave: Seq<char> },
}

impl View for MensajePersistencia {
    type V = MensajeVista;

    open spec fn view(&self) -> MensajeVista {
        match self {
            MensajePersistencia::Snapshot => MensajeVista::Snapshot,
            MensajePersistencia::Asignar { clave, valor } => MensajeVista::Asignar { clave: clave@, valor: valor@ },
            MensajePersistencia::Delete { clave } => MensajeVista::Delete { clave: clave@ },
        }
    }
}

impl MensajePersistencia {
    /// The name of the operation, as error messages give it.
    pub open spec fn nombre(&self) -> Seq<char> {
        match self {
            MensajePersistencia::Snapshot => "snapshot"@,
            MensajePersistencia::Asignar { .. } => "set"@,
            MensajePersistencia::Delete { .. } => "delete"@,
        }
    }

    /// The name of the operation: `set`, `delete` or `snapshot`.
    pub fn operacion(&self) -> (r: String)
        ensures
            r@ == self.nombre(),
    {
        match self {
            MensajePersistencia::Snapshot => String::from_str("snapshot"),
            MensajePersistencia::Asignar { .. } => String::from_str("set"),
            MensajePersistencia::Delete { .. } => String::from_str("delete"),
        }
    }
}

/// An operation read back from a line of the log.
pub enum LogCommand {
    SET { clave: String, valor: String },
    DELETE { clave: String },
}

} // verus!
