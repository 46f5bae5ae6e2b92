use vstd::prelude::*;

use crate::mapping::EngineType;

verus! {

/// Why a transfer stopped; each carries what is needed to report it.
#[derive(Clone, Debug, PartialEq, Eq)]
pub enum TransferError {
    /// A column named in the transfer is not in the batch.
    MissingColumn { name: String },
    /// An engine column whose type has no host counterpart.
    Unsupported { name: String, dtype: EngineType },
    /// A binary column, which the host cannot store cell by cell.
    BinaryColumn { name: String },
    /// A datetime target whose engine column carries no time unit.
    NoTimeUnit { name: String },
    /// A host type name that the layer does not know.
    UnknownHostType { name: String, host_type: String },
}

} // verus!
