//! The command-line surface, as plain data.  Parsing the process
//! arguments into it is the launcher's concern, outside the library.
use vstd::prelude::*;

verus! {

/// One invocation's arguments: encrypt or decrypt a target file under a
/// key, with a mode selector (0 for ECB, 1 for CBC) and an optional
/// parallelism toggle.
pub struct Args {
    /// Path of the file to encrypt, if encrypting.
    pub encrypt: Option<String>,
    /// Path of the file to decrypt, if decrypting.
    pub decrypt: Option<String>,
    /// Whether to fan independent-block work out across workers.
    pub parallelize: bool,
    /// Mode of operation selector: 0 for ECB, 1 for CBC.
    pub mode: u8,
    /// The secret key string.
    pub key: String,
}

} // verus!
