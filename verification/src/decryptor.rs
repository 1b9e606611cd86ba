//! A standalone decryption half: mode plus transform, recovering the
//! unpadded plaintext from an already-packed ciphertext.  Reading the
//! input and writing the output are the launcher's concern, outside the
//! library.
use crate::block::Block;
use crate::cipher::{blocks_to_vec, spec_blocks_to_bytes};
use crate::errors::CipherError;
use crate::feistel::FeistelNetwork;
use crate::mode_of_operation::ModeOfOperation;
use crate::packer::{spec_strip_data, spec_strip_malformed, spec_strip_ok, Packer};
use std::collections::VecDeque;
use vstd::prelude::*;

verus! {

/// A mode of operation paired with a round transform, for decryption.
pub struct Decryptor<M, B>(pub M, pub B) where M: ModeOfOperation<B>, B: FeistelNetwork;

impl<M: ModeOfOperation<B>, B: FeistelNetwork> Decryptor<M, B> {
    /// Run the mode with the reversed transform over the packed
    /// ciphertext, serialize, and strip the padding.  Succeeds exactly
    /// when the decrypted stream carries valid padding.
    pub fn decrypt(&self, message: VecDeque<u32>) -> (r: Result<Vec<u8>, CipherError>)
        requires
            self.0.dec_req(message@),
            self.1.wf(),
        ensures
            ({
                let padded = spec_blocks_to_bytes(self.0.spec_decrypt(message@, self.1));
                match r {
                    Ok(d) => spec_strip_ok(padded) && d@ == spec_strip_data(padded),
                    Err(e) => !spec_strip_ok(padded) && (spec_strip_malformed(padded)
                        ==> e is PaddingError) && (!spec_strip_malformed(padded)
                        ==> e is DecryptionError),
                }
            }),
    {
        let blocks: Vec<Block<u32>> = self.0.decrypt(message, &self.1);
        let dec_bytes = blocks_to_vec(blocks);
        Packer::strip_padding_vec(dec_bytes)
    }
}

} // verus!
