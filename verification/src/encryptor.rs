//! A standalone encryption half: mode plus transform, producing wire
//! bytes from an already-packed message.  Reading the input and writing
//! the output are the launcher's concern, outside the library.
use crate::block::Block;
use crate::cipher::{blocks_to_vec, spec_blocks_to_bytes};
use crate::feistel::FeistelNetwork;
use crate::mode_of_operation::ModeOfOperation;
use std::collections::VecDeque;
use vstd::prelude::*;

verus! {

/// A mode of operation paired with a round transform, for encryption.
pub struct Encryptor<M, F>(pub M, pub F) where M: ModeOfOperation<F>, F: FeistelNetwork;

impl<M: ModeOfOperation<F>, F: FeistelNetwork> Encryptor<M, F> {
    /// Run the mode over the packed message and serialize the cipher
    /// blocks to wire bytes.
    pub fn encrypt(&self, message: VecDeque<u32>) -> (r: Vec<u8>)
        requires
            self.0.enc_req(message@),
            self.1.wf(),
        ensures
            r@ == spec_blocks_to_bytes(self.0.spec_encrypt(message@, self.1)),
    {
        let blocks: Vec<Block<u32>> = self.0.encrypt(message, &self.1);
        blocks_to_vec(blocks)
    }
}

} // verus!
