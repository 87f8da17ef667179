//! The signature policy applied when a message is decrypted: with a signer
//! configured, decryption fails closed unless a good signature is found.
use vstd::prelude::*;

verus! {

/// One layer of a decrypted message's structure, as far as the policy reads
/// it: a signature group holds the outcome of each of its signatures, true
/// for a good one.
pub enum MessageLayer {
    Compression,
    Encryption,
    SignatureGroup { results: Vec<bool> },
}

/// Why a message was refused.
#[derive(Clone, Copy, Debug, PartialEq, Eq, Structural)]
pub enum CryptoError {
    NoValidSignature,
}

/// Whether a layer is a signature group with a good signature.
pub open spec fn good_layer(layer: MessageLayer) -> bool {
    match layer {
        MessageLayer::SignatureGroup { results } => exists|j: int|
            0 <= j < results@.len() && #[trigger] results@[j],
        _ => false,
    }
}

/// Whether some layer holds a good signature.
pub open spec fn has_good_signature(layers: Seq<MessageLayer>) -> bool {
    exists|i: int| 0 <= i < layers.len() && good_layer(#[trigger] layers[i])
}

fn any_true(results: &Vec<bool>) -> (r: bool)
    ensures
        r == exists|j: int| 0 <= j < results@.len() && #[trigger] results@[j],
{
    let mut j: usize = 0;
    while j < results.len()
        invariant
            j <= results@.len(),
            forall|k: int| 0 <= k < j ==> !#[trigger] results@[k],
        decreases results@.len() - j,
    {
        if results[j] {
            assert(results@[j as int]);
            return true;
        }
        j = j + 1;
    }
    false
}

fn layer_is_good(layer: &MessageLayer) -> (r: bool)
    ensures
        r == good_layer(*layer),
{
    match layer {
        MessageLayer::SignatureGroup { results } => any_true(results),
        _ => false,
    }
}

/// Accepts a message when no signer is required, or when some layer holds a
/// good signature from the signer.
pub fn check(layers: &Vec<MessageLayer>, signer_required: bool) -> (r: Result<(), CryptoError>)
    ensures
        r is Ok <==> (!signer_required || has_good_signature(layers@)),
        r matches Err(e) ==> e == CryptoError::NoValidSignature,
{
    if !signer_required {
        return Ok(());
    }
    let mut i: usize = 0;
    while i < layers.len()
        invariant
            i <= layers@.len(),
            forall|k: int| 0 <= k < i ==> !good_layer(#[trigger] layers@[k]),
        decreases layers@.len() - i,
    {
        if layer_is_good(&layers[i]) {
            return Ok(());
        }
        i = i + 1;
    }
    Err(CryptoError::NoValidSignature)
}

} // verus!
