//! The identity this client announces: a client tag, then random bytes.
use rand::RngCore;
use vstd::prelude::*;

verus! {

/// The tag that opens this client's peer id, in the Azureus style.
pub open spec fn client_tag() -> Seq<u8> {
    seq![45u8, 84u8, 114u8, 48u8, 48u8, 48u8, 49u8, 45u8]
}

/// Relies on rand's `RngCore::fill_bytes` with the thread-local generator: twelve
/// bytes, of which nothing is known.
#[verifier::external_body]
fn random_12_bytes() -> (r: [u8; 12]) {
    let mut bytes = [0u8; 12];
    rand::thread_rng().fill_bytes(&mut bytes);
    bytes
}

/// The peer id made of the client tag "-Tr0001-" followed by the twelve given bytes.
pub fn identity_from(random: [u8; 12]) -> (r: [u8; 20])
    ensures
        r@ == client_tag() + random@,
{
    let tag: [u8; 8] = [45, 84, 114, 48, 48, 48, 49, 45];
    let mut id = [0u8; 20];
    let mut i: usize = 0;
    while i < 20
        invariant
            i <= 20,
            tag@ == client_tag(),
            forall|k: int| 0 <= k < i ==> id@[k] == (client_tag() + random@)[k],
        decreases 20 - i,
    {
        if i < 8 {
            id[i] = tag[i];
        } else {
            id[i] = random[i - 8];
        }
        i = i + 1;
    }
    assert(id@ =~= client_tag() + random@);
    id
}

/// A fresh peer id: the client tag, then twelve random bytes.
pub fn generate_random_identity() -> (r: [u8; 20])
    ensures
        r@.subrange(0, 8) == client_tag(),
{
    let id = identity_from(random_12_bytes());
    assert(id@.subrange(0, 8) =~= client_tag());
    id
}

} // verus!
