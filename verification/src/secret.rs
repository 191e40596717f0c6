//! Bytes that are wiped from memory when they are dropped.

use vstd::prelude::*;

verus! {

/// Secret bytes. Their memory is overwritten when the value is dropped, and `Debug` does not show
/// them.
#[derive(Debug)]
#[verifier::external_body]
pub struct SecretBytes {
    held: zeroize::Zeroizing<Vec<u8>>,
}

/// The bytes that a secret holds.
pub uninterp spec fn secret_contents(secret: SecretBytes) -> Seq<u8>;

impl View for SecretBytes {
    type V = Seq<u8>;

    open spec fn view(&self) -> Seq<u8> {
        secret_contents(*self)
    }
}

/// `Zeroizing::new` takes the bytes as they are and holds them.
#[verifier::external_body]
fn guard(bytes: Vec<u8>) -> (r: SecretBytes)
    ensures
        secret_contents(r) == bytes@,
{
    SecretBytes { held: zeroize::Zeroizing::new(bytes) }
}

/// `Zeroizing` dereferences to the bytes that it was made with.
#[verifier::external_body]
fn guarded(secret: &SecretBytes) -> (r: &Vec<u8>)
    ensures
        r@ == secret_contents(*secret),
{
    std::ops::Deref::deref(&secret.held)
}

impl SecretBytes {
    /// Takes over the bytes of a secret.
    pub fn new(bytes: Vec<u8>) -> (r: Self)
        ensures
            r@ == bytes@,
    {
        guard(bytes)
    }

    /// The bytes of the secret.
    pub fn expose(&self) -> (r: &[u8])
        ensures
            r@ == self@,
    {
        guarded(self).as_slice()
    }

    /// A second copy of the secret.
    pub fn duplicate(&self) -> (r: Self)
        ensures
            r@ == self@,
    {
        let bytes = self.expose();
        let mut copy: Vec<u8> = Vec::with_capacity(bytes.len());
        push_bytes(&mut copy, bytes);
        SecretBytes::new(copy)
    }
}

/// Appends bytes.
pub fn push_bytes(out: &mut Vec<u8>, bytes: &[u8])
    ensures
        final(out)@ == old(out)@ + bytes@,
{
    let ghost before = out@;
    let mut index: usize = 0;
    while index < bytes.len()
        invariant
            index <= bytes.len(),
            out@ == before + bytes@.take(index as int),
        decreases bytes.len() - index,
    {
        out.push(bytes[index]);
        index += 1;
        assert(bytes@.take(index as int) == bytes@.take(index - 1).push(bytes@[index - 1]));
    }
    assert(bytes@.take(index as int) == bytes@);
}

/// Whether two rows of bytes are the same.
pub fn same_bytes(left: &[u8], right: &[u8]) -> (r: bool)
    ensures
        r == (left@ == right@),
{
    if left.len() != right.len() {
        return false;
    }
    let mut index: usize = 0;
    while index < left.len()
        invariant
            left.len() == right.len(),
            index <= left.len(),
            forall|i: int| 0 <= i < index ==> left@[i] == right@[i],
        decreases left.len() - index,
    {
        if left[index] != right[index] {
            return false;
        }
        index += 1;
    }
    assert(left@ =~= right@);
    true
}

} // verus!
