use vstd::prelude::*;

verus! {

/// Why a crypto buffer operation failed.
#[derive(Clone, Copy, Debug, PartialEq, Eq, Structural)]
pub enum CryptoError {
    /// A write would run past the end of the buffer.
    OutOfBounds,
}

pub type CryptoResult<T> = Result<T, CryptoError>;

/// A fixed-size byte buffer, marked as holding secret material or not.
#[derive(Debug)]
pub struct CryptoBytes {
    secure: bool,
    data: Vec<u8>,
}

impl CryptoBytes {
    pub closed spec fn is_secure(&self) -> bool {
        self.secure
    }

    pub closed spec fn bytes(&self) -> Seq<u8> {
        self.data@
    }

    fn zeroed(size: usize, secure: bool) -> (r: CryptoBytes)
        ensures
            r.is_secure() == secure,
            r.bytes() == Seq::new(size as nat, |i: int| 0u8),
    {
        let mut data: Vec<u8> = Vec::with_capacity(size);
        let mut i: usize = 0;
        while i < size
            invariant
                i <= size,
                data@ == Seq::new(i as nat, |j: int| 0u8),
            decreases size - i,
        {
            data.push(0u8);
            i = i + 1;
            assert(data@ =~= Seq::new(i as nat, |j: int| 0u8));
        }
        CryptoBytes { secure, data }
    }

    pub fn len(&self) -> (r: usize)
        ensures
            r == self.bytes().len(),
    {
        self.data.len()
    }

    pub fn secure(&self) -> (r: bool)
        ensures
            r == self.is_secure(),
    {
        self.secure
    }

    /// Returns a copy of the buffer's contents.
    pub fn read(&self) -> (r: Vec<u8>)
        ensures
            r@ == self.bytes(),
    {
        crate::kvmap::copy_bytes(&self.data)
    }

    /// Copies `src` into the buffer starting at `offset`, failing with
    /// `OutOfBounds`, and changing nothing, if it does not fit.
    pub fn copy_from(&mut self, offset: usize, src: &[u8]) -> (r: CryptoResult<()>)
        ensures
            final(self).is_secure() == old(self).is_secure(),
            r is Ok <==> offset + src@.len() <= old(self).bytes().len(),
            r is Err ==> r == Err::<(), CryptoError>(CryptoError::OutOfBounds) && final(self).bytes() == old(self).bytes(),
            r is Ok ==> final(self).bytes() == old(self).bytes().subrange(0, offset as int) + src@
                + old(self).bytes().subrange(offset + src@.len(), old(self).bytes().len() as int),
    {
        if offset > self.data.len() || src.len() > self.data.len() - offset {
            return Err(CryptoError::OutOfBounds);
        }
        let ghost d0 = self.data@;
        let mut i: usize = 0;
        while i < src.len()
            invariant
                offset + src@.len() <= d0.len(),
                d0.len() <= usize::MAX,
                i <= src@.len(),
                self.secure == old(self).secure,
                self.data@.len() == d0.len(),
                forall|j: int| 0 <= j < offset ==> self.data@[j] == d0[j],
                forall|j: int| offset + src@.len() <= j < d0.len() ==> self.data@[j] == d0[j],
                forall|j: int| offset <= j < offset + i ==> self.data@[j] == src@[j - offset],
                forall|j: int| offset + i <= j < offset + src@.len() ==> self.data@[j] == d0[j],
            decreases src@.len() - i,
        {
            self.data.set(offset + i, src[i]);
            i = i + 1;
        }
        assert(self.data@ =~= d0.subrange(0, offset as int) + src@ + d0.subrange(offset + src@.len(), d0.len() as int));
        Ok(())
    }
}

/// Creates a zeroed buffer of `size` bytes for non-secret data.
pub fn crypto_insecure_buffer(size: usize) -> (r: CryptoResult<CryptoBytes>)
    ensures
        r matches Ok(b) && !b.is_secure() && b.bytes() == Seq::new(size as nat, |i: int| 0u8),
{
    Ok(CryptoBytes::zeroed(size, false))
}

/// Creates a buffer for non-secret data holding a copy of `o`.
pub fn crypto_insecure_buffer_from_bytes(o: &[u8]) -> (r: CryptoResult<CryptoBytes>)
    ensures
        r matches Ok(b) && !b.is_secure() && b.bytes() == o@,
{
    let mut out = CryptoBytes::zeroed(o.len(), false);
    let _ = out.copy_from(0, o);
    assert(out.bytes() =~= o@);
    Ok(out)
}

/// Creates a zeroed buffer of `size` bytes for secret material.
pub fn crypto_secure_buffer(size: usize) -> (r: CryptoResult<CryptoBytes>)
    ensures
        r matches Ok(b) && b.is_secure() && b.bytes() == Seq::new(size as nat, |i: int| 0u8),
{
    Ok(CryptoBytes::zeroed(size, true))
}

/// Creates a buffer for secret material holding a copy of `o`. The bytes
/// were already in ordinary memory, so they may not have stayed secret.
pub fn danger_crypto_secure_buffer_from_bytes(o: &[u8]) -> (r: CryptoResult<CryptoBytes>)
    ensures
        r matches Ok(b) && b.is_secure() && b.bytes() == o@,
{
    let mut out = CryptoBytes::zeroed(o.len(), true);
    let _ = out.copy_from(0, o);
    assert(out.bytes() =~= o@);
    Ok(out)
}

} // verus!
