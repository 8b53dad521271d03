//! BLAKE3 digests as the store uses them: 32 bytes.

use vstd::prelude::*;

verus! {

/// The length of a digest, in bytes.
pub const B3_LEN: usize = 32;

/// What `BASE64` of the data-encoding crate makes of `bytes`.
pub uninterp spec fn base64_of(bytes: Seq<u8>) -> Seq<char>;

/// Relies on data_encoding::BASE64.encode: the standard, padded base64 text of
/// `b`, which depends on the bytes alone.
#[verifier::external_body]
fn base64_encode(b: &[u8]) -> (r: String)
    ensures
        r@ == base64_of(b@),
{
    data_encoding::BASE64.encode(b)
}

/// Relies on String::push_str: appends `t` to `s`.
#[verifier::external_body]
fn push_str(s: &mut String, t: &str)
    ensures
        final(s)@ == old(s)@ + t@,
{
    s.push_str(t)
}

/// A BLAKE3 digest.
#[derive(Eq, Hash, Debug)]
pub struct B3Digest(Vec<u8>);

/// Why a digest could not be made.
#[derive(Debug, PartialEq, Eq, Clone, Copy)]
pub enum Error {
    /// The input did not have the length of a digest; it had this one.
    InvalidDigestLen(usize),
}

impl View for B3Digest {
    type V = Seq<u8>;

    closed spec fn view(&self) -> Seq<u8> {
        self.0@
    }
}

impl PartialEq for B3Digest {
    fn eq(&self, other: &B3Digest) -> (r: bool) {
        bytes_eq(self.0.as_slice(), other.0.as_slice())
    }
}

impl vstd::std_specs::cmp::PartialEqSpecImpl for B3Digest {
    open spec fn obeys_eq_spec() -> bool {
        true
    }

    open spec fn eq_spec(&self, other: &B3Digest) -> bool {
        self@ == other@
    }
}

/// Whether two byte strings are equal.
pub fn bytes_eq(a: &[u8], b: &[u8]) -> (r: bool)
    ensures
        r == (a@ == b@),
{
    if a.len() != b.len() {
        return false;
    }
    let mut i: usize = 0;
    while i < a.len()
        invariant
            i <= a@.len(),
            a@.len() == b@.len(),
            a@.take(i as int) == b@.take(i as int),
        decreases a@.len() - i,
    {
        if a[i] != b[i] {
            assert(a@[i as int] != b@[i as int]);
            return false;
        }
        i = i + 1;
        assert(a@.take(i as int) =~= a@.take(i - 1) + seq![a@[i - 1]]);
        assert(b@.take(i as int) =~= b@.take(i - 1) + seq![b@[i - 1]]);
    }
    assert(a@ =~= a@.take(i as int));
    assert(b@ =~= b@.take(i as int));
    true
}

impl Clone for B3Digest {
    fn clone(&self) -> (r: Self)
        ensures
            r@ == self@,
    {
        proof {
            use_type_invariant(self);
        }
        B3Digest(self.0.clone())
    }
}

impl B3Digest {
    #[verifier::type_invariant]
    spec fn digest_len(self) -> bool {
        self.0@.len() == B3_LEN
    }

    /// Makes a digest of `value`, which must hold 32 bytes.
    pub fn try_from_vec(value: Vec<u8>) -> (r: Result<B3Digest, Error>)
        ensures
            value@.len() == B3_LEN ==> (r matches Ok(d) && d@ == value@),
            value@.len() != B3_LEN ==> r == Err::<B3Digest, Error>(Error::InvalidDigestLen(value@.len() as usize)),
    {
        if value.len() != B3_LEN {
            Err(Error::InvalidDigestLen(value.len()))
        } else {
            Ok(B3Digest(value))
        }
    }

    /// Makes a digest of 32 bytes.
    pub fn from_array(value: &[u8; 32]) -> (r: B3Digest)
        ensures
            r@ == value@,
    {
        let mut v: Vec<u8> = Vec::new();
        let mut i: usize = 0;
        while i < 32
            invariant
                i <= 32,
                v@ == value@.take(i as int),
            decreases 32 - i,
        {
            v.push(value[i]);
            i = i + 1;
            assert(v@ =~= value@.take(i as int));
        }
        assert(value@.take(32) =~= value@);
        B3Digest(v)
    }

    /// Returns a copy of the digest's bytes.
    pub fn to_vec(&self) -> (r: Vec<u8>)
        ensures
            r@ == self@,
            r@.len() == B3_LEN,
    {
        proof {
            use_type_invariant(self);
        }
        self.0.clone()
    }

    /// The digest's bytes.
    pub fn as_slice(&self) -> (r: &[u8])
        ensures
            r@ == self@,
    {
        self.0.as_slice()
    }

    /// The digest as text: `b3:` and the base64 of its bytes.
    pub fn to_b3_string(&self) -> (r: String)
        ensures
            r@ == seq!['b', '3', ':'] + base64_of(self@),
    {
        let mut s = String::new();
        proof {
            reveal_strlit("b3:");
        }
        push_str(&mut s, "b3:");
        let encoded = base64_encode(self.0.as_slice());
        push_str(&mut s, encoded.as_str());
        assert(s@ =~= seq!['b', '3', ':'] + base64_of(self@));
        s
    }
}

} // verus!
