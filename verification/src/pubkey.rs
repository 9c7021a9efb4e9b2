use vstd::prelude::*;

verus! {

/// The address of an account, a mint or a program: 32 bytes.
#[derive(Clone, Copy, Debug)]
pub struct Pubkey {
    pub bytes: [u8; 32],
}

impl View for Pubkey {
    type V = Seq<u8>;

    open spec fn view(&self) -> Seq<u8> {
        self.bytes@
    }
}

impl Pubkey {
    /// The address made of the given bytes.
    pub fn new_from_array(bytes: [u8; 32]) -> (key: Pubkey)
        ensures
            key.bytes == bytes,
            key@ == bytes@,
    {
        Pubkey { bytes }
    }

    /// The bytes of the address.
    pub fn to_bytes(&self) -> (bytes: [u8; 32])
        ensures
            bytes == self.bytes,
            bytes@ == self@,
    {
        self.bytes
    }

    /// Two addresses are the same as soon as their bytes are.
    pub proof fn lemma_view_injective(a: Pubkey, b: Pubkey)
        ensures
            (a@ == b@) == (a == b),
    {
        if a@ == b@ {
            assert forall|i: int| 0 <= i < 32 implies a.bytes[i] == b.bytes[i] by {
                assert(a.bytes[i] == a@[i]);
                assert(b.bytes[i] == b@[i]);
            }
            assert(a.bytes =~= b.bytes);
        }
    }
}

impl PartialEq for Pubkey {
    fn eq(&self, other: &Pubkey) -> (same: bool) {
        let mut i: usize = 0;
        while i < 32
            invariant
                i <= 32,
                forall|j: int| 0 <= j < i ==> self.bytes[j] == other.bytes[j],
            decreases 32 - i,
        {
            if self.bytes[i] != other.bytes[i] {
                return false;
            }
            i += 1;
        }
        proof {
            assert(self.bytes =~= other.bytes);
        }
        true
    }
}

impl Eq for Pubkey {

}

impl vstd::std_specs::cmp::PartialEqSpecImpl for Pubkey {
    open spec fn obeys_eq_spec() -> bool {
        true
    }

    open spec fn eq_spec(&self, other: &Pubkey) -> bool {
        *self == *other
    }
}

/// What `derive_authority` hands back, by the bytes of the address.
pub open spec fn derived_view(derived: Option<(Pubkey, u8)>) -> Option<(Seq<u8>, u8)> {
    match derived {
        Some((key, bump_seed)) => Some((key@, bump_seed)),
        None => None,
    }
}

/// The program-derived address for one 32-byte seed under a program, with the bump seed that
/// yields it, or `None` where no bump seed yields one.
pub uninterp spec fn program_address(seed: Seq<u8>, program_id: Seq<u8>) -> Option<(Seq<u8>, u8)>;

/// Calls `Pubkey::try_find_program_address` of anchor_lang's prelude with `seed` as the only
/// seed. Not proved: that the outcome is `program_address` of the two addresses' bytes, that
/// is, that it depends on nothing but them.
#[verifier::external_body]
fn try_find_program_address(seed: &Pubkey, program_id: &Pubkey) -> (derived: Option<(Pubkey, u8)>)
    ensures
        derived_view(derived) == program_address(seed@, program_id@),
{
    let program = anchor_lang::prelude::Pubkey::new_from_array(program_id.bytes);
    match anchor_lang::prelude::Pubkey::try_find_program_address(&[&seed.bytes], &program) {
        Some((key, bump_seed)) => Some((Pubkey { bytes: key.to_bytes() }, bump_seed)),
        None => None,
    }
}

/// Derives the address under which a pool signs: it has no private key, and only the program
/// `program_id` can sign for it, with the pool's address and the bump seed as seeds.
///
/// `None` in the improbable event that no bump seed yields an address.
pub fn derive_authority(pool: &Pubkey, program_id: &Pubkey) -> (derived: Option<(Pubkey, u8)>)
    ensures
        derived_view(derived) == program_address(pool@, program_id@),
{
    try_find_program_address(pool, program_id)
}

} // verus!
