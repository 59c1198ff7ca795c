use vstd::prelude::*;
use crate::constants::ANCHOR_DISCRIMINATOR;
use crate::error::CustomErrorCode;
use crate::hash::{sha256, sha256_digest};
use crate::state::exits::Exits;

verus! {

/// The text whose digest names a stored exit schedule: `account:Exits`.
pub open spec fn exits_preimage() -> Seq<u8> {
    seq![97u8, 99u8, 99u8, 111u8, 117u8, 110u8, 116u8, 58u8, 69u8, 120u8, 105u8, 116u8, 115u8]
}

/// `data` with its first eight bytes replaced by the first eight of
/// `digest`.
pub open spec fn stamped(data: Seq<u8>, digest: Seq<u8>) -> Seq<u8> {
    digest.subrange(0, ANCHOR_DISCRIMINATOR as int) + data.subrange(
        ANCHOR_DISCRIMINATOR as int,
        data.len() as int,
    )
}

/// Writes the first eight bytes of `digest` over the first eight bytes of
/// `data` and leaves the rest alone.
pub fn stamp(data: &mut Vec<u8>, digest: &[u8; 32])
    requires
        ANCHOR_DISCRIMINATOR <= old(data).len(),
    ensures
        final(data)@ == stamped(old(data)@, digest@),
{
    let mut i: usize = 0;
    while i < ANCHOR_DISCRIMINATOR
        invariant
            i <= ANCHOR_DISCRIMINATOR <= data.len(),
            data.len() == old(data).len(),
            forall|j: int| 0 <= j < i ==> data@[j] == digest@[j],
            forall|j: int| i <= j < data.len() ==> data@[j] == old(data)@[j],
        decreases ANCHOR_DISCRIMINATOR - i,
    {
        data.set(i, digest[i]);
        i = i + 1;
    }
    assert(data@ =~= stamped(old(data)@, digest@));
}

/// The storage that is to hold a market's exit schedule, as raw bytes.
pub struct InitializeExits {
    pub exits: Vec<u8>,
}

impl InitializeExits {
    /// Claims the storage for an exit schedule: its first eight bytes are
    /// set to the discriminator of the schedule's type, the start of the
    /// digest of [`exits_preimage`]. Storage that cannot hold the
    /// discriminator and a schedule of full size is turned down and left
    /// as it was.
    pub fn initialize_exits(&mut self) -> (r: Result<(), CustomErrorCode>)
        ensures
            old(self).exits.len() < ANCHOR_DISCRIMINATOR + Exits::INIT_SPACE ==> r == Err::<
                (),
                CustomErrorCode,
            >(CustomErrorCode::AccountTooSmall) && final(self).exits@ == old(self).exits@,
            old(self).exits.len() >= ANCHOR_DISCRIMINATOR + Exits::INIT_SPACE ==> r is Ok
                && final(self).exits@ == stamped(old(self).exits@, sha256(exits_preimage())),
    {
        if self.exits.len() < ANCHOR_DISCRIMINATOR + Exits::INIT_SPACE {
            return Err(CustomErrorCode::AccountTooSmall);
        }
        let preimage: Vec<u8> = vec![
            97u8,
            99u8,
            99u8,
            111u8,
            117u8,
            110u8,
            116u8,
            58u8,
            69u8,
            120u8,
            105u8,
            116u8,
            115u8,
        ];
        assert(preimage@ =~= exits_preimage());
        let digest: [u8; 32] = sha256_digest(preimage.as_slice());
        stamp(&mut self.exits, &digest);
        Ok(())
    }
}

} // verus!
