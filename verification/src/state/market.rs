use vstd::prelude::*;
use anchor_lang::prelude::Pubkey;
use crate::error::CustomErrorCode;

verus! {

/// An account address, `anchor_lang::prelude::Pubkey`, declared as a type
/// that nothing here looks inside: a market only carries the addresses of
/// its two treasuries from where it is opened to where it is stored.
#[verifier::external_type_specification]
#[verifier::external_body]
pub struct ExPubkey(anchor_lang::prelude::Pubkey);

/// One side of a market: the token that a position deposits.
#[derive(Clone, Copy, Debug, PartialEq, Eq, Structural)]
pub enum Side {
    A,
    B,
}

/// A trading pair and its ledger: the per-slot volume that is currently
/// flowing on each side.
pub struct Market {
    pub treasury_a: Pubkey,
    pub treasury_b: Pubkey,
    pub token_a_volume: u64,
    pub token_b_volume: u64,
    pub start_slot: u64,
    pub end_slot_interval: u64,
    pub bump: u8,
}

impl Market {
    pub const SEED_PREFIX: &'static str = "market";

    /// A market without any volume that starts at `start_slot` and
    /// quantizes end slots to multiples of `end_slot_interval`.
    pub fn new(
        treasury_a: Pubkey,
        treasury_b: Pubkey,
        start_slot: u64,
        end_slot_interval: u64,
        bump: u8,
    ) -> (market: Self)
        ensures
            market == (Market {
                treasury_a,
                treasury_b,
                token_a_volume: 0,
                token_b_volume: 0,
                start_slot,
                end_slot_interval,
                bump,
            }),
    {
        Self {
            treasury_a,
            treasury_b,
            token_a_volume: 0,
            token_b_volume: 0,
            start_slot,
            end_slot_interval,
            bump,
        }
    }

    /// The quantization interval is usable as a divisor.
    pub open spec fn wf(self) -> bool {
        self.end_slot_interval > 0
    }

    /// The volume flowing on `side`.
    pub open spec fn volume(self, side: Side) -> u64 {
        match side {
            Side::A => self.token_a_volume,
            Side::B => self.token_b_volume,
        }
    }

    /// The market with `rate` more volume on `side`, or `None` where the
    /// volume would leave `u64`.
    pub open spec fn with_more(self, side: Side, rate: u64) -> Option<Market> {
        if self.volume(side) + rate > u64::MAX {
            None
        } else {
            Some(
                match side {
                    Side::A => Market { token_a_volume: (self.token_a_volume + rate) as u64, ..self },
                    Side::B => Market { token_b_volume: (self.token_b_volume + rate) as u64, ..self },
                },
            )
        }
    }

    /// The market with `rate` less volume on `side`, or `None` where the
    /// side does not hold that much.
    pub open spec fn with_less(self, side: Side, rate: u64) -> Option<Market> {
        if self.volume(side) < rate {
            None
        } else {
            Some(
                match side {
                    Side::A => Market { token_a_volume: (self.token_a_volume - rate) as u64, ..self },
                    Side::B => Market { token_b_volume: (self.token_b_volume - rate) as u64, ..self },
                },
            )
        }
    }

    /// Adds the flow of a new position to its side of the ledger.
    pub fn add_volume(&mut self, side: Side, rate: u64) -> (r: Result<(), CustomErrorCode>)
        ensures
            match old(self).with_more(side, rate) {
                Some(market) => r is Ok && *final(self) == market,
                None => r == Err::<(), CustomErrorCode>(CustomErrorCode::ArithmeticOverflow)
                    && *final(self) == *old(self),
            },
    {
        match side {
            Side::A => match self.token_a_volume.checked_add(rate) {
                Some(volume) => {
                    self.token_a_volume = volume;
                    Ok(())
                },
                None => Err(CustomErrorCode::ArithmeticOverflow),
            },
            Side::B => match self.token_b_volume.checked_add(rate) {
                Some(volume) => {
                    self.token_b_volume = volume;
                    Ok(())
                },
                None => Err(CustomErrorCode::ArithmeticOverflow),
            },
        }
    }

    /// Takes the flow of a position that leaves early off its side of the
    /// ledger.
    pub fn remove_volume(&mut self, side: Side, rate: u64) -> (r: Result<(), CustomErrorCode>)
        ensures
            match old(self).with_less(side, rate) {
                Some(market) => r is Ok && *final(self) == market,
                None => r == Err::<(), CustomErrorCode>(CustomErrorCode::ArithmeticOverflow)
                    && *final(self) == *old(self),
            },
    {
        match side {
            Side::A => match self.token_a_volume.checked_sub(rate) {
                Some(volume) => {
                    self.token_a_volume = volume;
                    Ok(())
                },
                None => Err(CustomErrorCode::ArithmeticOverflow),
            },
            Side::B => match self.token_b_volume.checked_sub(rate) {
                Some(volume) => {
                    self.token_b_volume = volume;
                    Ok(())
                },
                None => Err(CustomErrorCode::ArithmeticOverflow),
            },
        }
    }
}

} // verus!
