//! The mint program: the supply that exists, and its issue to holders.

use vstd::prelude::*;
use vstd::string::StringExecFns;
use crate::keys::Pubkey;
use crate::token::{balance_of, not_enough_supply, Token};

verus! {

/// A mint: the supply it has issued, who runs it, and the decimals of the
/// token.
pub struct Mint {
    pub total_supply: u64,
    pub mint_authority: Pubkey,
    pub decimals: u8,
}

impl Mint {
    /// A new mint with the given supply.
    pub fn genesis(total_supply: u64, mint_authority: Pubkey, decimals: u8) -> (mint: Self)
        ensures
            mint.total_supply == total_supply,
            mint.mint_authority == mint_authority,
            mint.decimals == decimals,
    {
        Mint { total_supply, mint_authority, decimals }
    }

    /// Issues `amount` more: the supply and the mint's own balance in `token`
    /// grow by it. Only the mint authority may ask for it, the mint must have
    /// an account, and both sums must fit.
    pub fn mint(&mut self, token: &mut Token, authority: Pubkey, amount: u64)
        requires
            authority@ == old(self).mint_authority@,
            old(self).total_supply + amount <= u64::MAX,
            old(token).accounts@.contains_key(old(self).mint_authority@),
            old(token).accounts@[old(self).mint_authority@] + amount <= u64::MAX,
        ensures
            final(self).total_supply == old(self).total_supply + amount,
            final(self).mint_authority == old(self).mint_authority,
            final(self).decimals == old(self).decimals,
            final(token).accounts@ == old(token).accounts@.insert(
                old(self).mint_authority@,
                (old(token).accounts@[old(self).mint_authority@] + amount) as u64,
            ),
            final(token).supply == old(token).supply,
            final(token).mint_authority == old(token).mint_authority,
            final(token).decimals == old(token).decimals,
    {
        self.total_supply = self.total_supply + amount;
        let held: u64 = match token.accounts.get(&self.mint_authority) {
            Some(b) => b,
            None => 0,
        };
        token.accounts.insert(self.mint_authority, held + amount);
    }

    /// Hands `amount` from the mint's own balance in `token` to `recipient`.
    /// The mint must have an account; where it holds less than the amount,
    /// nothing changes. What the recipient then holds must fit.
    pub fn mint_to(&mut self, token: &mut Token, recipient: Pubkey, amount: u64) -> (res: Result<
        (),
        String,
    >)
        requires
            old(token).accounts@.contains_key(old(self).mint_authority@),
            old(token).accounts@[old(self).mint_authority@] >= amount && recipient@ != old(
                self,
            ).mint_authority@ ==> balance_of(old(token).accounts@, recipient@) + amount
                <= u64::MAX,
        ensures
            *final(self) == *old(self),
            final(token).supply == old(token).supply,
            final(token).mint_authority == old(token).mint_authority,
            final(token).decimals == old(token).decimals,
            ({
                let own = old(self).mint_authority@;
                let held = old(token).accounts@[own];
                if held < amount {
                    &&& res matches Err(e) && e@ == not_enough_supply()
                    &&& final(token).accounts@ == old(token).accounts@
                } else {
                    &&& res is Ok
                    &&& final(token).accounts@ == old(token).accounts@.insert(
                        own,
                        (held - amount) as u64,
                    ).insert(
                        recipient@,
                        (balance_of(
                            old(token).accounts@.insert(own, (held - amount) as u64),
                            recipient@,
                        ) + amount) as u64,
                    )
                }
            }),
    {
        let held: u64 = match token.accounts.get(&self.mint_authority) {
            Some(b) => b,
            None => 0,
        };
        if held < amount {
            return Err(String::from_str("Not enough supply to transfer"));
        }
        token.accounts.insert(self.mint_authority, held - amount);
        let had: u64 = match token.accounts.get(&recipient) {
            Some(b) => b,
            None => 0,
        };
        token.accounts.insert(recipient, had + amount);
        Ok(())
    }

    /// Destroys `amount`: the supply and the mint's own balance in `token`
    /// shrink by it. The mint must have an account, and both must cover the
    /// amount.
    pub fn burn(&mut self, token: &mut Token, amount: u64)
        requires
            old(token).accounts@.contains_key(old(self).mint_authority@),
            old(self).total_supply >= amount,
            old(token).accounts@[old(self).mint_authority@] >= amount,
        ensures
            final(self).total_supply == old(self).total_supply - amount,
            final(self).mint_authority == old(self).mint_authority,
            final(self).decimals == old(self).decimals,
            final(token).accounts@ == old(token).accounts@.insert(
                old(self).mint_authority@,
                (old(token).accounts@[old(self).mint_authority@] - amount) as u64,
            ),
            final(token).supply == old(token).supply,
            final(token).mint_authority == old(token).mint_authority,
            final(token).decimals == old(token).decimals,
    {
        let held: u64 = match token.accounts.get(&self.mint_authority) {
            Some(b) => b,
            None => 0,
        };
        self.total_supply = self.total_supply - amount;
        token.accounts.insert(self.mint_authority, held - amount);
    }
}

} // verus!
