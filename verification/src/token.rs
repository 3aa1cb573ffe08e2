//! The token program: a supply and the balances of its holders.

use vstd::prelude::*;
use vstd::string::StringExecFns;
use crate::keys::Pubkey;
use crate::mint::Mint;
use crate::pubkey_map::PubkeyMap;

verus! {

/// What `accounts` holds for the identity `key`, nothing counting as zero.
pub open spec fn balance_of(accounts: Map<Seq<u8>, u64>, key: Seq<u8>) -> u64 {
    if accounts.contains_key(key) {
        accounts[key]
    } else {
        0
    }
}

/// What `transfer` answers when the mint authority sends more than the
/// supply.
pub open spec fn not_enough_supply() -> Seq<char> {
    "Not enough supply to transfer"@
}

/// What `transfer` answers when the sender holds less than the amount.
pub open spec fn not_enough_balance() -> Seq<char> {
    "Not enough balance to transfer"@
}

/// A token: its supply, who may mint it, and what each holder has.
pub struct Token {
    pub supply: u64,
    pub mint_authority: Pubkey,
    pub decimals: u8,
    pub accounts: PubkeyMap<u64>,
}

impl Token {
    /// A new token whose whole supply lies with the mint authority.
    pub fn genesis(total_supply: u64, mint_authority: Pubkey, decimals: u8) -> (token: Self)
        ensures
            token.supply == total_supply,
            token.mint_authority == mint_authority,
            token.decimals == decimals,
            token.accounts@ == Map::<Seq<u8>, u64>::empty().insert(mint_authority@, total_supply),
    {
        let mut accounts: PubkeyMap<u64> = PubkeyMap::new();
        accounts.insert(mint_authority, total_supply);
        Token { supply: total_supply, mint_authority, decimals, accounts }
    }

    /// Raises the supply that `mint` counts by `amount`. Only the mint
    /// authority may ask for it, and the new supply must fit.
    pub fn mint_to(&mut self, mint: &mut Mint, authority: Pubkey, amount: u64)
        requires
            authority@ == old(mint).mint_authority@,
            old(mint).total_supply + amount <= u64::MAX,
        ensures
            *final(self) == *old(self),
            final(mint).total_supply == old(mint).total_supply + amount,
            final(mint).mint_authority == old(mint).mint_authority,
            final(mint).decimals == old(mint).decimals,
    {
        mint.total_supply = mint.total_supply + amount;
    }

    /// Moves `amount` from `sender` to `recipient`.
    ///
    /// Where the sender is the mint authority the supply must cover the
    /// amount, and is lowered by it, before anything else. Then the sender
    /// gets an account if it had none, and must hold the amount. What the
    /// recipient then holds must fit.
    pub fn transfer(&mut self, mint: &mut Mint, sender: Pubkey, recipient: Pubkey, amount: u64) -> (res:
        Result<(), String>)
        requires
            ({
                let lowered = old(self).supply >= amount || sender@ != old(mint).mint_authority@;
                let covered = balance_of(old(self).accounts@, sender@) >= amount;
                lowered && covered && sender@ != recipient@ ==> balance_of(
                    old(self).accounts@,
                    recipient@,
                ) + amount <= u64::MAX
            }),
        ensures
            *final(mint) == *old(mint),
            final(self).mint_authority == old(self).mint_authority,
            final(self).decimals == old(self).decimals,
            ({
                let from_mint = sender@ == old(mint).mint_authority@;
                let held = balance_of(old(self).accounts@, sender@);
                if from_mint && old(self).supply < amount {
                    &&& res matches Err(e) && e@ == not_enough_supply()
                    &&& final(self).supply == old(self).supply
                    &&& final(self).accounts@ == old(self).accounts@
                } else {
                    &&& final(self).supply == if from_mint {
                        (old(self).supply - amount) as u64
                    } else {
                        old(self).supply
                    }
                    &&& if held < amount {
                        &&& res matches Err(e) && e@ == not_enough_balance()
                        &&& final(self).accounts@ == old(self).accounts@.insert(sender@, held)
                    } else {
                        &&& res is Ok
                        &&& final(self).accounts@ == old(self).accounts@.insert(
                            sender@,
                            (held - amount) as u64,
                        ).insert(
                            recipient@,
                            (balance_of(
                                old(self).accounts@.insert(sender@, (held - amount) as u64),
                                recipient@,
                            ) + amount) as u64,
                        )
                    }
                }
            }),
    {
        if sender == mint.mint_authority {
            if self.supply < amount {
                return Err(String::from_str("Not enough supply to transfer"));
            } else {
                self.supply = self.supply - amount;
            }
        }
        let held: u64 = match self.accounts.get(&sender) {
            Some(b) => b,
            None => 0,
        };
        if held < amount {
            self.accounts.insert(sender, held);
            return Err(String::from_str("Not enough balance to transfer"));
        }
        self.accounts.insert(sender, held - amount);
        let had: u64 = match self.accounts.get(&recipient) {
            Some(b) => b,
            None => 0,
        };
        self.accounts.insert(recipient, had + amount);
        Ok(())
    }

    /// What `account` holds, nothing counting as zero.
    pub fn get_balance(&self, account: Pubkey) -> (balance: u64)
        ensures
            balance == balance_of(self.accounts@, account@),
    {
        match self.accounts.get(&account) {
            Some(b) => b,
            None => 0,
        }
    }

    /// Takes `amount` out of the supply, here and in what `mint` counts. Both
    /// must cover it.
    pub fn burn(&mut self, amount: u64, mint: &mut Mint)
        requires
            old(self).supply >= amount,
            old(mint).total_supply >= amount,
        ensures
            final(self).supply == old(self).supply - amount,
            final(self).mint_authority == old(self).mint_authority,
            final(self).decimals == old(self).decimals,
            final(self).accounts == old(self).accounts,
            final(mint).total_supply == old(mint).total_supply - amount,
            final(mint).mint_authority == old(mint).mint_authority,
            final(mint).decimals == old(mint).decimals,
    {
        self.supply = self.supply - amount;
        mint.total_supply = mint.total_supply - amount;
    }
}

} // verus!
