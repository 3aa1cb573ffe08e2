//! Accounts and the set that holds them by owner.

use vstd::prelude::*;
use crate::digest::Hashable;
use crate::keys::{Pubkey, Signature};
use crate::le_bytes::{le_bytes, u64_to_bytes};
use crate::pubkey_map::PubkeyMap;

verus! {

/// An account: what its owner holds, the data stored for it, and whether it
/// carries a program.
pub struct Account {
    pub balance: u64,
    pub owner: Pubkey,
    pub lamports: u64,
    pub data: Vec<u8>,
    pub executable: bool,
    pub signature: Option<Signature>,
}

impl Account {
    /// An account with the given contents.
    pub fn new(
        balance: u64,
        owner: Pubkey,
        lamports: u64,
        data: Vec<u8>,
        executable: bool,
        signature: Option<Signature>,
    ) -> (account: Self)
        ensures
            account.balance == balance,
            account.owner == owner,
            account.lamports == lamports,
            account.data == data,
            account.executable == executable,
            account.signature == signature,
    {
        Account { balance, owner, lamports, data, executable, signature }
    }
}

impl Hashable for Account {
    /// The balance in eight little-endian bytes, the owner, the lamports in
    /// eight little-endian bytes, the data, a byte that tells whether the
    /// account carries a program, and the signature or, where there is
    /// none, one zero byte.
    open spec fn spec_bytes(&self) -> Seq<u8> {
        le_bytes(self.balance as nat, 8) + self.owner@ + le_bytes(self.lamports as nat, 8)
            + self.data@ + seq![
            if self.executable {
                1u8
            } else {
                0u8
            },
        ] + match self.signature {
            Some(s) => s@,
            None => seq![0u8],
        }
    }

    fn bytes(&self) -> (out: Vec<u8>) {
        let mut out: Vec<u8> = Vec::new();
        let balance: [u8; 8] = u64_to_bytes(&self.balance);
        out.extend_from_slice(&balance);
        out.extend_from_slice(&self.owner.0);
        let lamports: [u8; 8] = u64_to_bytes(&self.lamports);
        out.extend_from_slice(&lamports);
        out.extend_from_slice(self.data.as_slice());
        if self.executable {
            out.push(1u8);
        } else {
            out.push(0u8);
        }
        match &self.signature {
            Some(s) => {
                out.extend_from_slice(&s.0);
            },
            None => {
                out.push(0u8);
            },
        }
        assert(out@ =~= self.spec_bytes());
        out
    }
}

/// The accounts of a ledger, by owner.
pub struct AccountSet {
    accounts: PubkeyMap<Account>,
}

impl View for AccountSet {
    type V = Map<Seq<u8>, Account>;

    closed spec fn view(&self) -> Map<Seq<u8>, Account> {
        self.accounts@
    }
}

impl AccountSet {
    /// The empty set.
    pub fn new() -> (set: Self)
        ensures
            set@ == Map::<Seq<u8>, Account>::empty(),
    {
        AccountSet { accounts: PubkeyMap::new() }
    }

    /// The account of `pubkey`, if it has one.
    pub fn get_account(&self, pubkey: &Pubkey) -> (account: Option<&Account>)
        ensures
            match account {
                Some(a) => self@.contains_key(pubkey@) && *a == self@[pubkey@],
                None => !self@.contains_key(pubkey@),
            },
    {
        self.accounts.get_ref(pubkey)
    }

    /// Stores `account` for `pubkey`, in the place of the one it had.
    pub fn insert_account(&mut self, pubkey: Pubkey, account: Account)
        ensures
            final(self)@ == old(self)@.insert(pubkey@, account),
    {
        self.accounts.insert(pubkey, account);
    }
}

} // verus!
