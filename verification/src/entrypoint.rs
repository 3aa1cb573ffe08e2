//! How a program is started, and how it fails.

use vstd::prelude::*;
use crate::keys::Pubkey;

verus! {

/// Why a program refuses to run.
#[derive(Debug, Clone, Copy, PartialEq, Eq, Structural)]
pub enum ProgramError {
    IncorrectProgramId,
    InvalidArgument,
    InvalidInstructionData,
    InvalidAccountData,
    AccountDataTooSmall,
    InsufficientFounds,
    MissingRequiredSignature,
    StateDataTooSmall,
    ArithmeticOverflow,
    Custom(u64),
}

/// What a program returns.
pub type ProgramResult = Result<(), ProgramError>;

/// The account that a program runs under.
#[derive(Debug)]
pub struct ProgramAccount {
    pub lamports: u64,
    pub owner: Pubkey,
    pub data: Vec<u8>,
    pub executable: bool,
}

/// The bytes of the identity whose bytes all are `b`.
pub open spec fn filled_key(b: u8) -> Seq<u8> {
    Seq::new(32, |i: int| b)
}

/// The identity of the system program: 32 bytes of zero.
pub fn sys_id() -> (id: Pubkey)
    ensures
        id@ == filled_key(0),
{
    let id = Pubkey([0u8; 32]);
    assert(id@ =~= filled_key(0));
    id
}

/// The identity of the token program: 32 bytes of one.
pub fn token_id() -> (id: Pubkey)
    ensures
        id@ == filled_key(1),
{
    let id = Pubkey([1u8; 32]);
    assert(id@ =~= filled_key(1));
    id
}

/// The identity of the mint program: 32 bytes of two.
pub fn mint_id() -> (id: Pubkey)
    ensures
        id@ == filled_key(2),
{
    let id = Pubkey([2u8; 32]);
    assert(id@ =~= filled_key(2));
    id
}

/// Decides whether the program `program_id` can be started: only the system
/// program can, and any other identity is refused as invalid account data.
pub fn start(program_id: Pubkey) -> (res: ProgramResult)
    ensures
        res == if program_id@ == filled_key(0) {
            Ok::<(), ProgramError>(())
        } else {
            Err::<(), ProgramError>(ProgramError::InvalidAccountData)
        },
{
    if program_id == sys_id() {
        Ok(())
    } else {
        Err(ProgramError::InvalidAccountData)
    }
}

/// Starts the system, the token and the mint program in turn and stops at
/// the first that is refused, which is the token program.
pub fn run() -> (res: ProgramResult)
    ensures
        res == Err::<(), ProgramError>(ProgramError::InvalidAccountData),
{
    match start(sys_id()) {
        Ok(_) => {},
        Err(e) => {
            return Err(e);
        },
    }
    proof {
        assert(filled_key(1)[0] != filled_key(0)[0]);
    }
    match start(token_id()) {
        Ok(_) => {},
        Err(e) => {
            return Err(e);
        },
    }
    start(mint_id())
}

} // verus!
