//! What the wallet's prompt decides: how a key pair is read from text, and
//! what the answers to its questions mean.

use vstd::prelude::*;
use vstd::string::StringExecFns;
use crate::decimal::{parse_u64, parsed_u64};
use crate::keys::Pubkey;

verus! {

/// Why the prompt turns a user back.
#[derive(Debug, Clone, Copy, PartialEq, Eq, Structural)]
pub enum ReplError {
    ParseError,
    ParseIntError,
    KeypairError,
    InvalidConversionError,
    HumanIdentificationError,
    BackToPrevious,
}

impl ReplError {
    /// The text that tells the user of the error.
    pub fn message(&self) -> (text: String)
        ensures
            text@ == match *self {
                ReplError::ParseError => "Error parsing input"@,
                ReplError::ParseIntError => "Error parsing int input"@,
                ReplError::KeypairError => "Error creating keypair"@,
                ReplError::InvalidConversionError => "Error invalid phrase"@,
                ReplError::HumanIdentificationError => "Error identifying non-robot"@,
                ReplError::BackToPrevious => "Back to previous"@,
            },
    {
        match self {
            ReplError::ParseError => String::from_str("Error parsing input"),
            ReplError::ParseIntError => String::from_str("Error parsing int input"),
            ReplError::KeypairError => String::from_str("Error creating keypair"),
            ReplError::InvalidConversionError => String::from_str("Error invalid phrase"),
            ReplError::HumanIdentificationError => String::from_str("Error identifying non-robot"),
            ReplError::BackToPrevious => String::from_str("Back to previous"),
        }
    }
}

/// Whether the byte `c` is a space, a tab, a line feed or a carriage
/// return.
pub open spec fn is_blank(c: u8) -> bool {
    c == 32 || c == 9 || c == 10 || c == 13
}

/// `s` without its blanks.
pub open spec fn without_blanks(s: Seq<u8>) -> Seq<u8>
    decreases s.len(),
{
    if s.len() == 0 {
        Seq::empty()
    } else if is_blank(s.last()) {
        without_blanks(s.drop_last())
    } else {
        without_blanks(s.drop_last()).push(s.last())
    }
}

/// `s` without an opening bracket at its start and a closing bracket at its
/// end. Where the closing bracket is missing, `s` is taken as it is.
pub open spec fn unbracketed(s: Seq<u8>) -> Seq<u8> {
    let opened = if s.len() > 0 && s[0] == 91 {
        s.skip(1)
    } else {
        s
    };
    if opened.len() > 0 && opened.last() == 93 {
        opened.drop_last()
    } else {
        s
    }
}

/// The pieces of `s` between its commas.
pub open spec fn pieces(s: Seq<u8>) -> Seq<Seq<u8>>
    decreases s.len(),
{
    if s.len() == 0 {
        seq![Seq::empty()]
    } else {
        let before = pieces(s.drop_last());
        if s.last() == 44 {
            before.push(Seq::empty())
        } else {
            before.drop_last().push(before.last().push(s.last()))
        }
    }
}

/// The byte that the piece `piece` writes in decimal, if it writes one.
pub open spec fn piece_byte(piece: Seq<u8>) -> Option<u8> {
    match parsed_u64(piece) {
        Some(v) => if v <= 255 {
            Some(v as u8)
        } else {
            None
        },
        None => None,
    }
}

/// The bytes that the pieces `ps` write, if each writes one.
pub open spec fn pieces_bytes(ps: Seq<Seq<u8>>) -> Option<Seq<u8>>
    decreases ps.len(),
{
    if ps.len() == 0 {
        Some(Seq::empty())
    } else {
        match (pieces_bytes(ps.drop_last()), piece_byte(ps.last())) {
            (Some(front), Some(b)) => Some(front.push(b)),
            _ => None,
        }
    }
}

/// The key pair that `text` writes: 64 bytes in decimal between commas,
/// with or without brackets around them, blanks counting for nothing. A
/// piece that writes no byte is an error of parsing, and another count than
/// 64 an error of the phrase.
pub open spec fn parsed_keypair(text: Seq<u8>) -> Result<Seq<u8>, ReplError> {
    match pieces_bytes(pieces(unbracketed(without_blanks(text)))) {
        None => Err(ReplError::ParseIntError),
        Some(bytes) => if bytes.len() == 64 {
            Ok(bytes)
        } else {
            Err(ReplError::InvalidConversionError)
        },
    }
}

/// Pieces of which a first part writes no bytes write none.
pub proof fn lemma_pieces_bytes_prefix(ps: Seq<Seq<u8>>, k: int)
    requires
        0 <= k <= ps.len(),
        pieces_bytes(ps.take(k)) is None,
    ensures
        pieces_bytes(ps) is None,
    decreases ps.len(),
{
    if k == ps.len() {
        assert(ps.take(k) =~= ps);
    } else {
        assert(ps.drop_last().take(k) =~= ps.take(k));
        lemma_pieces_bytes_prefix(ps.drop_last(), k);
    }
}

/// Reads a key pair from text.
pub fn parse_keypair(text: &[u8]) -> (res: Result<[u8; 64], ReplError>)
    ensures
        match (res, parsed_keypair(text@)) {
            (Ok(pair), Ok(expected)) => pair@ == expected,
            (Err(e), Err(expected)) => e == expected,
            _ => false,
        },
{
    // The text without its blanks.
    let mut clean: Vec<u8> = Vec::new();
    let mut i: usize = 0;
    while i < text.len()
        invariant
            0 <= i <= text@.len(),
            clean@ == without_blanks(text@.take(i as int)),
        decreases text@.len() - i,
    {
        proof {
            assert(text@.take(i + 1).drop_last() =~= text@.take(i as int));
        }
        let c: u8 = text[i];
        if !(c == 32 || c == 9 || c == 10 || c == 13) {
            clean.push(c);
        }
        i = i + 1;
    }
    proof {
        assert(text@.take(text@.len() as int) =~= text@);
    }
    // Without the brackets.
    let n: usize = clean.len();
    let from: usize = if n > 0 && clean[0] == 91 {
        1
    } else {
        0
    };
    let closed: bool = n > from && clean[n - 1] == 93;
    let (start, end): (usize, usize) = if closed {
        (from, (n - 1) as usize)
    } else {
        (0, n)
    };
    let ghost inner = clean@.subrange(start as int, end as int);
    proof {
        let opened = if clean@.len() > 0 && clean@[0] == 91 {
            clean@.skip(1)
        } else {
            clean@
        };
        assert(opened =~= clean@.subrange(from as int, n as int));
        if closed {
            assert(opened.drop_last() =~= inner);
        } else {
            assert(inner =~= clean@);
        }
        assert(inner == unbracketed(clean@));
    }
    // The bytes of the pieces between the commas.
    let mut bytes: Vec<u8> = Vec::new();
    let mut piece: Vec<u8> = Vec::new();
    let mut k: usize = start;
    let ghost mut done: Seq<Seq<u8>> = Seq::empty();
    while k < end
        invariant
            start <= k <= end <= clean@.len(),
            inner == clean@.subrange(start as int, end as int),
            inner == unbracketed(without_blanks(text@)),
            pieces(inner.take(k - start)) == done.push(piece@),
            pieces_bytes(done) == Some(bytes@),
        decreases end - k,
    {
        let c: u8 = clean[k];
        proof {
            assert(inner.take(k - start + 1).drop_last() =~= inner.take(k - start));
            assert(inner.take(k - start + 1).last() == c);
            assert(done.push(piece@).drop_last() =~= done);
        }
        if c == 44 {
            let value: Option<u64> = parse_u64(piece.as_slice());
            let ghost finished = done.push(piece@);
            proof {
                assert(finished.drop_last() =~= done);
                assert(finished.last() == piece@);
                assert(pieces(inner.take(k - start + 1)) == finished.push(Seq::empty()));
            }
            match value {
                Some(v) => {
                    if v > 255 {
                        proof {
                            assert(pieces_bytes(finished) is None);
                            lemma_whole_fails(inner, k - start + 1, finished, Seq::empty());
                        }
                        return Err(ReplError::ParseIntError);
                    }
                    bytes.push(v as u8);
                },
                None => {
                    proof {
                        assert(pieces_bytes(finished) is None);
                        lemma_whole_fails(inner, k - start + 1, finished, Seq::empty());
                    }
                    return Err(ReplError::ParseIntError);
                },
            }
            proof {
                done = finished;
            }
            piece = Vec::new();
        } else {
            piece.push(c);
        }
        k = k + 1;
    }
    proof {
        assert(inner.take(end - start) =~= inner);
    }
    let ghost all = done.push(piece@);
    proof {
        assert(all.drop_last() =~= done);
    }
    match parse_u64(piece.as_slice()) {
        Some(v) => {
            if v > 255 {
                return Err(ReplError::ParseIntError);
            }
            bytes.push(v as u8);
        },
        None => {
            return Err(ReplError::ParseIntError);
        },
    }
    if bytes.len() != 64 {
        return Err(ReplError::InvalidConversionError);
    }
    let mut pair: [u8; 64] = [0u8; 64];
    let mut j: usize = 0;
    while j < 64
        invariant
            0 <= j <= 64,
            bytes@.len() == 64,
            forall|m: int| 0 <= m < j ==> pair@[m] == bytes@[m],
        decreases 64 - j,
    {
        pair[j] = bytes[j];
        j = j + 1;
    }
    assert(pair@ =~= bytes@);
    Ok(pair)
}

/// Text whose pieces so far hold one that writes no byte writes no key
/// pair, whatever follows.
pub proof fn lemma_whole_fails(s: Seq<u8>, upto: int, done: Seq<Seq<u8>>, open: Seq<u8>)
    requires
        0 <= upto <= s.len(),
        pieces(s.take(upto)) == done.push(open),
        pieces_bytes(done) is None,
    ensures
        pieces_bytes(pieces(s)) is None,
    decreases s.len() - upto,
{
    if upto == s.len() {
        assert(s.take(upto) =~= s);
        assert(done.push(open).take(done.len() as int) =~= done);
        lemma_pieces_bytes_prefix(done.push(open), done.len() as int);
    } else {
        assert(s.take(upto + 1).drop_last() =~= s.take(upto));
        assert(done.push(open).drop_last() =~= done);
        if s[upto] == 44 {
            let longer = done.push(open);
            assert(longer.take(done.len() as int) =~= done);
            lemma_pieces_bytes_prefix(longer, done.len() as int);
            lemma_whole_fails(s, upto + 1, longer, Seq::empty());
        } else {
            lemma_whole_fails(s, upto + 1, done, open.push(s[upto]));
        }
    }
}

/// The public half of a key pair: its last 32 bytes.
pub fn keypair_pubkey(pair: &[u8; 64]) -> (key: Pubkey)
    ensures
        key@ == pair@.subrange(32, 64),
{
    let mut bytes: [u8; 32] = [0u8; 32];
    let mut i: usize = 0;
    while i < 32
        invariant
            0 <= i <= 32,
            forall|j: int| 0 <= j < i ==> bytes@[j] == pair@[32 + j],
        decreases 32 - i,
    {
        bytes[i] = pair[i + 32];
        i = i + 1;
    }
    assert(bytes@ =~= pair@.subrange(32, 64));
    Pubkey(bytes)
}

/// What the user chose in the main menu.
#[derive(Debug, Clone, Copy, PartialEq, Eq, Structural)]
pub enum MenuChoice {
    Quit,
    LogIn,
    CreateWallet,
    Invalid,
}

/// Reads the number that the user chose in the main menu.
pub fn menu_choice(n: usize) -> (choice: MenuChoice)
    ensures
        choice == if n == 0 {
            MenuChoice::Quit
        } else if n == 1 {
            MenuChoice::LogIn
        } else if n == 2 {
            MenuChoice::CreateWallet
        } else {
            MenuChoice::Invalid
        },
{
    if n == 0 {
        MenuChoice::Quit
    } else if n == 1 {
        MenuChoice::LogIn
    } else if n == 2 {
        MenuChoice::CreateWallet
    } else {
        MenuChoice::Invalid
    }
}

/// How often a question is asked before the prompt gives up.
pub const TRIES: u8 = 5;

/// Whether the number that the user typed is the challenge, which shows a
/// human.
pub fn is_human_answer(challenge: usize, typed: usize) -> (human: bool)
    ensures
        human == (challenge == typed),
{
    challenge == typed
}

/// What the user answered when asked whether to register the wallet.
#[derive(Debug, Clone, Copy, PartialEq, Eq, Structural)]
pub enum Answer {
    Yes,
    No,
    Unclear,
}

/// Reads the answer to a question that `y` affirms and `n` denies.
pub fn read_answer(input: &String) -> (answer: Answer)
    ensures
        answer == if input@ == "y"@ {
            Answer::Yes
        } else if input@ == "n"@ {
            Answer::No
        } else {
            Answer::Unclear
        },
{
    let yes: String = String::from_str("y");
    let no: String = String::from_str("n");
    if *input == yes {
        Answer::Yes
    } else if *input == no {
        Answer::No
    } else {
        Answer::Unclear
    }
}

} // verus!
