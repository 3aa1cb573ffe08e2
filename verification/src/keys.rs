//! Identities and signature placeholders: fixed-size byte strings that are
//! compared, ordered and hashed by their bytes.

use vstd::prelude::*;
use vstd::std_specs::cmp::PartialEqSpecImpl;
use vstd::string::StringExecFns;
use crate::digest::Hashable;

verus! {

/// Whether `a` comes before `b` in byte order, looking from position `from`
/// on: at the first position where they differ `a` holds the smaller byte, or
/// `a` ends first.
pub open spec fn lex_lt_from(a: Seq<u8>, b: Seq<u8>, from: int) -> bool
    decreases a.len() - from,
{
    if from < 0 || from >= a.len() || from >= b.len() {
        a.len() < b.len()
    } else if a[from] != b[from] {
        a[from] < b[from]
    } else {
        lex_lt_from(a, b, from + 1)
    }
}

/// Whether `a` comes strictly before `b` in byte order.
pub open spec fn lex_lt(a: Seq<u8>, b: Seq<u8>) -> bool {
    lex_lt_from(a, b, 0)
}

/// Two byte strings that agree up to `from` and are ordered neither way from
/// there on are the same string.
pub proof fn lemma_lex_total_from(a: Seq<u8>, b: Seq<u8>, from: int)
    requires
        a.len() == b.len(),
        0 <= from <= a.len(),
        forall|j: int| 0 <= j < from ==> a[j] == b[j],
        !lex_lt_from(a, b, from),
        !lex_lt_from(b, a, from),
    ensures
        a == b,
    decreases a.len() - from,
{
    if from < a.len() {
        lemma_lex_total_from(a, b, from + 1);
    } else {
        assert(a =~= b);
    }
}

/// Byte order is total on strings of one length.
pub proof fn lemma_lex_total(a: Seq<u8>, b: Seq<u8>)
    requires
        a.len() == b.len(),
    ensures
        a == b || lex_lt(a, b) || lex_lt(b, a),
{
    if !lex_lt(a, b) && !lex_lt(b, a) {
        lemma_lex_total_from(a, b, 0);
    }
}

/// No byte string comes before itself, from any position on.
pub proof fn lemma_lex_irreflexive_from(a: Seq<u8>, from: int)
    ensures
        !lex_lt_from(a, a, from),
    decreases a.len() - from,
{
    if 0 <= from < a.len() {
        lemma_lex_irreflexive_from(a, from + 1);
    }
}

/// No byte string comes before itself.
pub proof fn lemma_lex_irreflexive(a: Seq<u8>)
    ensures
        !lex_lt(a, a),
{
    lemma_lex_irreflexive_from(a, 0);
}

/// Byte order is transitive on strings of one length, from any position on.
pub proof fn lemma_lex_transitive_from(a: Seq<u8>, b: Seq<u8>, c: Seq<u8>, from: int)
    requires
        a.len() == b.len(),
        b.len() == c.len(),
        lex_lt_from(a, b, from),
        lex_lt_from(b, c, from),
    ensures
        lex_lt_from(a, c, from),
    decreases a.len() - from,
{
    if 0 <= from < a.len() {
        if a[from] == b[from] && b[from] == c[from] {
            lemma_lex_transitive_from(a, b, c, from + 1);
        }
    }
}

/// Byte order is transitive on strings of one length.
pub proof fn lemma_lex_transitive(a: Seq<u8>, b: Seq<u8>, c: Seq<u8>)
    requires
        a.len() == b.len(),
        b.len() == c.len(),
        lex_lt(a, b),
        lex_lt(b, c),
    ensures
        lex_lt(a, c),
{
    lemma_lex_transitive_from(a, b, c, 0);
}

/// A public key: 32 opaque bytes that name an identity.
#[derive(Clone, Copy, Debug)]
pub struct Pubkey(pub [u8; 32]);

impl View for Pubkey {
    type V = Seq<u8>;

    open spec fn view(&self) -> Seq<u8> {
        self.0@
    }
}

/// How two identities stand to each other in byte order.
#[derive(Clone, Copy, Debug, PartialEq, Eq, Structural)]
pub enum KeyOrder {
    Before,
    Same,
    After,
}

impl Pubkey {
    /// The identity with the given bytes.
    pub fn const_new(pubkey_bytes: [u8; 32]) -> (key: Pubkey)
        ensures
            key@ == pubkey_bytes@,
    {
        Pubkey(pubkey_bytes)
    }

    /// The identity with a copy of the given bytes.
    pub fn new(pubkey_bytes: [u8; 32]) -> (key: Pubkey)
        ensures
            key@ == pubkey_bytes@,
    {
        let mut arr: [u8; 32] = [0u8; 32];
        let mut i: usize = 0;
        while i < 32
            invariant
                0 <= i <= 32,
                forall|j: int| 0 <= j < i ==> arr@[j] == pubkey_bytes@[j],
            decreases 32 - i,
        {
            arr[i] = pubkey_bytes[i];
            i = i + 1;
        }
        assert(arr@ =~= pubkey_bytes@);
        Pubkey(arr)
    }

    /// A random identity.
    pub fn new_rand() -> (key: Pubkey) {
        Pubkey(crate::random::random_bytes32())
    }

    /// Where `self` stands to `other` in byte order.
    pub fn order(&self, other: &Pubkey) -> (o: KeyOrder)
        ensures
            o == KeyOrder::Before <==> lex_lt(self@, other@),
            o == KeyOrder::Same <==> self@ == other@,
            o == KeyOrder::After <==> lex_lt(other@, self@),
    {
        let mut i: usize = 0;
        while i < 32
            invariant
                0 <= i <= 32,
                forall|j: int| 0 <= j < i ==> self.0@[j] == other.0@[j],
                lex_lt(self@, other@) == lex_lt_from(self@, other@, i as int),
                lex_lt(other@, self@) == lex_lt_from(other@, self@, i as int),
            decreases 32 - i,
        {
            if self.0[i] < other.0[i] {
                return KeyOrder::Before;
            }
            if self.0[i] > other.0[i] {
                return KeyOrder::After;
            }
            i = i + 1;
        }
        assert(self@ =~= other@);
        KeyOrder::Same
    }
}

/// Identities with the same bytes are the same identity.
pub proof fn lemma_pubkey_view_injective(a: Pubkey, b: Pubkey)
    requires
        a@ == b@,
    ensures
        a == b,
{
    assert forall|i: int| 0 <= i < 32 implies a.0[i] == b.0[i] by {
        assert(a.0@[i] == b.0@[i]);
    }
    assert(a.0 =~= b.0);
}

impl PartialEq for Pubkey {
    fn eq(&self, other: &Pubkey) -> (equal: bool) {
        self.order(other) == KeyOrder::Same
    }
}

impl PartialEqSpecImpl for Pubkey {
    open spec fn obeys_eq_spec() -> bool {
        true
    }

    open spec fn eq_spec(&self, other: &Pubkey) -> bool {
        self@ == other@
    }
}

/// The Base58 text of `bytes` in the Bitcoin alphabet.
pub uninterp spec fn base58_text(bytes: Seq<u8>) -> Seq<char>;

/// What decoding the Base58 text `text` gives: the bytes it stands for, or
/// the decoder's message where it stands for none.
pub uninterp spec fn base58_decoded(text: Seq<char>) -> Result<Seq<u8>, Seq<char>>;

/// Calls `bs58::encode(..).into_string()`. The contract claims that the
/// string returned is the Base58 text of `data`, a function of `data` alone.
#[verifier::external_body]
fn base58_encode(data: &[u8]) -> (text: String)
    ensures
        text@ == base58_text(data@),
{
    bs58::encode(data).into_string()
}

/// Calls `bs58::decode(..).into_vec()`. The contract claims that the outcome
/// is a function of `text` alone: the bytes decoded, or the text of the
/// decoder's error.
#[verifier::external_body]
fn base58_decode(text: &str) -> (res: Result<Vec<u8>, String>)
    ensures
        match (res, base58_decoded(text@)) {
            (Ok(bytes), Ok(expected)) => bytes@ == expected,
            (Err(message), Err(expected)) => message@ == expected,
            _ => false,
        },
{
    match bs58::decode(text).into_vec() {
        Ok(bytes) => Ok(bytes),
        Err(e) => Err(e.to_string()),
    }
}

/// A public key written as Base58 text.
#[derive(Debug)]
pub struct EncodedPubkey(pub String);

/// What `to_pubkey` answers to text that decodes to other than 32 bytes.
pub open spec fn invalid_key_length() -> Seq<char> {
    "Invalid length for decoded EncodedPubkey"@
}

/// What `to_pubkey` puts before the decoder's message.
pub open spec fn decoding_failed() -> Seq<char> {
    "Error decoding EncodedPubkey: "@
}

impl EncodedPubkey {
    /// The Base58 text of `pubkey`.
    pub fn from_pubkey(pubkey: Pubkey) -> (encoded: EncodedPubkey)
        ensures
            encoded.0@ == base58_text(pubkey@),
    {
        EncodedPubkey(base58_encode(&pubkey.0))
    }

    /// The key that the text stands for. Text that does not decode is
    /// refused with the decoder's message, and text that decodes to other
    /// than 32 bytes with a message of its own.
    pub fn to_pubkey(&self) -> (res: Result<Pubkey, String>)
        ensures
            match base58_decoded(self.0@) {
                Ok(bytes) => if bytes.len() == 32 {
                    res matches Ok(key) && key@ == bytes
                } else {
                    res matches Err(message) && message@ == invalid_key_length()
                },
                Err(why) => res matches Err(message) && message@ == decoding_failed() + why,
            },
    {
        let decoded: Vec<u8> = match base58_decode(self.0.as_str()) {
            Ok(bytes) => bytes,
            Err(why) => {
                let message: String = String::from_str("Error decoding EncodedPubkey: ").concat(
                    why.as_str(),
                );
                return Err(message);
            },
        };
        if decoded.len() != 32 {
            return Err(String::from_str("Invalid length for decoded EncodedPubkey"));
        }
        let mut bytes: [u8; 32] = [0u8; 32];
        let mut i: usize = 0;
        while i < 32
            invariant
                0 <= i <= 32,
                decoded@.len() == 32,
                forall|j: int| 0 <= j < i ==> bytes@[j] == decoded@[j],
            decreases 32 - i,
        {
            bytes[i] = decoded[i];
            i = i + 1;
        }
        assert(bytes@ =~= decoded@);
        Ok(Pubkey(bytes))
    }
}

/// The place a block keeps for a signature: 64 bytes.
#[derive(Clone, Copy, Debug)]
pub struct Signature(pub [u8; 64]);

impl View for Signature {
    type V = Seq<u8>;

    open spec fn view(&self) -> Seq<u8> {
        self.0@
    }
}

impl Signature {
    /// The placeholder of an unsigned block: 64 zero bytes.
    pub fn empty() -> (s: Signature)
        ensures
            s@ == Seq::new(64, |i: int| 0u8),
    {
        let s = Signature([0u8; 64]);
        assert(s@ =~= Seq::new(64, |i: int| 0u8));
        s
    }
}

impl Hashable for Signature {
    open spec fn spec_bytes(&self) -> Seq<u8> {
        self@
    }

    fn bytes(&self) -> (out: Vec<u8>) {
        let mut out: Vec<u8> = Vec::new();
        out.extend_from_slice(&self.0);
        out
    }
}

} // verus!
