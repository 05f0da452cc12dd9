//! The message taxonomy of the protocol, the error kinds of its fatal
//! aborts, and the `Facilitator` capability through which a player
//! reaches its peers.
//!
//! The transport behind the capability is supplied by the embedding
//! program; the protocol requires of it only what the trait states:
//! messages are attributed to valid sender indices, and the gathering
//! calls return one message per expected sender.

use vstd::prelude::*;

use crate::encryption::{Ciphertext, PublicKey};
use crate::poly::Polynomial;

verus! {

/// The key material a player receives from the trusted dealer: the
/// common public key and this player's additive shares of `sk` and
/// `sk^2`.
pub struct KeyMaterial {
    pub pk: PublicKey,
    pub sk_i1: Polynomial,
    pub sk_i2: Polynomial,
}

/// The dealer-channel messages; addresses travel as strings, their
/// parsing being the transport's business.
pub enum PrepMessage {
    Start(String),
    PlayerConnected(String),
    KeyMaterial(KeyMaterial),
}

/// The player-to-player messages of the preprocessing and online
/// phases.
#[derive(Clone)]
pub enum OnlineMessage {
    SharePoly(Polynomial),
    ShareCiphertext(Ciphertext),
    ShareInteger(num::BigInt),
    ShareCommitment(Vec<u8>),
    ShareCommitOpen(Vec<u8>),
    BeginInput,
    ShareZKPoPK {
        a: Vec<Ciphertext>,
        z: Vec<Vec<num::BigInt>>,
        t: Vec<Vec<num::BigInt>>,
        c: Vec<Ciphertext>,
    },
}

/// The variants of `OnlineMessage`, for reporting a type mismatch on
/// dequeue.
#[derive(Debug)]
pub enum MessageKind {
    SharePoly,
    ShareCiphertext,
    ShareInteger,
    ShareCommitment,
    ShareCommitOpen,
    BeginInput,
    ShareZKPoPK,
}

/// The protocol step in which a zero-knowledge proof was rejected.
#[derive(Debug)]
pub enum ProtocolStage {
    Initialize,
    Pair,
    Triple,
    Reshare,
}

/// The fatal aborts of the protocol. No recovery is attempted: every
/// error surfaces to the protocol driver.
#[derive(Debug)]
pub enum MpcError {
    /// The centered decryption result's norm reached q/2.
    DecryptionTooNoisy(num::BigInt),
    /// A peer's proof of plaintext knowledge failed verification.
    ZKPoPKInvalid(ProtocolStage, usize),
    /// The sacrificial triple check opened to a non-zero value.
    TripleSacrificeNonZero(num::BigInt),
    /// The MAC check's sigma values did not sum to zero.
    MACCheckNonZero(num::BigInt),
    /// A commitment did not open to its committed value.
    CommitmentMismatch(usize),
    /// The transport failed.
    TransportError,
    /// A message of one kind arrived where another was expected.
    BadMessage(MessageKind, MessageKind),
}

impl OnlineMessage {
    /// The variant tag of this message.
    pub fn kind(&self) -> (r: MessageKind)
        ensures
            r == self.spec_kind(),
    {
        match self {
            OnlineMessage::SharePoly(_) => MessageKind::SharePoly,
            OnlineMessage::ShareCiphertext(_) => MessageKind::ShareCiphertext,
            OnlineMessage::ShareInteger(_) => MessageKind::ShareInteger,
            OnlineMessage::ShareCommitment(_) => MessageKind::ShareCommitment,
            OnlineMessage::ShareCommitOpen(_) => MessageKind::ShareCommitOpen,
            OnlineMessage::BeginInput => MessageKind::BeginInput,
            OnlineMessage::ShareZKPoPK { .. } => MessageKind::ShareZKPoPK,
        }
    }

    pub open spec fn spec_kind(&self) -> MessageKind {
        match self {
            OnlineMessage::SharePoly(_) => MessageKind::SharePoly,
            OnlineMessage::ShareCiphertext(_) => MessageKind::ShareCiphertext,
            OnlineMessage::ShareInteger(_) => MessageKind::ShareInteger,
            OnlineMessage::ShareCommitment(_) => MessageKind::ShareCommitment,
            OnlineMessage::ShareCommitOpen(_) => MessageKind::ShareCommitOpen,
            OnlineMessage::BeginInput => MessageKind::BeginInput,
            OnlineMessage::ShareZKPoPK { .. } => MessageKind::ShareZKPoPK,
        }
    }
}

/// The transport capability: reliable, ordered point-to-point and
/// broadcast messaging among `player_count` numbered players, this
/// player being `player_number`. Delivery is FIFO along every
/// sender-to-receiver edge; a broadcast also reaches the sender
/// itself.
///
/// The trait promises nothing to the verifier: the protocol code is
/// verified against every possible behavior of an implementation, and
/// checks at run time whatever it needs of the values received (sender
/// indices in range, messages of the expected kind and shape).
pub trait Facilitator: Sized {
    fn player_count(&self) -> usize;

    fn player_number(&self) -> usize;

    /// Unicast to one player (possibly this one).
    fn send(&self, player: usize, msg: &OnlineMessage);

    /// Send to every player, this one included.
    fn broadcast(&self, msg: &OnlineMessage);

    /// The next unread message, with its sender's index.
    fn receive(&self) -> (usize, OnlineMessage);

    /// The next unread message from one given player.
    fn receive_from(&self, player: usize) -> OnlineMessage;

    /// One message from each of players `0..n`, in sender order, each
    /// with its sender's index.
    fn receive_many(&self, n: usize) -> Vec<(usize, OnlineMessage)>;

    /// One message from every player, ordered by sender index.
    fn receive_from_all(&self) -> Vec<OnlineMessage>;

    /// Terminate the transport.
    fn stop(self);
}

} // verus!
