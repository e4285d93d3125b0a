use vstd::prelude::*;

verus! {

/// Categorical failure conditions of the settlement core. Every operation
/// either fully succeeds or surfaces exactly one of these; no error is
/// silently recovered.
#[derive(Clone, Copy, Debug, PartialEq, Eq, Structural)]
pub enum ErrorCode {
    /// A deposit or withdrawal amount of zero.
    InvalidAmount,
    /// A leaf insertion past the accumulator's capacity.
    IndexOutOfBounds,
    /// The pool's custody balance is smaller than the requested amount.
    InsufficientFunds,
    /// A value transfer requested by a caller other than the registered
    /// settlement path.
    UnauthorizedWithdrawal,
    /// Malformed input, such as a sibling path whose length is not the
    /// accumulator's height, or an unsupported tree height.
    InvalidInput,
    /// The spend circuit takes exactly five public signals.
    InvalidPublicInputCount,
    /// A malformed public-signal field encoding.
    InvalidPublicSignal,
    /// A structurally degenerate proof, or one the pairing check rejects.
    InvalidProof,
    /// The proof's root signal does not match the pool's current root.
    InvalidMerkleRoot,
    /// The proof's nullifier was already registered by an earlier settlement.
    DoubleSpend,
    /// The nullifier registry reached its configured capacity.
    RegistryFull,
    /// An administrative operation by a caller other than the authority.
    Unauthorized,
    /// New settlements are administratively paused.
    VerifierPaused,
    /// A verification key whose structure is inconsistent, degenerate, or
    /// below the minimum size.
    InvalidVerificationKey,
    /// A circuit name longer than 32 bytes.
    CircuitNameTooLong,
    /// A circuit version longer than 16 bytes.
    VersionTooLong,
    /// Serialized verification-key data above the 8 KiB ceiling.
    VerificationKeyTooLarge,
    /// Empty serialized verification-key data.
    EmptyVerificationKey,
    /// A second registration under an already-registered circuit name.
    CircuitAlreadyRegistered,
    /// An update or deactivation of a circuit name never registered.
    CircuitNotFound,
}

} // verus!
