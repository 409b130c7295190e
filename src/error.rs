use vstd::prelude::*;

verus! {

/// Errors returned by the vault registry, the secret stores and the testament engine.
#[derive(Debug, Clone, PartialEq, Eq)]
pub enum SmartVaultErr {
    /// The secret with the given id (its decimal text) is not in the store.
    SecretDoesNotExist(String),
    /// A secret with the given id (its decimal text) is already in the store.
    SecretDoesAlreadyExist(String),
    /// No testament has the given id (its decimal text).
    TestamentDoesNotExist(String),
    /// A testament with the given id (its decimal text) is already recorded.
    TestamentAlreadyExists(String),
    /// The caller is not the owner of the testament.
    NotOwner,
    /// The caller is not among the testament's beneficiaries.
    NotABeneficiary,
    /// The testament was released and no longer accepts writes.
    TestamentNotActive,
    /// The testament is still active and cannot be read by beneficiaries.
    NotReleased,
}

/// Whether `text` is the decimal text that `to_string` gives for the id `id`.
pub open spec fn id_text(id: u128, text: String) -> bool {
    vstd::string::to_string_from_display_ensures::<u128>(&id, text)
}

} // verus!
