use vstd::prelude::*;

verus! {

/// The closed set of failure codes shared by every operation of the ledger.
///
/// Every domain rule violation surfaces as one of these named codes, and the
/// operation that raised it leaves all persisted state exactly as it was.
#[derive(Clone, Copy, Debug, PartialEq, Eq, Structural)]
pub enum SavingsError {
    /// No user record exists for the identity.
    UserNotFound,
    /// No savings plan exists under the key, or the plan found is not of the
    /// kind the operation works on.
    PlanNotFound,
    /// The caller is not the stored admin identity.
    Unauthorized,
    /// A time-locked plan was asked to pay out before its maturity.
    LockNotMatured,
    /// The plan has already been paid out and is terminal.
    AlreadyWithdrawn,
    /// A balance movement would underflow or overflow the ledger arithmetic.
    InsufficientBalance,
    /// The global pause gate is closed.
    ContractPaused,
    /// A fee rate outside the basis-point range was rejected.
    InvalidFeeBps,
    /// The identity already has a user record.
    UserAlreadyExists,
    /// The admin singleton was already set.
    AlreadyInitialized,
}

impl SavingsError {
    /// The stable integer under which this code surfaces to callers.
    pub open spec fn spec_code(self) -> u32 {
        match self {
            SavingsError::UserNotFound => 1,
            SavingsError::PlanNotFound => 2,
            SavingsError::Unauthorized => 3,
            SavingsError::LockNotMatured => 4,
            SavingsError::AlreadyWithdrawn => 5,
            SavingsError::InsufficientBalance => 6,
            SavingsError::ContractPaused => 7,
            SavingsError::UserAlreadyExists => 8,
            SavingsError::AlreadyInitialized => 9,
            SavingsError::InvalidFeeBps => 90,
        }
    }

    /// The stable integer code of this error.
    pub fn code(&self) -> (c: u32)
        ensures
            c == self.spec_code(),
    {
        match self {
            SavingsError::UserNotFound => 1,
            SavingsError::PlanNotFound => 2,
            SavingsError::Unauthorized => 3,
            SavingsError::LockNotMatured => 4,
            SavingsError::AlreadyWithdrawn => 5,
            SavingsError::InsufficientBalance => 6,
            SavingsError::ContractPaused => 7,
            SavingsError::UserAlreadyExists => 8,
            SavingsError::AlreadyInitialized => 9,
            SavingsError::InvalidFeeBps => 90,
        }
    }
}

} // verus!
