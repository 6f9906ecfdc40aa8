use vstd::prelude::*;

verus! {

/// Failure taxonomy: every error the core reports carries one of these
/// tags, so callers can pick the right recovery (fix parameters for
/// `Validation`, retry for `Oracle`, operator action for `Capacity`).
#[derive(Clone, Copy, Debug, PartialEq, Eq, Structural)]
pub enum ErrorKind {
    /// Bad creation or call parameters, rejected before any state is written.
    Validation,
    /// Explicitly unsupported request (e.g. a non-primary settlement token);
    /// rejected outright, never silently approximated.
    UnsupportedFeature,
    /// The oracle feed could not produce a usable price; the operation
    /// aborts with no partial price state committed.
    Oracle,
    /// A fixed-capacity region (book side, event queue) is full; propagated
    /// unchanged so an operator can act.
    Capacity,
    /// An internal invariant failed (e.g. negative open interest); fatal,
    /// the whole operation aborts.
    InvariantViolation,
}

/// Concrete errors raised by the core. Leaf errors propagate unchanged to
/// the operation boundary; no silent default is ever substituted.
#[derive(Clone, Copy, Debug, PartialEq, Eq, Structural)]
pub enum Error {
    /// Settlement in any token other than the protocol's primary quote
    /// token is rejected, not approximated.
    UnsupportedSettlementToken,
    /// A lot size was not strictly positive.
    InvalidLotSize,
    /// The market name does not fit its fixed-width storage.
    NameTooLong,
    /// A fee, weight or funding bound lies outside its valid range.
    InvalidRiskParams,
    /// The oracle feed has an unrecognized encoding or a non-positive price.
    InvalidOracle,
    /// The oracle feed's timestamp exceeds the freshness bound.
    StalePrice,
    /// The oracle's confidence interval exceeds the configured fraction of
    /// the price.
    LowConfidence,
    /// The book side is at capacity.
    BookFull,
    /// No resting order with the given id is on the side.
    OrderNotFound,
    /// Appending would overwrite an unconsumed event-queue slot.
    QueueOverflow,
}

impl Error {
    /// The taxonomy tag of this error.
    pub open spec fn kind_spec(self) -> ErrorKind {
        match self {
            Error::UnsupportedSettlementToken => ErrorKind::UnsupportedFeature,
            Error::InvalidLotSize => ErrorKind::Validation,
            Error::NameTooLong => ErrorKind::Validation,
            Error::InvalidRiskParams => ErrorKind::Validation,
            Error::InvalidOracle => ErrorKind::Oracle,
            Error::StalePrice => ErrorKind::Oracle,
            Error::LowConfidence => ErrorKind::Oracle,
            Error::BookFull => ErrorKind::Capacity,
            Error::OrderNotFound => ErrorKind::Validation,
            Error::QueueOverflow => ErrorKind::Capacity,
        }
    }

    /// Returns the taxonomy tag of this error.
    pub fn kind(&self) -> (k: ErrorKind)
        ensures
            k == self.kind_spec(),
    {
        match self {
            Error::UnsupportedSettlementToken => ErrorKind::UnsupportedFeature,
            Error::InvalidLotSize => ErrorKind::Validation,
            Error::NameTooLong => ErrorKind::Validation,
            Error::InvalidRiskParams => ErrorKind::Validation,
            Error::InvalidOracle => ErrorKind::Oracle,
            Error::StalePrice => ErrorKind::Oracle,
            Error::LowConfidence => ErrorKind::Oracle,
            Error::BookFull => ErrorKind::Capacity,
            Error::OrderNotFound => ErrorKind::Validation,
            Error::QueueOverflow => ErrorKind::Capacity,
        }
    }
}

} // verus!
