use vstd::prelude::*;
use crate::yarp_meta::UnitIdentifier;
use crate::yarp_meta::IdView;

verus! {

/// The fatal errors of one pipeline run.  Any of them aborts the run:
/// no code is emitted and no interchange document is written.
#[derive(Debug, PartialEq, Eq)]
pub enum YarpError {
    /// A recognized directive tag is missing a required field.
    /// Carries the offending row's fields.
    MalformedRecord { fields: Vec<String> },
    /// A symbolic key was registered twice.  Carries the colliding key.
    DuplicateIdentifier { uid: String },
    /// A pending unit or building queue would exceed its capacity.
    /// Carries the pending group and the key of the directive whose
    /// append overflowed it.
    GroupTooLarge { group: Vec<UnitIdentifier>, uid: String },
}

/// Mathematical model of a `YarpError`.
#[verifier::ext_equal]
pub enum ErrorView {
    Malformed { fields: Seq<Seq<char>> },
    Duplicate { uid: Seq<char> },
    TooLarge { group: Seq<IdView>, uid: Seq<char> },
}

impl View for YarpError {
    type V = ErrorView;

    open spec fn view(&self) -> ErrorView {
        match self {
            YarpError::MalformedRecord { fields } => ErrorView::Malformed {
                fields: fields@.map_values(|s: String| s@),
            },
            YarpError::DuplicateIdentifier { uid } => ErrorView::Duplicate { uid: uid@ },
            YarpError::GroupTooLarge { group, uid } => ErrorView::TooLarge {
                group: group@.map_values(|i: UnitIdentifier| i@),
                uid: uid@,
            },
        }
    }
}

} // verus!
