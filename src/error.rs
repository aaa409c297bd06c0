//! Errors of the upstream service and of the pool.
use vstd::prelude::*;

use crate::domain::KeySelector;

verus! {

/// An error reported by the upstream service, by its numeric code.
#[derive(Debug, Clone, PartialEq, Eq)]
pub enum ApiError {
    Unknown,
    KeyIsEmpty,
    IncorrectKey,
    WrongType,
    WrongFields,
    TooManyRequest,
    IncorrectId,
    IncorrectIdEntityRelation,
    IpBlock,
    ApiDisabled,
    KeyOwnerInFederalJail,
    KeyChange,
    KeyRead,
    TemporaryInactivity,
    DailyReadLimit,
    TemporaryError,
    InsufficientAccessLevel,
    Backend,
    Paused,
    NotMigratedCrimes,
    RaceNotFinished,
    IncorrectCategory,
    OnlyInV1,
    OnlyInV2,
    ClosedTemporarily,
    Other { code: u16, message: String },
}

/// The largest code that has a variant of its own.
pub const LAST_KNOWN_CODE: u16 = 24;

impl ApiError {
    /// The numeric code of the error.
    pub open spec fn spec_code(&self) -> u16 {
        match self {
            ApiError::Unknown => 0,
            ApiError::KeyIsEmpty => 1,
            ApiError::IncorrectKey => 2,
            ApiError::WrongType => 3,
            ApiError::WrongFields => 4,
            ApiError::TooManyRequest => 5,
            ApiError::IncorrectId => 6,
            ApiError::IncorrectIdEntityRelation => 7,
            ApiError::IpBlock => 8,
            ApiError::ApiDisabled => 9,
            ApiError::KeyOwnerInFederalJail => 10,
            ApiError::KeyChange => 11,
            ApiError::KeyRead => 12,
            ApiError::TemporaryInactivity => 13,
            ApiError::DailyReadLimit => 14,
            ApiError::TemporaryError => 15,
            ApiError::InsufficientAccessLevel => 16,
            ApiError::Backend => 17,
            ApiError::Paused => 18,
            ApiError::NotMigratedCrimes => 19,
            ApiError::RaceNotFinished => 20,
            ApiError::IncorrectCategory => 21,
            ApiError::OnlyInV1 => 22,
            ApiError::OnlyInV2 => 23,
            ApiError::ClosedTemporarily => 24,
            ApiError::Other { code, .. } => *code,
        }
    }

    /// The error for `code`; codes without a variant of their own keep the message.
    pub fn new(code: u16, message: &str) -> (r: ApiError)
        ensures
            r.spec_code() == code,
            r is Other <==> code > LAST_KNOWN_CODE,
            r matches ApiError::Other { message: m, .. } ==> m@ == message@,
    {
        match code {
            0 => ApiError::Unknown,
            1 => ApiError::KeyIsEmpty,
            2 => ApiError::IncorrectKey,
            3 => ApiError::WrongType,
            4 => ApiError::WrongFields,
            5 => ApiError::TooManyRequest,
            6 => ApiError::IncorrectId,
            7 => ApiError::IncorrectIdEntityRelation,
            8 => ApiError::IpBlock,
            9 => ApiError::ApiDisabled,
            10 => ApiError::KeyOwnerInFederalJail,
            11 => ApiError::KeyChange,
            12 => ApiError::KeyRead,
            13 => ApiError::TemporaryInactivity,
            14 => ApiError::DailyReadLimit,
            15 => ApiError::TemporaryError,
            16 => ApiError::InsufficientAccessLevel,
            17 => ApiError::Backend,
            18 => ApiError::Paused,
            19 => ApiError::NotMigratedCrimes,
            20 => ApiError::RaceNotFinished,
            21 => ApiError::IncorrectCategory,
            22 => ApiError::OnlyInV1,
            23 => ApiError::OnlyInV2,
            24 => ApiError::ClosedTemporarily,
            other => ApiError::Other { code: other, message: message.to_owned() },
        }
    }

    /// The numeric code of the error.
    pub fn code(&self) -> (r: u16)
        ensures
            r == self.spec_code(),
    {
        match self {
            ApiError::Unknown => 0,
            ApiError::KeyIsEmpty => 1,
            ApiError::IncorrectKey => 2,
            ApiError::WrongType => 3,
            ApiError::WrongFields => 4,
            ApiError::TooManyRequest => 5,
            ApiError::IncorrectId => 6,
            ApiError::IncorrectIdEntityRelation => 7,
            ApiError::IpBlock => 8,
            ApiError::ApiDisabled => 9,
            ApiError::KeyOwnerInFederalJail => 10,
            ApiError::KeyChange => 11,
            ApiError::KeyRead => 12,
            ApiError::TemporaryInactivity => 13,
            ApiError::DailyReadLimit => 14,
            ApiError::TemporaryError => 15,
            ApiError::InsufficientAccessLevel => 16,
            ApiError::Backend => 17,
            ApiError::Paused => 18,
            ApiError::NotMigratedCrimes => 19,
            ApiError::RaceNotFinished => 20,
            ApiError::IncorrectCategory => 21,
            ApiError::OnlyInV1 => 22,
            ApiError::OnlyInV2 => 23,
            ApiError::ClosedTemporarily => 24,
            ApiError::Other { code, .. } => *code,
        }
    }
}

/// Two errors with equal codes are equal, but for the message of `Other`.
pub proof fn lemma_code_determines_error(a: ApiError, b: ApiError)
    requires
        a.spec_code() == b.spec_code(),
        !(a is Other),
        !(b is Other),
    ensures
        a == b,
{
}

/// A parameter of a request that lies outside the range the service accepts.
#[derive(Debug, Clone, PartialEq, Eq)]
pub enum ParameterError {
    OutOfRange { name: String, value: i32 },
}

/// What a caller of the pool may observe.
#[derive(Debug, Clone, PartialEq, Eq)]
pub enum PoolError {
    /// No key satisfies the selector, nor any of its fallbacks.
    Unavailable(KeySelector),
    /// An administrative change matched no key.
    KeyNotFound(KeySelector),
    /// The store failed for a reason other than a conflict.
    Storage(String),
    /// The transport failed; such a failure is never retried.
    Transport(String),
    /// A response could not be decoded.
    Parsing(String),
    /// The upstream service reported an error that no action resolved.
    Api(ApiError),
}

} // verus!
