use vstd::prelude::*;

verus! {

/// The errors of the HTTP capability. Across the host/guest boundary each
/// one travels as a small integer code; `0` stands for success.
#[derive(Debug, Clone, Copy, PartialEq, Eq, Structural)]
pub enum HttpError {
    InvalidHandle,
    MemoryNotFound,
    MemoryAccessError,
    BufferTooSmall,
    HeaderNotFound,
    Utf8Error,
    DestinationNotAllowed,
    InvalidMethod,
    InvalidEncoding,
    InvalidUrl,
    RequestError,
    RuntimeError,
    TooManySessions,
    UnknownError,
}

/// The error that a nonzero status code denotes; unknown codes map to
/// `UnknownError` so that newer hosts stay readable.
pub open spec fn error_of_code(code: u32) -> HttpError {
    if code == 1 {
        HttpError::InvalidHandle
    } else if code == 2 {
        HttpError::MemoryNotFound
    } else if code == 3 {
        HttpError::MemoryAccessError
    } else if code == 4 {
        HttpError::BufferTooSmall
    } else if code == 5 {
        HttpError::HeaderNotFound
    } else if code == 6 {
        HttpError::Utf8Error
    } else if code == 7 {
        HttpError::DestinationNotAllowed
    } else if code == 8 {
        HttpError::InvalidMethod
    } else if code == 9 {
        HttpError::InvalidEncoding
    } else if code == 10 {
        HttpError::InvalidUrl
    } else if code == 11 {
        HttpError::RequestError
    } else if code == 12 {
        HttpError::RuntimeError
    } else if code == 13 {
        HttpError::TooManySessions
    } else {
        HttpError::UnknownError
    }
}

/// The status code that carries an error over the boundary.
pub open spec fn code_of_error(e: HttpError) -> u32 {
    match e {
        HttpError::InvalidHandle => 1,
        HttpError::MemoryNotFound => 2,
        HttpError::MemoryAccessError => 3,
        HttpError::BufferTooSmall => 4,
        HttpError::HeaderNotFound => 5,
        HttpError::Utf8Error => 6,
        HttpError::DestinationNotAllowed => 7,
        HttpError::InvalidMethod => 8,
        HttpError::InvalidEncoding => 9,
        HttpError::InvalidUrl => 10,
        HttpError::RequestError => 11,
        HttpError::RuntimeError => 12,
        HttpError::TooManySessions => 13,
        HttpError::UnknownError => 14,
    }
}

impl HttpError {
    /// The nonzero status code of this error.
    pub fn code(&self) -> (r: u32)
        ensures
            r == code_of_error(*self),
            r != 0,
    {
        match self {
            HttpError::InvalidHandle => 1,
            HttpError::MemoryNotFound => 2,
            HttpError::MemoryAccessError => 3,
            HttpError::BufferTooSmall => 4,
            HttpError::HeaderNotFound => 5,
            HttpError::Utf8Error => 6,
            HttpError::DestinationNotAllowed => 7,
            HttpError::InvalidMethod => 8,
            HttpError::InvalidEncoding => 9,
            HttpError::InvalidUrl => 10,
            HttpError::RequestError => 11,
            HttpError::RuntimeError => 12,
            HttpError::TooManySessions => 13,
            HttpError::UnknownError => 14,
        }
    }
}

impl From<u32> for HttpError {
    fn from(code: u32) -> (r: HttpError) {
        match code {
            1 => HttpError::InvalidHandle,
            2 => HttpError::MemoryNotFound,
            3 => HttpError::MemoryAccessError,
            4 => HttpError::BufferTooSmall,
            5 => HttpError::HeaderNotFound,
            6 => HttpError::Utf8Error,
            7 => HttpError::DestinationNotAllowed,
            8 => HttpError::InvalidMethod,
            9 => HttpError::InvalidEncoding,
            10 => HttpError::InvalidUrl,
            11 => HttpError::RequestError,
            12 => HttpError::RuntimeError,
            13 => HttpError::TooManySessions,
            _ => HttpError::UnknownError,
        }
    }
}

impl vstd::std_specs::convert::FromSpecImpl<u32> for HttpError {
    open spec fn obeys_from_spec() -> bool {
        true
    }

    open spec fn from_spec(code: u32) -> HttpError {
        error_of_code(code)
    }
}

/// Every error but the catch-all survives the trip through its code.
pub proof fn lemma_code_round_trip(e: HttpError)
    requires
        e != HttpError::UnknownError,
    ensures
        error_of_code(code_of_error(e)) == e,
{
}

} // verus!
