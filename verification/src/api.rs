//! Plain data types of the HTTP surface, and the pagination rule.
//!
//! The handlers themselves do network I/O and live outside the library;
//! these are the values they exchange with it.

use vstd::prelude::*;

verus! {

/// The uniform response envelope: `{success, data?, error?}`.
pub struct ApiResponse<T> {
    /// Whether the request succeeded.
    pub success: bool,
    /// The payload on success.
    pub data: Option<T>,
    /// A message on failure.
    pub error: Option<String>,
}

impl<T> ApiResponse<T> {
    /// A successful envelope around a payload.
    pub fn ok(data: T) -> (r: ApiResponse<T>)
        ensures
            r.success,
            r.data == Some(data),
            r.error is None,
    {
        ApiResponse { success: true, data: Some(data), error: None }
    }
}

impl ApiResponse<()> {
    /// A failed envelope with a message.
    pub fn err(msg: String) -> (r: ApiResponse<()>)
        ensures
            !r.success,
            r.data is None,
            r.error == Some(msg),
    {
        ApiResponse { success: false, data: None, error: Some(msg) }
    }
}

/// Pagination query parameters for the block listing.
pub struct PaginationParams {
    /// First block offset, defaulting to the last page.
    pub offset: Option<u64>,
    /// Page size, defaulting to 50 and capped at 200.
    pub limit: Option<u64>,
}

/// Query parameters for the event feed.
pub struct EventParams {
    /// Maximum number of events, newest first.
    pub limit: Option<usize>,
    /// Only events after this timestamp.
    pub since: Option<u64>,
}

/// The pagination rule of the block listing: the limit defaults to 50 and
/// is capped at 200; the offset defaults to the start of the last page.
pub fn page_bounds(total: u64, params: &PaginationParams) -> (r: (u64, u64))
    ensures
        r.1 == (match params.limit {
            Some(l) => if l < 200 {
                l
            } else {
                200u64
            },
            None => 50u64,
        }),
        r.0 == (match params.offset {
            Some(o) => o,
            None => if total >= r.1 {
                (total - r.1) as u64
            } else {
                0u64
            },
        }),
{
    let limit: u64 = match params.limit {
        Some(l) => if l < 200 {
            l
        } else {
            200
        },
        None => 50,
    };
    let offset: u64 = match params.offset {
        Some(o) => o,
        None => total.saturating_sub(limit),
    };
    (offset, limit)
}

} // verus!
