//! RWhois response codes.

use vstd::prelude::*;

verus! {

/// Numeric response code accompanied by its canonical message text.
#[derive(Debug, Clone, Copy, PartialEq, Eq)]
pub struct ResponseCode {
    /// Three-digit code as transmitted on the wire.
    pub code: u16,
    /// Default message text; overridable per call.
    pub message: &'static str,
}

impl ResponseCode {
    /// Construct an arbitrary response code.
    pub fn new(code: u16, message: &'static str) -> (r: ResponseCode)
        ensures
            r.code == code,
            r.message == message,
    {
        ResponseCode { code, message }
    }

    /// `120 Registration Deferred`.
    #[verifier::allow_in_spec]
    pub fn registration_deferred() -> ResponseCode
        returns
            (ResponseCode { code: 120, message: "Registration Deferred" }),
    {
        ResponseCode { code: 120, message: "Registration Deferred" }
    }

    /// `130 Object not authoritative`.
    #[verifier::allow_in_spec]
    pub fn object_not_authoritative() -> ResponseCode
        returns
            (ResponseCode { code: 130, message: "Object not authoritative" }),
    {
        ResponseCode { code: 130, message: "Object not authoritative" }
    }

    /// `230 No Objects Found`.
    #[verifier::allow_in_spec]
    pub fn no_objects_found() -> ResponseCode
        returns
            (ResponseCode { code: 230, message: "No Objects Found" }),
    {
        ResponseCode { code: 230, message: "No Objects Found" }
    }

    /// `300 Not Compatible With Version`.
    #[verifier::allow_in_spec]
    pub fn not_compatible_version() -> ResponseCode
        returns
            (ResponseCode { code: 300, message: "Not Compatible With Version" }),
    {
        ResponseCode { code: 300, message: "Not Compatible With Version" }
    }

    /// `320 Invalid Attribute`.
    #[verifier::allow_in_spec]
    pub fn invalid_attribute() -> ResponseCode
        returns
            (ResponseCode { code: 320, message: "Invalid Attribute" }),
    {
        ResponseCode { code: 320, message: "Invalid Attribute" }
    }

    /// `321 Invalid Attribute Syntax`.
    #[verifier::allow_in_spec]
    pub fn invalid_attribute_syntax() -> ResponseCode
        returns
            (ResponseCode { code: 321, message: "Invalid Attribute Syntax" }),
    {
        ResponseCode { code: 321, message: "Invalid Attribute Syntax" }
    }

    /// `322 Required Attribute Missing`.
    #[verifier::allow_in_spec]
    pub fn required_attribute_missing() -> ResponseCode
        returns
            (ResponseCode { code: 322, message: "Required Attribute Missing" }),
    {
        ResponseCode { code: 322, message: "Required Attribute Missing" }
    }

    /// `323 Object Reference Not Found`.
    #[verifier::allow_in_spec]
    pub fn object_ref_not_found() -> ResponseCode
        returns
            (ResponseCode { code: 323, message: "Object Reference Not Found" }),
    {
        ResponseCode { code: 323, message: "Object Reference Not Found" }
    }

    /// `324 Primary Key Not Unique`.
    #[verifier::allow_in_spec]
    pub fn primary_key_not_unique() -> ResponseCode
        returns
            (ResponseCode { code: 324, message: "Primary Key Not Unique" }),
    {
        ResponseCode { code: 324, message: "Primary Key Not Unique" }
    }

    /// `325 Failed to Update Outdated Object`.
    #[verifier::allow_in_spec]
    pub fn outdated_object() -> ResponseCode
        returns
            (ResponseCode { code: 325, message: "Failed to Update Outdated Object" }),
    {
        ResponseCode { code: 325, message: "Failed to Update Outdated Object" }
    }

    /// `330 Exceeded Max Objects Limit`.
    #[verifier::allow_in_spec]
    pub fn exceeded_max_objects() -> ResponseCode
        returns
            (ResponseCode { code: 330, message: "Exceeded Max Objects Limit" }),
    {
        ResponseCode { code: 330, message: "Exceeded Max Objects Limit" }
    }

    /// `331 Invalid Limit`.
    #[verifier::allow_in_spec]
    pub fn invalid_limit() -> ResponseCode
        returns
            (ResponseCode { code: 331, message: "Invalid Limit" }),
    {
        ResponseCode { code: 331, message: "Invalid Limit" }
    }

    /// `332 Nothing To Transfer`.
    #[verifier::allow_in_spec]
    pub fn nothing_to_transfer() -> ResponseCode
        returns
            (ResponseCode { code: 332, message: "Nothing To Transfer" }),
    {
        ResponseCode { code: 332, message: "Nothing To Transfer" }
    }

    /// `333 Not Master for Authority Area`.
    #[verifier::allow_in_spec]
    pub fn not_master() -> ResponseCode
        returns
            (ResponseCode { code: 333, message: "Not Master for Authority Area" }),
    {
        ResponseCode { code: 333, message: "Not Master for Authority Area" }
    }

    /// `338 Invalid Directive Syntax`.
    #[verifier::allow_in_spec]
    pub fn invalid_directive_syntax() -> ResponseCode
        returns
            (ResponseCode { code: 338, message: "Invalid Directive Syntax" }),
    {
        ResponseCode { code: 338, message: "Invalid Directive Syntax" }
    }

    /// `340 Invalid Authority Area`.
    #[verifier::allow_in_spec]
    pub fn invalid_auth_area() -> ResponseCode
        returns
            (ResponseCode { code: 340, message: "Invalid Authority Area" }),
    {
        ResponseCode { code: 340, message: "Invalid Authority Area" }
    }

    /// `341 Invalid Class`.
    #[verifier::allow_in_spec]
    pub fn invalid_class() -> ResponseCode
        returns
            (ResponseCode { code: 341, message: "Invalid Class" }),
    {
        ResponseCode { code: 341, message: "Invalid Class" }
    }

    /// `342 Invalid Host/Port`.
    #[verifier::allow_in_spec]
    pub fn invalid_host_port() -> ResponseCode
        returns
            (ResponseCode { code: 342, message: "Invalid Host/Port" }),
    {
        ResponseCode { code: 342, message: "Invalid Host/Port" }
    }

    /// `350 Invalid Query Syntax`.
    #[verifier::allow_in_spec]
    pub fn invalid_query_syntax() -> ResponseCode
        returns
            (ResponseCode { code: 350, message: "Invalid Query Syntax" }),
    {
        ResponseCode { code: 350, message: "Invalid Query Syntax" }
    }

    /// `351 Query Too Complex`.
    #[verifier::allow_in_spec]
    pub fn query_too_complex() -> ResponseCode
        returns
            (ResponseCode { code: 351, message: "Query Too Complex" }),
    {
        ResponseCode { code: 351, message: "Query Too Complex" }
    }

    /// `352 Invalid Security Method`.
    #[verifier::allow_in_spec]
    pub fn invalid_security_method() -> ResponseCode
        returns
            (ResponseCode { code: 352, message: "Invalid Security Method" }),
    {
        ResponseCode { code: 352, message: "Invalid Security Method" }
    }

    /// `353 Authentication Failed`.
    #[verifier::allow_in_spec]
    pub fn authentication_failed() -> ResponseCode
        returns
            (ResponseCode { code: 353, message: "Authentication Failed" }),
    {
        ResponseCode { code: 353, message: "Authentication Failed" }
    }

    /// `354 Encryption Failed`.
    #[verifier::allow_in_spec]
    pub fn encryption_failed() -> ResponseCode
        returns
            (ResponseCode { code: 354, message: "Encryption Failed" }),
    {
        ResponseCode { code: 354, message: "Encryption Failed" }
    }

    /// `360 Corrupt Data. Keyadd Failed`.
    #[verifier::allow_in_spec]
    pub fn corrupt_data() -> ResponseCode
        returns
            (ResponseCode { code: 360, message: "Corrupt Data. Keyadd Failed" }),
    {
        ResponseCode { code: 360, message: "Corrupt Data. Keyadd Failed" }
    }

    /// `400 Directive Not Available`.
    #[verifier::allow_in_spec]
    pub fn directive_not_available() -> ResponseCode
        returns
            (ResponseCode { code: 400, message: "Directive Not Available" }),
    {
        ResponseCode { code: 400, message: "Directive Not Available" }
    }

    /// `401 Not Authorized for Directive`.
    #[verifier::allow_in_spec]
    pub fn not_authorized() -> ResponseCode
        returns
            (ResponseCode { code: 401, message: "Not Authorized for Directive" }),
    {
        ResponseCode { code: 401, message: "Not Authorized for Directive" }
    }

    /// `402 Unidentified Error`.
    #[verifier::allow_in_spec]
    pub fn unidentified_error() -> ResponseCode
        returns
            (ResponseCode { code: 402, message: "Unidentified Error" }),
    {
        ResponseCode { code: 402, message: "Unidentified Error" }
    }

    /// `420 Registration Not Authorized`.
    #[verifier::allow_in_spec]
    pub fn registration_not_authorized() -> ResponseCode
        returns
            (ResponseCode { code: 420, message: "Registration Not Authorized" }),
    {
        ResponseCode { code: 420, message: "Registration Not Authorized" }
    }

    /// `436 Invalid Display Format`.
    #[verifier::allow_in_spec]
    pub fn invalid_display_format() -> ResponseCode
        returns
            (ResponseCode { code: 436, message: "Invalid Display Format" }),
    {
        ResponseCode { code: 436, message: "Invalid Display Format" }
    }

    /// `500 Memory Allocation Problem`.
    #[verifier::allow_in_spec]
    pub fn memory_allocation() -> ResponseCode
        returns
            (ResponseCode { code: 500, message: "Memory Allocation Problem" }),
    {
        ResponseCode { code: 500, message: "Memory Allocation Problem" }
    }

    /// `501 Service Not Available`.
    #[verifier::allow_in_spec]
    pub fn service_not_available() -> ResponseCode
        returns
            (ResponseCode { code: 501, message: "Service Not Available" }),
    {
        ResponseCode { code: 501, message: "Service Not Available" }
    }

    /// `502 Unrecoverable Error`.
    #[verifier::allow_in_spec]
    pub fn unrecoverable_error() -> ResponseCode
        returns
            (ResponseCode { code: 502, message: "Unrecoverable Error" }),
    {
        ResponseCode { code: 502, message: "Unrecoverable Error" }
    }

    /// `503 Idle Time Exceeded`.
    #[verifier::allow_in_spec]
    pub fn idle_time_exceeded() -> ResponseCode
        returns
            (ResponseCode { code: 503, message: "Idle Time Exceeded" }),
    {
        ResponseCode { code: 503, message: "Idle Time Exceeded" }
    }

    /// `560 `.
    #[verifier::allow_in_spec]
    pub fn misc_diagnostic() -> ResponseCode
        returns
            (ResponseCode { code: 560, message: "" }),
    {
        ResponseCode { code: 560, message: "" }
    }
}

} // verus!
