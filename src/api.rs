//! Request-level errors, redirects and push notifications of the API layer.
use vstd::prelude::*;

verus! {

/// Tag of a push notification telling clients which states changed.
#[derive(Debug, Clone, Copy, PartialEq, Eq, Structural)]
pub enum StateChangeType {
    StateChange,
}

/// A push notification: for each account id, the new state string of each
/// changed data type.
#[derive(Debug)]
pub struct StateChangeResponse {
    pub type_: StateChangeType,
    pub changed: Vec<(String, Vec<(String, String)>)>,
}

impl StateChangeResponse {
    /// A notification with nothing changed yet.
    pub fn new() -> (r: StateChangeResponse)
        ensures
            r.type_ == StateChangeType::StateChange,
            r.changed@.len() == 0,
    {
        StateChangeResponse { type_: StateChangeType::StateChange, changed: Vec::new() }
    }
}

impl Default for StateChangeResponse {
    fn default() -> (r: StateChangeResponse)
        ensures
            r.type_ == StateChangeType::StateChange,
            r.changed@.len() == 0,
    {
        StateChangeResponse::new()
    }
}

/// Which request limit was exceeded.
#[derive(Debug, Clone, Copy, PartialEq, Eq, Structural)]
pub enum RequestLimitError {
    Size,
    CallsIn,
    Concurrent,
}

/// Problem type of a request-level error.
#[derive(Debug, Clone, Copy, PartialEq, Eq, Structural)]
pub enum RequestErrorType {
    UnknownCapability,
    NotJSON,
    NotRequest,
    Limit,
    Other,
}

/// A request-level error, shaped as an HTTP problem-details document.
#[derive(Debug)]
pub struct RequestError {
    pub p_type: RequestErrorType,
    pub status: u16,
    pub title: Option<String>,
    pub detail: String,
    pub limit: Option<RequestLimitError>,
}

impl RequestError {
    /// `self` is a generic (`about:blank`) problem with this status, title
    /// and detail.
    pub open spec fn is_blank(&self, status: u16, title: Seq<char>, detail: Seq<char>) -> bool {
        &&& self.p_type == RequestErrorType::Other
        &&& self.status == status
        &&& self.title matches Some(t) && t@ == title
        &&& self.detail@ == detail
        &&& self.limit is None
    }

    pub fn blank(status: u16, title: &str, detail: &str) -> (r: RequestError)
        ensures
            r.is_blank(status, title@, detail@),
    {
        RequestError {
            p_type: RequestErrorType::Other,
            status,
            title: Some(title.to_owned()),
            detail: detail.to_owned(),
            limit: None,
        }
    }

    pub fn internal_server_error() -> (r: RequestError)
        ensures
            r.is_blank(
                500,
                "Internal Server Error"@,
                "There was a problem while processing your request. Please contact the system administrator."@,
            ),
    {
        RequestError::blank(
            500,
            "Internal Server Error",
            "There was a problem while processing your request. Please contact the system administrator.",
        )
    }

    pub fn unavailable() -> (r: RequestError)
        ensures
            r.is_blank(
                503,
                "Temporarily Unavailable"@,
                "There was a temporary problem while processing your request. Please try again in a few moments."@,
            ),
    {
        RequestError::blank(
            503,
            "Temporarily Unavailable",
            "There was a temporary problem while processing your request. Please try again in a few moments.",
        )
    }

    pub fn invalid_parameters() -> (r: RequestError)
        ensures
            r.is_blank(
                400,
                "Invalid Parameters"@,
                "One or multiple parameters could not be parsed."@,
            ),
    {
        RequestError::blank(
            400,
            "Invalid Parameters",
            "One or multiple parameters could not be parsed.",
        )
    }

    pub fn forbidden() -> (r: RequestError)
        ensures
            r.is_blank(
                403,
                "Forbidden"@,
                "You do not have enough permissions to access this resource."@,
            ),
    {
        RequestError::blank(
            403,
            "Forbidden",
            "You do not have enough permissions to access this resource.",
        )
    }

    pub fn too_many_requests() -> (r: RequestError)
        ensures
            r.is_blank(
                429,
                "Too Many Requests"@,
                "Your request has been rate limited. Please try again in a few seconds."@,
            ),
    {
        RequestError::blank(
            429,
            "Too Many Requests",
            "Your request has been rate limited. Please try again in a few seconds.",
        )
    }

    pub fn too_many_auth_attempts() -> (r: RequestError)
        ensures
            r.is_blank(
                429,
                "Too Many Authentication Attempts"@,
                "Your request has been rate limited. Please try again in a few minutes."@,
            ),
    {
        RequestError::blank(
            429,
            "Too Many Authentication Attempts",
            "Your request has been rate limited. Please try again in a few minutes.",
        )
    }

    /// Explanation of an exceeded limit.
    pub open spec fn limit_detail(limit_type: RequestLimitError) -> Seq<char> {
        match limit_type {
            RequestLimitError::Size => "The request is larger than the server is willing to process."@,
            RequestLimitError::CallsIn => "The request exceeds the maximum number of calls in a single request."@,
            RequestLimitError::Concurrent => "The request exceeds the maximum number of concurrent requests."@,
        }
    }

    pub fn limit(limit_type: RequestLimitError) -> (r: RequestError)
        ensures
            r.p_type == RequestErrorType::Limit,
            r.status == 400,
            r.title is None,
            r.detail@ == Self::limit_detail(limit_type),
            r.limit == Some(limit_type),
    {
        let detail = match limit_type {
            RequestLimitError::Size => "The request is larger than the server is willing to process.",
            RequestLimitError::CallsIn => "The request exceeds the maximum number of calls in a single request.",
            RequestLimitError::Concurrent => "The request exceeds the maximum number of concurrent requests.",
        };
        RequestError {
            p_type: RequestErrorType::Limit,
            status: 400,
            title: None,
            detail: detail.to_owned(),
            limit: Some(limit_type),
        }
    }

    pub fn not_found() -> (r: RequestError)
        ensures
            r.is_blank(
                404,
                "Not Found"@,
                "The requested resource does not exist on this server."@,
            ),
    {
        RequestError::blank(
            404,
            "Not Found",
            "The requested resource does not exist on this server.",
        )
    }

    pub fn unauthorized() -> (r: RequestError)
        ensures
            r.is_blank(401, "Unauthorized"@, "You have to authenticate first."@),
    {
        RequestError::blank(401, "Unauthorized", "You have to authenticate first.")
    }

    pub fn unknown_capability(capability: &str) -> (r: RequestError)
        ensures
            r.p_type == RequestErrorType::UnknownCapability,
            r.status == 400,
            r.title is None,
            r.detail@ == "The Request object used capability '"@ + capability@
                + "', which is not supportedby this server."@,
            r.limit is None,
    {
        let mut detail = String::from_str("The Request object used capability '");
        detail.append(capability);
        detail.append("', which is not supportedby this server.");
        RequestError {
            p_type: RequestErrorType::UnknownCapability,
            limit: None,
            title: None,
            status: 400,
            detail,
        }
    }

    pub fn not_json() -> (r: RequestError)
        ensures
            r.p_type == RequestErrorType::NotJSON,
            r.status == 400,
            r.title is None,
            r.detail@ == "The Request object is not a valid JSON object."@,
            r.limit is None,
    {
        RequestError {
            p_type: RequestErrorType::NotJSON,
            limit: None,
            title: None,
            status: 400,
            detail: "The Request object is not a valid JSON object.".to_owned(),
        }
    }

    pub fn not_request() -> (r: RequestError)
        ensures
            r.p_type == RequestErrorType::NotRequest,
            r.status == 400,
            r.title is None,
            r.detail@ == "The Request object is not a valid JMAP request."@,
            r.limit is None,
    {
        RequestError {
            p_type: RequestErrorType::NotRequest,
            limit: None,
            title: None,
            status: 400,
            detail: "The Request object is not a valid JMAP request.".to_owned(),
        }
    }

    /// The human-readable text of the error: its detail.
    pub fn to_string(&self) -> (r: String)
        ensures
            r@ == self.detail@,
    {
        self.detail.clone()
    }
}

/// An HTTP redirect to `location`.
#[derive(Debug, Clone)]
pub struct Redirect {
    pub is_permament: bool,
    pub location: String,
}

impl Redirect {
    pub fn temporary(location: String) -> (r: Redirect)
        ensures
            !r.is_permament,
            r.location@ == location@,
    {
        Redirect { is_permament: false, location }
    }

    pub fn permanent(location: String) -> (r: Redirect)
        ensures
            r.is_permament,
            r.location@ == location@,
    {
        Redirect { is_permament: true, location }
    }

    /// HTTP status of the redirect: 308 when permanent, 307 otherwise.
    pub fn status(&self) -> (r: u16)
        ensures
            r == if self.is_permament {
                308u16
            } else {
                307u16
            },
    {
        if !self.is_permament {
            307
        } else {
            308
        }
    }

    /// The text of the redirect: its location.
    pub fn to_string(&self) -> (r: String)
        ensures
            r@ == self.location@,
    {
        self.location.clone()
    }
}

} // verus!
