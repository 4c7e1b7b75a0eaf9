//! Errors that the control plane hands to its callers.

use vstd::prelude::*;
use vstd::string::*;

verus! {

/// The kinds of object that an error can speak of.
#[derive(Clone, Copy, Debug, PartialEq, Eq, Structural)]
pub enum ResourceType {
    Project,
    Instance,
    Sled,
}

impl ResourceType {
    pub open spec fn spec_label(self) -> Seq<char> {
        match self {
            ResourceType::Project => "project"@,
            ResourceType::Instance => "instance"@,
            ResourceType::Sled => "sled"@,
        }
    }

    /// Lower-case name of the kind, as it appears in messages.
    pub fn label(self) -> (r: &'static str)
        ensures
            r@ == self.spec_label(),
    {
        match self {
            ResourceType::Project => "project",
            ResourceType::Instance => "instance",
            ResourceType::Sled => "sled",
        }
    }
}

/// An error of the control plane.
#[derive(Debug, PartialEq, Eq)]
pub enum ApiError {
    /// No object of that kind has that name.
    ObjectNotFound { resource: ResourceType, object_name: String },
    /// An object of that kind already has that name.
    ObjectAlreadyExists { resource: ResourceType, object_name: String },
    /// The request asks for something that cannot be done.
    InvalidRequest { message: String },
    /// A value in the request could not be understood.
    InvalidValue { label: String, message: String },
    /// A sled could not be reached.
    ServiceUnavailable { message: String },
    /// The control plane found itself in a state it must never be in.
    InternalError { message: String },
}

/// An [`ApiError`] with its texts as sequences of characters.
pub enum ApiErrorView {
    ObjectNotFound { resource: ResourceType, object_name: Seq<char> },
    ObjectAlreadyExists { resource: ResourceType, object_name: Seq<char> },
    InvalidRequest { message: Seq<char> },
    InvalidValue { label: Seq<char>, message: Seq<char> },
    ServiceUnavailable { message: Seq<char> },
    InternalError { message: Seq<char> },
}

impl ApiErrorView {
    /// The status code that the error is reported with.
    pub open spec fn status_code(self) -> u16 {
        match self {
            ApiErrorView::ObjectNotFound { .. } => 404,
            ApiErrorView::ObjectAlreadyExists { .. } => 400,
            ApiErrorView::InvalidRequest { .. } => 400,
            ApiErrorView::InvalidValue { .. } => 400,
            ApiErrorView::ServiceUnavailable { .. } => 503,
            ApiErrorView::InternalError { .. } => 500,
        }
    }

    /// The text that the error is reported with.
    pub open spec fn message(self) -> Seq<char> {
        match self {
            ApiErrorView::ObjectNotFound { resource, object_name } => "not found: "@
                + resource.spec_label() + " with name \""@ + object_name + "\""@,
            ApiErrorView::ObjectAlreadyExists { resource, object_name } => "already exists: "@
                + resource.spec_label() + " \""@ + object_name + "\""@,
            ApiErrorView::InvalidRequest { message } => message,
            ApiErrorView::InvalidValue { label, message } => "unsupported value for \""@ + label
                + "\": "@ + message,
            ApiErrorView::ServiceUnavailable { message } => message,
            ApiErrorView::InternalError { message } => message,
        }
    }
}

impl View for ApiError {
    type V = ApiErrorView;

    open spec fn view(&self) -> ApiErrorView {
        match self {
            ApiError::ObjectNotFound { resource, object_name } => ApiErrorView::ObjectNotFound {
                resource: *resource,
                object_name: object_name@,
            },
            ApiError::ObjectAlreadyExists {
                resource,
                object_name,
            } => ApiErrorView::ObjectAlreadyExists {
                resource: *resource,
                object_name: object_name@,
            },
            ApiError::InvalidRequest { message } => ApiErrorView::InvalidRequest {
                message: message@,
            },
            ApiError::InvalidValue { label, message } => ApiErrorView::InvalidValue {
                label: label@,
                message: message@,
            },
            ApiError::ServiceUnavailable { message } => ApiErrorView::ServiceUnavailable {
                message: message@,
            },
            ApiError::InternalError { message } => ApiErrorView::InternalError {
                message: message@,
            },
        }
    }
}

impl Clone for ApiError {
    fn clone(&self) -> (r: ApiError)
        ensures
            r@ == self@,
    {
        match self {
            ApiError::ObjectNotFound { resource, object_name } => ApiError::ObjectNotFound {
                resource: *resource,
                object_name: object_name.clone(),
            },
            ApiError::ObjectAlreadyExists { resource, object_name } => {
                ApiError::ObjectAlreadyExists {
                    resource: *resource,
                    object_name: object_name.clone(),
                }
            },
            ApiError::InvalidRequest { message } => ApiError::InvalidRequest {
                message: message.clone(),
            },
            ApiError::InvalidValue { label, message } => ApiError::InvalidValue {
                label: label.clone(),
                message: message.clone(),
            },
            ApiError::ServiceUnavailable { message } => ApiError::ServiceUnavailable {
                message: message.clone(),
            },
            ApiError::InternalError { message } => ApiError::InternalError {
                message: message.clone(),
            },
        }
    }
}

impl ApiError {
    pub fn not_found(resource: ResourceType, object_name: &str) -> (e: ApiError)
        ensures
            e@ == (ApiErrorView::ObjectNotFound { resource, object_name: object_name@ }),
    {
        ApiError::ObjectNotFound { resource, object_name: String::from_str(object_name) }
    }

    pub fn already_exists(resource: ResourceType, object_name: &str) -> (e: ApiError)
        ensures
            e@ == (ApiErrorView::ObjectAlreadyExists { resource, object_name: object_name@ }),
    {
        ApiError::ObjectAlreadyExists { resource, object_name: String::from_str(object_name) }
    }

    pub fn invalid_request(message: &str) -> (e: ApiError)
        ensures
            e@ == (ApiErrorView::InvalidRequest { message: message@ }),
    {
        ApiError::InvalidRequest { message: String::from_str(message) }
    }

    pub fn internal_error(message: &str) -> (e: ApiError)
        ensures
            e@ == (ApiErrorView::InternalError { message: message@ }),
    {
        ApiError::InternalError { message: String::from_str(message) }
    }

    pub fn unavailable(message: &str) -> (e: ApiError)
        ensures
            e@ == (ApiErrorView::ServiceUnavailable { message: message@ }),
    {
        ApiError::ServiceUnavailable { message: String::from_str(message) }
    }

    /// The status code that the error is reported with: 404 for an object
    /// that is not there, 503 for a sled out of reach, 500 for an internal
    /// error, 400 for everything else.
    pub fn status_code(&self) -> (code: u16)
        ensures
            code == self@.status_code(),
    {
        match self {
            ApiError::ObjectNotFound { .. } => 404,
            ApiError::ObjectAlreadyExists { .. } => 400,
            ApiError::InvalidRequest { .. } => 400,
            ApiError::InvalidValue { .. } => 400,
            ApiError::ServiceUnavailable { .. } => 503,
            ApiError::InternalError { .. } => 500,
        }
    }

    /// The text that the error is reported with.
    pub fn message(&self) -> (text: String)
        ensures
            text@ == self@.message(),
    {
        match self {
            ApiError::ObjectNotFound { resource, object_name } => {
                let mut text = String::from_str("not found: ");
                text.append(resource.label());
                text.append(" with name \"");
                text.append(object_name.as_str());
                text.append("\"");
                text
            },
            ApiError::ObjectAlreadyExists { resource, object_name } => {
                let mut text = String::from_str("already exists: ");
                text.append(resource.label());
                text.append(" \"");
                text.append(object_name.as_str());
                text.append("\"");
                text
            },
            ApiError::InvalidRequest { message } => message.clone(),
            ApiError::InvalidValue { label, message } => {
                let mut text = String::from_str("unsupported value for \"");
                text.append(label.as_str());
                text.append("\": ");
                text.append(message.as_str());
                text
            },
            ApiError::ServiceUnavailable { message } => message.clone(),
            ApiError::InternalError { message } => message.clone(),
        }
    }
}

} // verus!
