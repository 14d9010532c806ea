//! Why creating, updating or deleting a resource (a node or a group) was
//! refused, and how each refusal is reported.

use vstd::prelude::*;

use crate::status::{refusal, Code, Status};

verus! {

/// Why a resource could not be deleted.
#[derive(Debug)]
pub enum DeleteResourceError {
    StillActive,
    StillInUse,
    NotFound,
    /// Another failure, with its description.
    Error(String),
}

/// Why a resource could not be created.
#[derive(Debug)]
pub enum CreateResourceError {
    RequiredNodeNotLoaded,
    RequiredPluginNotLoaded,
    AlreadyExists,
    /// Another failure, with its description.
    Error(String),
}

/// Why a resource could not be updated.
#[derive(Debug)]
pub enum UpdateResourceError {
    RequiredNodeNotLoaded,
    RequiredPluginNotLoaded,
    NotFound,
    /// Another failure, with its description.
    Error(String),
}

impl DeleteResourceError {
    /// The refusal reported for this error.
    pub fn to_status(self) -> (r: Status)
        ensures
            match self {
                DeleteResourceError::StillActive => refusal(
                    r,
                    Code::Unavailable,
                    "Resource is still set to active"@,
                ),
                DeleteResourceError::StillInUse => refusal(
                    r,
                    Code::Unavailable,
                    "Resource is still in use"@,
                ),
                DeleteResourceError::NotFound => refusal(r, Code::NotFound, "Resource not found"@),
                DeleteResourceError::Error(e) => refusal(r, Code::Internal, "Error: "@ + e@),
            },
    {
        match self {
            DeleteResourceError::StillActive => Status::new(
                Code::Unavailable,
                "Resource is still set to active",
            ),
            DeleteResourceError::StillInUse => Status::new(
                Code::Unavailable,
                "Resource is still in use",
            ),
            DeleteResourceError::NotFound => Status::new(Code::NotFound, "Resource not found"),
            DeleteResourceError::Error(e) => Status::with_detail(
                Code::Internal,
                "Error: ",
                e.as_str(),
            ),
        }
    }
}

impl CreateResourceError {
    /// The refusal reported for this error.
    pub fn to_status(self) -> (r: Status)
        ensures
            match self {
                CreateResourceError::RequiredNodeNotLoaded => refusal(
                    r,
                    Code::FailedPrecondition,
                    "Required node is not loaded"@,
                ),
                CreateResourceError::RequiredPluginNotLoaded => refusal(
                    r,
                    Code::FailedPrecondition,
                    "Required plugin is not loaded"@,
                ),
                CreateResourceError::AlreadyExists => refusal(
                    r,
                    Code::AlreadyExists,
                    "Resource already exists"@,
                ),
                CreateResourceError::Error(e) => refusal(r, Code::Internal, "Error: "@ + e@),
            },
    {
        match self {
            CreateResourceError::RequiredNodeNotLoaded => Status::new(
                Code::FailedPrecondition,
                "Required node is not loaded",
            ),
            CreateResourceError::RequiredPluginNotLoaded => Status::new(
                Code::FailedPrecondition,
                "Required plugin is not loaded",
            ),
            CreateResourceError::AlreadyExists => Status::new(
                Code::AlreadyExists,
                "Resource already exists",
            ),
            CreateResourceError::Error(e) => Status::with_detail(
                Code::Internal,
                "Error: ",
                e.as_str(),
            ),
        }
    }
}

impl UpdateResourceError {
    /// The refusal reported for this error.
    pub fn to_status(self) -> (r: Status)
        ensures
            match self {
                UpdateResourceError::RequiredNodeNotLoaded => refusal(
                    r,
                    Code::FailedPrecondition,
                    "Required node is not loaded"@,
                ),
                UpdateResourceError::RequiredPluginNotLoaded => refusal(
                    r,
                    Code::FailedPrecondition,
                    "Required plugin is not loaded"@,
                ),
                UpdateResourceError::NotFound => refusal(r, Code::NotFound, "Resource not found"@),
                UpdateResourceError::Error(e) => refusal(r, Code::Internal, "Error: "@ + e@),
            },
    {
        match self {
            UpdateResourceError::RequiredNodeNotLoaded => Status::new(
                Code::FailedPrecondition,
                "Required node is not loaded",
            ),
            UpdateResourceError::RequiredPluginNotLoaded => Status::new(
                Code::FailedPrecondition,
                "Required plugin is not loaded",
            ),
            UpdateResourceError::NotFound => Status::new(Code::NotFound, "Resource not found"),
            UpdateResourceError::Error(e) => Status::with_detail(
                Code::Internal,
                "Error: ",
                e.as_str(),
            ),
        }
    }
}

} // verus!
