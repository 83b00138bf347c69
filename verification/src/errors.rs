//! The error type shared by every command the library serves.

use vstd::prelude::*;
use crate::models::CloudEnvironment;
use crate::text::{extend_chars, extend_str, string_of};
use crate::transcript::{decimal, decimal_chars};

verus! {

/// Unified application error returned from commands.
#[derive(Debug, Clone)]
pub enum AppError {
    Network { message: String, retryable: bool },
    Auth { message: String, cloud_env: CloudEnvironment },
    GraphApi { message: String, status_code: u16 },
    FileSystem { message: String, path: String },
    Config { message: String },
    Transfer { message: String, task_id: String },
    Validation { message: String, field: String },
}

/// The human-readable rendering of an error.
pub open spec fn app_error_text(e: AppError) -> Seq<char> {
    match e {
        AppError::Network { message, .. } => "Network error: "@ + message@,
        AppError::Auth { message, .. } => "Auth error: "@ + message@,
        AppError::GraphApi { message, status_code } => "Graph API error ("@ + decimal(
            status_code as nat,
        ) + "): "@ + message@,
        AppError::FileSystem { message, path } => "File system error at '"@ + path@ + "': "@
            + message@,
        AppError::Config { message } => "Config error: "@ + message@,
        AppError::Transfer { message, task_id } => "Transfer error (task "@ + task_id@ + "): "@
            + message@,
        AppError::Validation { message, field } => "Validation error on '"@ + field@ + "': "@
            + message@,
    }
}

/// The message carried by any variant.
pub open spec fn app_error_message(e: AppError) -> Seq<char> {
    match e {
        AppError::Network { message, .. } => message@,
        AppError::Auth { message, .. } => message@,
        AppError::GraphApi { message, .. } => message@,
        AppError::FileSystem { message, .. } => message@,
        AppError::Config { message } => message@,
        AppError::Transfer { message, .. } => message@,
        AppError::Validation { message, .. } => message@,
    }
}

impl AppError {
    /// The text shown to users for this error.
    pub fn to_display_string(&self) -> (s: String)
        ensures
            s@ == app_error_text(*self),
    {
        let mut out: Vec<char> = Vec::new();
        match self {
            AppError::Network { message, .. } => {
                extend_str(&mut out, "Network error: ");
                extend_str(&mut out, message.as_str());
            },
            AppError::Auth { message, .. } => {
                extend_str(&mut out, "Auth error: ");
                extend_str(&mut out, message.as_str());
            },
            AppError::GraphApi { message, status_code } => {
                extend_str(&mut out, "Graph API error (");
                let digits = decimal_chars(*status_code as u64);
                extend_chars(&mut out, digits.as_slice());
                extend_str(&mut out, "): ");
                extend_str(&mut out, message.as_str());
            },
            AppError::FileSystem { message, path } => {
                extend_str(&mut out, "File system error at '");
                extend_str(&mut out, path.as_str());
                extend_str(&mut out, "': ");
                extend_str(&mut out, message.as_str());
            },
            AppError::Config { message } => {
                extend_str(&mut out, "Config error: ");
                extend_str(&mut out, message.as_str());
            },
            AppError::Transfer { message, task_id } => {
                extend_str(&mut out, "Transfer error (task ");
                extend_str(&mut out, task_id.as_str());
                extend_str(&mut out, "): ");
                extend_str(&mut out, message.as_str());
            },
            AppError::Validation { message, field } => {
                extend_str(&mut out, "Validation error on '");
                extend_str(&mut out, field.as_str());
                extend_str(&mut out, "': ");
                extend_str(&mut out, message.as_str());
            },
        }
        string_of(out.as_slice())
    }

    /// The message carried by the error, without its category prefix.
    pub fn message(&self) -> (s: &String)
        ensures
            s@ == app_error_message(*self),
    {
        match self {
            AppError::Network { message, .. } => message,
            AppError::Auth { message, .. } => message,
            AppError::GraphApi { message, .. } => message,
            AppError::FileSystem { message, .. } => message,
            AppError::Config { message } => message,
            AppError::Transfer { message, .. } => message,
            AppError::Validation { message, .. } => message,
        }
    }
}

} // verus!
