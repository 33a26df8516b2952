//! Error types of the scanner, with the messages they are shown with.
use vstd::prelude::*;
use crate::text::{push_str, vec_to_string};

verus! {

/// Connection-related errors
#[derive(Debug)]
pub enum ConnectionError {
    Connection(String),
}

/// Check execution errors
#[derive(Debug)]
pub enum CheckError {
    QueryFailed(String),
    FileRead(String),
    RequiresConnection,
}

/// Application-level errors
#[derive(Debug)]
pub enum AppError {
    Connection(ConnectionError),
    Check(CheckError),
    Config(String),
    Io(String),
}

pub open spec fn connection_error_text(e: ConnectionError) -> Seq<char> {
    match e {
        ConnectionError::Connection(m) => "Failed to connect to PostgreSQL: "@ + m@,
    }
}

pub open spec fn check_error_text(e: CheckError) -> Seq<char> {
    match e {
        CheckError::QueryFailed(m) => "Query execution failed: "@ + m@,
        CheckError::FileRead(m) => "File read error: "@ + m@,
        CheckError::RequiresConnection => "Check requires database connection"@,
    }
}

pub open spec fn app_error_text(e: AppError) -> Seq<char> {
    match e {
        AppError::Connection(c) => connection_error_text(c),
        AppError::Check(c) => check_error_text(c),
        AppError::Config(m) => "Configuration error: "@ + m@,
        AppError::Io(m) => "IO error: "@ + m@,
    }
}

impl ConnectionError {
    /// The message the error is shown with.
    pub fn message(&self) -> (s: String)
        ensures
            s@ == connection_error_text(*self),
    {
        match self {
            ConnectionError::Connection(m) => {
                let mut out: Vec<char> = Vec::new();
                push_str(&mut out, "Failed to connect to PostgreSQL: ");
                push_str(&mut out, m.as_str());
                vec_to_string(&out)
            },
        }
    }
}

impl CheckError {
    /// The message the error is shown with.
    pub fn message(&self) -> (s: String)
        ensures
            s@ == check_error_text(*self),
    {
        let mut out: Vec<char> = Vec::new();
        match self {
            CheckError::QueryFailed(m) => {
                push_str(&mut out, "Query execution failed: ");
                push_str(&mut out, m.as_str());
            },
            CheckError::FileRead(m) => {
                push_str(&mut out, "File read error: ");
                push_str(&mut out, m.as_str());
            },
            CheckError::RequiresConnection => {
                push_str(&mut out, "Check requires database connection");
            },
        }
        vec_to_string(&out)
    }
}

impl AppError {
    /// The message the error is shown with (a wrapped error shows its own).
    pub fn message(&self) -> (s: String)
        ensures
            s@ == app_error_text(*self),
    {
        match self {
            AppError::Connection(c) => c.message(),
            AppError::Check(c) => c.message(),
            AppError::Config(m) => {
                let mut out: Vec<char> = Vec::new();
                push_str(&mut out, "Configuration error: ");
                push_str(&mut out, m.as_str());
                vec_to_string(&out)
            },
            AppError::Io(m) => {
                let mut out: Vec<char> = Vec::new();
                push_str(&mut out, "IO error: ");
                push_str(&mut out, m.as_str());
                vec_to_string(&out)
            },
        }
    }
}

} // verus!
