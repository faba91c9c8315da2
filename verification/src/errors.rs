//! Error taxonomy of the storage layer and of request intake.

use vstd::prelude::*;

verus! {

/// Failures of the storage layer.
#[derive(Clone, Debug, PartialEq, Eq)]
pub enum DbError {
    RocksDb(String),
    WriteDb(String),
    ReadDb(String),
    Serialization(String),
    InvalidPath(String),
}

impl DbError {
    /// A human-readable description, in place of a Display impl.
    pub fn message(&self) -> (r: String)
        ensures
            r@.len() > 0,
    {
        let (prefix, detail): (&str, &String) = match self {
            DbError::RocksDb(s) => ("Database error: ", s),
            DbError::WriteDb(s) => ("Error writting db: ", s),
            DbError::ReadDb(s) => ("Error reading db: ", s),
            DbError::Serialization(s) => ("Serialization error: ", s),
            DbError::InvalidPath(s) => ("Invalid path: ", s),
        };
        proof {
            reveal_strlit("Database error: ");
            reveal_strlit("Error writting db: ");
            reveal_strlit("Error reading db: ");
            reveal_strlit("Serialization error: ");
            reveal_strlit("Invalid path: ");
        }
        let mut out = prefix.to_owned();
        out.append(detail.as_str());
        out
    }
}

/// Failures of request intake and lookup.
#[derive(Clone, Debug, PartialEq, Eq)]
pub enum RequestError {
    CreationError(String),
    EVMTxError,
    SolanaTxError,
    AlreadyExistingRequest(String),
    NoExistingRequest(String),
    InvalidDestinationAccount,
}

impl RequestError {
    /// A human-readable description, in place of a Display impl.
    pub fn message(&self) -> (r: String)
        ensures
            r@.len() > 0,
    {
        proof {
            reveal_strlit("Database request creation error: ");
            reveal_strlit("Token transfer reverted, check approval to the bridge:");
            reveal_strlit("Request already processing: ");
            reveal_strlit("A request with that id doesn't exist: ");
            reveal_strlit("Invalid destination account");
        }
        match self {
            RequestError::CreationError(s) => {
                let mut out = "Database request creation error: ".to_owned();
                out.append(s.as_str());
                out
            },
            RequestError::EVMTxError => {
                "Token transfer reverted, check approval to the bridge:".to_owned()
            },
            RequestError::SolanaTxError => {
                "Token transfer reverted, check approval to the bridge:".to_owned()
            },
            RequestError::AlreadyExistingRequest(s) => {
                let mut out = "Request already processing: ".to_owned();
                out.append(s.as_str());
                out
            },
            RequestError::NoExistingRequest(s) => {
                let mut out = "A request with that id doesn't exist: ".to_owned();
                out.append(s.as_str());
                out
            },
            RequestError::InvalidDestinationAccount => {
                "Invalid destination account".to_owned()
            },
        }
    }
}

} // verus!
