use vstd::prelude::*;

verus! {

/// The error kinds the server distinguishes, one variant per failure source.
#[derive(Debug, Clone, Copy, PartialEq, Eq, Structural)]
pub enum ErrorKind {
    Notify,
    SerdeYaml,
    DomainStr,
    DomainZone,
    Io,
    TSIGFileAlreadyExist,
    TSIGFileNotFound,
    TSIGKey,
    RingUnspecified,
    Utf8,
    PushError,
    OctsetShortBuffer,
    Base64,
}

/// An error of the server: a kind plus an optional human-readable message.
#[derive(Debug, Clone)]
pub struct Error {
    pub kind: ErrorKind,
    pub message: Option<String>,
}

impl ErrorKind {
    /// A short fixed description of the kind.
    pub fn as_str(&self) -> (r: &'static str)
        ensures
            r@.len() > 0,
    {
        proof {
            reveal_strlit("notify error");
            reveal_strlit("serde yaml error");
            reveal_strlit("invalid domain name");
            reveal_strlit("domain zone error");
            reveal_strlit("io error");
            reveal_strlit("tsig file already exists");
            reveal_strlit("tsig file not found");
            reveal_strlit("tsig key error");
            reveal_strlit("ring unspecified error");
            reveal_strlit("utf8 error");
            reveal_strlit("tsig push error");
            reveal_strlit("octset short buffer error");
            reveal_strlit("base64 error");
        }
        match self {
            ErrorKind::Notify => "notify error",
            ErrorKind::SerdeYaml => "serde yaml error",
            ErrorKind::DomainStr => "invalid domain name",
            ErrorKind::DomainZone => "domain zone error",
            ErrorKind::Io => "io error",
            ErrorKind::TSIGFileAlreadyExist => "tsig file already exists",
            ErrorKind::TSIGFileNotFound => "tsig file not found",
            ErrorKind::TSIGKey => "tsig key error",
            ErrorKind::RingUnspecified => "ring unspecified error",
            ErrorKind::Utf8 => "utf8 error",
            ErrorKind::PushError => "tsig push error",
            ErrorKind::OctsetShortBuffer => "octset short buffer error",
            ErrorKind::Base64 => "base64 error",
        }
    }
}

impl Error {
    /// Builds an error of the given kind without a message.
    pub fn new(kind: ErrorKind) -> (r: Error)
        ensures
            r.kind == kind,
            r.message is None,
    {
        Error { kind, message: None }
    }

    /// The text shown for this error: its message if any, else the kind's text.
    pub fn display_string(&self) -> (r: String)
        ensures
            r@.len() > 0 || self.message is Some,
    {
        match &self.message {
            Some(message) => message.clone(),
            None => {
                let s = self.kind.as_str();
                s.to_owned()
            },
        }
    }
}

} // verus!
