use vstd::prelude::*;

verus! {

/// The four broad families of failure that a pipeline step can report.
#[derive(PartialEq, Eq, Structural, Clone, Copy, Debug)]
pub enum ErrorKind {
    Network,
    Io,
    Parse,
    Storage,
}

/// A failure of one pipeline step.
#[derive(Debug)]
pub enum EtlError {
    /// The fetch did not complete: no response, a timeout or a non-success status.
    Network(String),
    /// A fetch was asked for with a timeout of zero.
    ZeroTimeout,
    /// The remote answered with a status other than success.
    HttpStatus(u16),
    /// A local file could not be read or written.
    Io(String),
    /// The source text holds no header row.
    MissingHeader,
    /// A data record has a different number of fields than the header.
    RowWidth { record: usize, expected: usize, found: usize },
    /// No table exists yet: nothing has been loaded.
    NoSuchTable,
    /// A load names other columns than the existing table has.
    SchemaMismatch,
    /// A new row has a different number of values than the table has columns.
    ValueCount { expected: usize, found: usize },
    /// A predicate names a column that the table does not have.
    NoSuchColumn,
}

pub open spec fn kind_of(e: EtlError) -> ErrorKind {
    match e {
        EtlError::Network(_) => ErrorKind::Network,
        EtlError::ZeroTimeout => ErrorKind::Network,
        EtlError::HttpStatus(_) => ErrorKind::Network,
        EtlError::Io(_) => ErrorKind::Io,
        EtlError::MissingHeader => ErrorKind::Parse,
        EtlError::RowWidth { .. } => ErrorKind::Parse,
        _ => ErrorKind::Storage,
    }
}

impl EtlError {
    /// The family this error belongs to.
    pub fn kind(&self) -> (r: ErrorKind)
        ensures
            r == kind_of(*self),
    {
        match self {
            EtlError::Network(_) => ErrorKind::Network,
            EtlError::ZeroTimeout => ErrorKind::Network,
            EtlError::HttpStatus(_) => ErrorKind::Network,
            EtlError::Io(_) => ErrorKind::Io,
            EtlError::MissingHeader => ErrorKind::Parse,
            EtlError::RowWidth { .. } => ErrorKind::Parse,
            _ => ErrorKind::Storage,
        }
    }
}

} // verus!
