//! The bounded request handed to an SG_IO executor: only typed read-only
//! commands, with data, sense and timeout limits checked before submission.
use vstd::prelude::*;

use crate::scsi::{command_allocation_len, ReadOnlyCommand};
use crate::timing::TimeSpan;

verus! {

pub const MAX_DATA_LEN: usize = 65536;

pub const MAX_SENSE_LEN: usize = 252;

/// Shortest timeout a request may carry: 100 ms.
pub const MIN_TIMEOUT_NANOS: u128 = 100_000_000;

/// Longest timeout a request may carry: 30 s.
pub const MAX_TIMEOUT_NANOS: u128 = 30_000_000_000;

#[derive(Debug, Clone, Copy, PartialEq, Eq, Structural)]
pub enum RequestError {
    DataLengthTooLarge,
    SenseLengthOutOfRange,
    TimeoutOutOfRange,
}

#[derive(Debug, Clone, Copy, PartialEq, Eq, Structural)]
pub struct SgIoRequest {
    pub command: ReadOnlyCommand,
    pub data_len: usize,
    pub sense_len: usize,
    pub timeout: TimeSpan,
}

/// The request built for a command, or the first limit it breaks.
pub open spec fn request_of(command: ReadOnlyCommand, sense_len: usize, timeout: TimeSpan) -> Result<
    SgIoRequest,
    RequestError,
> {
    if command_allocation_len(command) > MAX_DATA_LEN {
        Err(RequestError::DataLengthTooLarge)
    } else if sense_len == 0 || sense_len > MAX_SENSE_LEN {
        Err(RequestError::SenseLengthOutOfRange)
    } else if timeout.nanos < MIN_TIMEOUT_NANOS || timeout.nanos > MAX_TIMEOUT_NANOS {
        Err(RequestError::TimeoutOutOfRange)
    } else {
        Ok(
            SgIoRequest {
                command,
                data_len: command_allocation_len(command),
                sense_len,
                timeout,
            },
        )
    }
}

impl SgIoRequest {
    pub fn new(command: ReadOnlyCommand, sense_len: usize, timeout: TimeSpan) -> (r: Result<
        SgIoRequest,
        RequestError,
    >)
        ensures
            r == request_of(command, sense_len, timeout),
    {
        let data_len = command.allocation_len();
        if data_len > MAX_DATA_LEN {
            return Err(RequestError::DataLengthTooLarge);
        }
        if sense_len == 0 || sense_len > MAX_SENSE_LEN {
            return Err(RequestError::SenseLengthOutOfRange);
        }
        if timeout.nanos < MIN_TIMEOUT_NANOS || timeout.nanos > MAX_TIMEOUT_NANOS {
            return Err(RequestError::TimeoutOutOfRange);
        }
        Ok(SgIoRequest { command, data_len, sense_len, timeout })
    }
}

#[derive(Debug, Clone, PartialEq, Eq)]
pub struct SgIoResponse {
    pub data: Vec<u8>,
    pub sense: Vec<u8>,
    pub scsi_status: u8,
    pub host_status: u16,
    pub driver_status: u16,
    pub residual: i32,
}

/// What performs a typed request against a device; implemented outside the
/// library, where the ioctl lives.
pub trait TypedScsiExecutor {
    type Error;

    fn execute(&self, request: SgIoRequest) -> Result<SgIoResponse, Self::Error>;
}

#[derive(Debug)]
pub enum WorkerError<E> {
    Executor(E),
    Join,
    Closed,
}

} // verus!
