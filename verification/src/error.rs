//! The error cases the clipper core can report to a caller: input
//! validation failures and admission failures. Execution failures are not
//! errors in this sense; they land in the worker's failure log.

use vstd::prelude::*;

use crate::numfmt::{dec_str, u64_to_string, usize_to_string};

verus! {

/// Why a request was turned away.
#[derive(Debug, Clone)]
pub enum ClipError {
    /// A time field was neither empty nor a number that fits the field.
    InvalidTimeNumber,
    /// The requested range would start at or after its end.
    StartNotBeforeEnd,
    /// The requested range is longer than the configured maximum.
    DurationTooLong { max_seconds: u64 },
    /// The pending set already holds as many jobs as the queue admits.
    QueueFull { max_queue_size: usize },
    /// A job with the same derived key is already pending.
    DuplicateJob { file_name: String },
    /// The audio track selector is missing its index part.
    MissingAudioTrack,
    /// An index rebuild is already in flight.
    RefreshInProgress,
}

impl ClipError {
    /// The human-readable text for this error.
    pub open spec fn message_view(&self) -> Seq<char> {
        match self {
            ClipError::InvalidTimeNumber => "time fields should be empty or numeric"@,
            ClipError::StartNotBeforeEnd => "start time should be before end time"@,
            ClipError::DurationTooLong { max_seconds } => "clip duration should not exceed "@
                + dec_str(*max_seconds as int) + " seconds"@,
            ClipError::QueueFull { max_queue_size } => "maximum job queue size has been reached: "@
                + dec_str(*max_queue_size as int),
            ClipError::DuplicateJob { file_name } => "there is already a pending job called "@
                + file_name@,
            ClipError::MissingAudioTrack => "audio_track is missing or invalid"@,
            ClipError::RefreshInProgress =>
                "file indexing forbidden: another indexing is already in progress"@,
        }
    }

    /// Render the error as its message text.
    pub fn message(&self) -> (r: String)
        ensures
            r@ == self.message_view(),
    {
        match self {
            ClipError::InvalidTimeNumber => String::from_str(
                "time fields should be empty or numeric",
            ),
            ClipError::StartNotBeforeEnd => String::from_str("start time should be before end time"),
            ClipError::DurationTooLong { max_seconds } => {
                let mut s = String::from_str("clip duration should not exceed ");
                let num = u64_to_string(*max_seconds);
                s.append(num.as_str());
                s.append(" seconds");
                s
            },
            ClipError::QueueFull { max_queue_size } => {
                let mut s = String::from_str("maximum job queue size has been reached: ");
                let num = usize_to_string(*max_queue_size);
                s.append(num.as_str());
                s
            },
            ClipError::DuplicateJob { file_name } => {
                let mut s = String::from_str("there is already a pending job called ");
                s.append(file_name.as_str());
                s
            },
            ClipError::MissingAudioTrack => String::from_str("audio_track is missing or invalid"),
            ClipError::RefreshInProgress => String::from_str(
                "file indexing forbidden: another indexing is already in progress",
            ),
        }
    }
}

} // verus!
