//! Raw responses: the frames returned for one submission, and the errors around them.

use vstd::prelude::*;
use crate::errors::TypedResponseError;
use crate::frame::Frame;

verus! {

/// An error reported by the server (`ACK [code@index] {command} message`).
#[derive(Clone, Debug, PartialEq, Eq)]
pub struct MpdError {
    /// The error code.
    pub code: u64,
    /// Index of the failing command within a command list.
    pub command_index: u64,
    /// Name of the command that failed.
    pub current_command: String,
    /// The message text, possibly empty.
    pub message: String,
}

/// The response to one submission: the frames of the commands that succeeded, in order,
/// followed by the error of the command that failed, if one did.
#[derive(Clone, Debug, PartialEq, Eq)]
pub struct Response {
    pub frames: Vec<Frame>,
    pub error: Option<MpdError>,
}

impl Response {
    /// A response holds at least one frame or an error.
    pub open spec fn wf(&self) -> bool {
        self.frames@.len() > 0 || self.error is Some
    }

    /// Number of items (frames and error) in the response.
    pub fn len(&self) -> (r: usize)
        requires
            self.frames@.len() < usize::MAX,
        ensures
            r == self.frames@.len() + if self.error is Some { 1int } else { 0int },
    {
        self.frames.len() + if self.error.is_some() { 1 } else { 0 }
    }

    /// The first item of the response: its first frame, or the error where it has none.
    pub fn single_frame(self) -> (r: Result<Frame, MpdError>)
        requires
            self.wf(),
        ensures
            self.frames@.len() > 0 ==> r == Ok::<Frame, MpdError>(self.frames@[0]),
            self.frames@.len() == 0 ==> r == Err::<Frame, MpdError>(self.error->0),
    {
        let mut frames = self.frames;
        if frames.len() > 0 {
            Ok(frames.remove(0))
        } else {
            match self.error {
                Some(e) => Err(e),
                None => unreached(),
            }
        }
    }
}

/// Errors that a command submission can end in. `E` is the transport's error type.
#[derive(Debug)]
pub enum CommandError<E> {
    /// The connection was closed before a response arrived.
    ConnectionClosed,
    /// The transport failed or sent what the codec cannot read.
    Protocol(E),
    /// The server answered with an error; the frames of the commands before it are kept.
    ErrorResponse { error: MpdError, successful_frames: Vec<Frame> },
    /// The response did not convert to the expected type.
    TypedResponse(TypedResponseError),
}

/// Errors delivered on the state-change channel. `E` is the transport's error type.
#[derive(Debug)]
pub enum StateChangeError<E> {
    /// The transport failed or sent what the codec cannot read.
    Protocol(E),
    /// The server answered `idle` with an error.
    ErrorMessage(MpdError),
}

/// The frame of a single command's response, or the server's error as an error response
/// with no frames before it.
pub fn response_frame<E>(res: Response) -> (r: Result<Frame, CommandError<E>>)
    requires
        res.wf(),
    ensures
        res.frames@.len() > 0 ==> r == Ok::<Frame, CommandError<E>>(res.frames@[0]),
        res.frames@.len() == 0 ==> (r matches Err(CommandError::ErrorResponse {
            error,
            successful_frames,
        }) && error == res.error->0 && successful_frames@.len() == 0),
{
    match res.single_frame() {
        Ok(f) => Ok(f),
        Err(error) => Err(CommandError::ErrorResponse { error, successful_frames: Vec::new() }),
    }
}

/// The frames of a command list's response, or, where one of the commands failed, its
/// error together with the frames of the commands before it.
pub fn response_frames<E>(res: Response) -> (r: Result<Vec<Frame>, CommandError<E>>)
    ensures
        res.error is None ==> r == Ok::<Vec<Frame>, CommandError<E>>(res.frames),
        res.error matches Some(err) ==> r == Err::<Vec<Frame>, CommandError<E>>(
            CommandError::ErrorResponse { error: err, successful_frames: res.frames },
        ),
{
    match res.error {
        None => Ok(res.frames),
        Some(error) => Err(CommandError::ErrorResponse { error, successful_frames: res.frames }),
    }
}

} // verus!
