//! What the callbacks of a generic server hand back.

use std::time::Duration;
use vstd::prelude::*;

use crate::process::ExitReason;

verus! {

/// The result of a server's `init`: how the process starts, or that it does not.
pub enum Init<S> {
    /// The process starts with this state.
    Ready(S),
    /// The process starts and is handed the argument right away.
    Continue(S, Vec<u8>),
    /// The process starts and is told when the time has passed.
    Timeout(S, Duration),
    /// The process does not start, and that is no error.
    Ignore,
    /// The process fails to start.
    Stop(ExitReason),
}

impl<S> Init<S> {
    /// The process starts with `state`.
    pub fn ok(state: S) -> (r: Self)
        ensures
            r == Init::Ready(state),
    {
        Init::Ready(state)
    }

    /// The process starts and is handed `arg` right away.
    pub fn cont(state: S, arg: Vec<u8>) -> (r: Self)
        ensures
            r == Init::Continue(state, arg),
    {
        Init::Continue(state, arg)
    }

    /// The process starts and is told when `duration` has passed.
    pub fn timeout(state: S, duration: Duration) -> (r: Self)
        ensures
            r == Init::Timeout(state, duration),
    {
        Init::Timeout(state, duration)
    }

    /// The process does not start.
    pub fn ignore() -> (r: Self)
        ensures
            r == Init::<S>::Ignore,
    {
        Init::Ignore
    }

    /// The process fails to start.
    pub fn stop(reason: ExitReason) -> (r: Self)
        ensures
            r == Init::<S>::Stop(reason),
    {
        Init::Stop(reason)
    }
}

/// The result of handling a call.
pub enum Reply<T> {
    /// Reply, and go on.
    Answer(T),
    /// Reply, then hand the server the argument.
    Continue(T, Vec<u8>),
    /// Reply, then tell the server when the time has passed.
    Timeout(T, Duration),
    /// The reply is sent later.
    NoReply,
    /// Reply, then stop.
    Stop(ExitReason, T),
    /// Stop; the caller gets an error.
    StopNoReply(ExitReason),
}

impl<T> Reply<T> {
    /// Reply with `value`.
    pub fn ok(value: T) -> (r: Self)
        ensures
            r == Reply::Answer(value),
    {
        Reply::Answer(value)
    }

    /// Reply with `value`, then hand the server `arg`.
    pub fn cont(value: T, arg: Vec<u8>) -> (r: Self)
        ensures
            r == Reply::Continue(value, arg),
    {
        Reply::Continue(value, arg)
    }

    /// Reply with `value`, then tell the server when `duration` has passed.
    pub fn timeout(value: T, duration: Duration) -> (r: Self)
        ensures
            r == Reply::Timeout(value, duration),
    {
        Reply::Timeout(value, duration)
    }

    /// The reply is sent later.
    pub fn noreply() -> (r: Self)
        ensures
            r == Reply::<T>::NoReply,
    {
        Reply::NoReply
    }

    /// Reply with `value`, then stop.
    pub fn stop(reason: ExitReason, value: T) -> (r: Self)
        ensures
            r == Reply::Stop(reason, value),
    {
        Reply::Stop(reason, value)
    }

    /// Stop without a reply.
    pub fn stop_noreply(reason: ExitReason) -> (r: Self)
        ensures
            r == Reply::<T>::StopNoReply(reason),
    {
        Reply::StopNoReply(reason)
    }

    /// Stop without a reply, for an error.
    pub fn error(msg: String) -> (r: Self)
        ensures
            r == Reply::<T>::StopNoReply(ExitReason::Error(msg)),
    {
        Reply::StopNoReply(ExitReason::Error(msg))
    }

    /// The reply of a fallible handler: an error stops the process with the error's text.
    pub fn from_result(result: Result<Reply<T>, String>) -> (r: Self)
        ensures
            r == (match result {
                Ok(reply) => reply,
                Err(text) => Reply::<T>::StopNoReply(ExitReason::Error(text)),
            }),
    {
        match result {
            Ok(reply) => reply,
            Err(text) => Reply::StopNoReply(ExitReason::Error(text)),
        }
    }
}

/// The result of handling a cast or an info message.
pub enum Status {
    /// Go on.
    Proceed,
    /// Hand the server the argument.
    Continue(Vec<u8>),
    /// Tell the server when the time has passed.
    Timeout(Duration),
    /// Stop.
    Stop(ExitReason),
}

impl Default for Status {
    fn default() -> (r: Self)
        ensures
            r == Status::Proceed,
    {
        Status::Proceed
    }
}

impl Status {
    /// Go on.
    pub fn ok() -> (r: Self)
        ensures
            r == Status::Proceed,
    {
        Status::Proceed
    }

    /// Hand the server `arg`.
    pub fn cont(arg: Vec<u8>) -> (r: Self)
        ensures
            r == Status::Continue(arg),
    {
        Status::Continue(arg)
    }

    /// Tell the server when `duration` has passed.
    pub fn timeout(duration: Duration) -> (r: Self)
        ensures
            r == Status::Timeout(duration),
    {
        Status::Timeout(duration)
    }

    /// Stop.
    pub fn stop(reason: ExitReason) -> (r: Self)
        ensures
            r == Status::Stop(reason),
    {
        Status::Stop(reason)
    }

    /// Stop, for an error.
    pub fn error(msg: String) -> (r: Self)
        ensures
            r == Status::Stop(ExitReason::Error(msg)),
    {
        Status::Stop(ExitReason::Error(msg))
    }

    /// The status of a fallible handler: an error stops the process with the error's text.
    pub fn from_result(result: Result<Status, String>) -> (r: Self)
        ensures
            r == (match result {
                Ok(status) => status,
                Err(text) => Status::Stop(ExitReason::Error(text)),
            }),
    {
        match result {
            Ok(status) => status,
            Err(text) => Status::Stop(ExitReason::Error(text)),
        }
    }
}

} // verus!
