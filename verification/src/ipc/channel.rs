//! Bounded channels between tasks: the outcomes of sending and receiving,
//! and what a pending send or receive does next.

use vstd::prelude::*;

verus! {

/// Polls a pending operation spins before it registers its waker.
pub const SPIN_LIMIT: u32 = 30;

/// Most items one batch receive takes.
pub const BATCH_LIMIT: usize = 32;

/// Why a value could not be sent; the value comes back.
#[derive(Debug, Clone, Copy, PartialEq, Eq, Structural)]
pub enum SendError<T> {
    /// The channel is full.
    Full(T),
    /// The channel is closed.
    Closed(T),
}

/// Why nothing was received.
#[derive(Debug, Clone, Copy, PartialEq, Eq, Structural)]
pub enum RecvError {
    /// The channel is empty.
    Empty,
    /// The channel is empty and closed.
    Closed,
}

/// How many spin-loop hints a pending operation issues on its
/// `spin_count`-th spin: one at first, then as many as the count, then 100.
pub fn spin_iterations(spin_count: u32) -> (r: u32)
    ensures
        spin_count <= 10 ==> r == 1,
        10 < spin_count <= 20 ==> r == spin_count,
        spin_count > 20 ==> r == 100,
{
    if spin_count <= 10 {
        1
    } else if spin_count <= 20 {
        spin_count
    } else {
        100
    }
}

/// The first step of sending: a closed channel gives the value back.
pub fn check_send<T>(closed: bool, value: T) -> (r: Result<T, SendError<T>>)
    ensures
        closed ==> r == Err::<T, SendError<T>>(SendError::Closed(value)),
        !closed ==> r == Ok::<T, SendError<T>>(value),
{
    if closed {
        Err(SendError::Closed(value))
    } else {
        Ok(value)
    }
}

/// Whether a send that left `len_after` items in the queue wakes the
/// receivers: it does when the queue was empty before.
pub fn wakes_receivers(len_after: usize) -> (r: bool)
    ensures
        r == (len_after <= 1),
{
    len_after <= 1
}

/// The error of a receive that found the queue empty.
pub fn empty_error(closed: bool) -> (r: RecvError)
    ensures
        r == (if closed { RecvError::Closed } else { RecvError::Empty }),
{
    if closed {
        RecvError::Closed
    } else {
        RecvError::Empty
    }
}

/// Whether a batch receive that has taken `count` items takes another.
pub fn batch_continues(count: usize) -> (r: bool)
    ensures
        r == (count < BATCH_LIMIT),
{
    count < BATCH_LIMIT
}

/// The result of a batch receive that took `count` items.
pub fn batch_outcome(count: usize, closed: bool) -> (r: Result<usize, RecvError>)
    ensures
        count > 0 ==> r == Ok::<usize, RecvError>(count),
        count == 0 ==> r == Err::<usize, RecvError>(empty_error_spec(closed)),
{
    if count > 0 {
        Ok(count)
    } else {
        Err(empty_error(closed))
    }
}

/// The error of a receive that found the queue empty.
pub open spec fn empty_error_spec(closed: bool) -> RecvError {
    if closed {
        RecvError::Closed
    } else {
        RecvError::Empty
    }
}

/// A receive on an empty queue fails with `Closed` exactly when the
/// channel is closed, and with `Empty` exactly when it is still open.
pub proof fn lemma_empty_error(closed: bool)
    ensures
        (empty_error_spec(closed) == RecvError::Closed) == closed,
        (empty_error_spec(closed) == RecvError::Empty) == !closed,
{
}

/// What a pending operation does when it cannot complete yet.
#[derive(Debug, Clone, Copy, PartialEq, Eq, Structural)]
pub enum PendingStep {
    /// Spin with this new count, wake itself and stay pending.
    Spin(u32),
    /// Register its waker and stay pending.
    Register,
}

/// What a pending operation that has spun `spin_count` times does next.
pub fn pending_step(spin_count: u32) -> (r: PendingStep)
    ensures
        spin_count < SPIN_LIMIT ==> r == PendingStep::Spin((spin_count + 1) as u32),
        spin_count >= SPIN_LIMIT ==> r == PendingStep::Register,
{
    if spin_count < SPIN_LIMIT {
        PendingStep::Spin(spin_count + 1)
    } else {
        PendingStep::Register
    }
}

/// What polling a receive does after the queue was found empty: finish
/// with `Closed` when the channel is closed, else wait as `pending_step`
/// says.
pub fn recv_empty_step(closed: bool, spin_count: u32) -> (r: Result<PendingStep, RecvError>)
    ensures
        closed ==> r == Err::<PendingStep, RecvError>(RecvError::Closed),
        !closed ==> r == Ok::<PendingStep, RecvError>(
            if spin_count < SPIN_LIMIT {
                PendingStep::Spin((spin_count + 1) as u32)
            } else {
                PendingStep::Register
            },
        ),
{
    if closed {
        Err(RecvError::Closed)
    } else {
        Ok(pending_step(spin_count))
    }
}

} // verus!
