//! The server's connection lifecycle, as decisions: admission control under a
//! fixed ceiling, the accept loop's retry backoff, the drain bookkeeping of a
//! graceful shutdown, and the one step a connection handler takes for each
//! frame it reads. The asynchronous shell owns the sockets, the semaphore and
//! the channels; it performs each action these functions decide and hands the
//! next event back.
use vstd::prelude::*;

use crate::cmd::ApplyError;
use crate::cmd::Command;
use crate::cmd::CommandView;
use crate::cmd::spec_from_frame;
use crate::db::spec_lookup;
use crate::db::spec_set_rel;
use crate::db::State;
use crate::frame::Frame;
use crate::parse::ParseError;

verus! {

/// Why a handler gives its connection up: the request failed to parse, or it
/// named a command whose application is not wired in. Either way the reply
/// cannot be produced and the connection is aborted; the store is untouched.
#[derive(Clone, Copy, Debug, PartialEq, Eq, Structural)]
pub enum HandlerError {
    Protocol(ParseError),
    Unimplemented,
}

/// One step of a connection handler: parse the frame it read into a command
/// and apply it against the store at instant `now`. On success the reply
/// frame comes back with whether the eviction routine must be woken; on
/// failure the error says why the connection is being given up.
pub fn handle_frame(db: &mut State, frame: Frame, now: u64) -> (r: Result<
    (Frame, bool),
    HandlerError,
>)
    requires
        old(db).wf(),
        old(db).next_id < u64::MAX,
    ensures
        final(db).wf(),
        match spec_from_frame(frame) {
            Err(pe) => *final(db) == *old(db) && (r matches Err(he) && he
                == HandlerError::Protocol(pe)),
            Ok(cv) => match cv {
                CommandView::Get { key } => *final(db) == *old(db) && (r matches Ok(p) && p.1
                    == false && (match spec_lookup(old(db).entries@, key) {
                    Some(e) => p.0 matches Frame::Bulk(b) && b@ == e.data@,
                    None => p.0 is Null,
                })),
                CommandView::SetCmd { key, value, expire } => (r matches Ok(p) && spec_set_rel(
                    *old(db),
                    *final(db),
                    key,
                    value,
                    expire,
                    now,
                    p.1,
                ) && (p.0 matches Frame::Simple(s) && s@ == "OK"@)),
                CommandView::Unknown { name } => *final(db) == *old(db) && (r matches Ok(p)
                    && p.1 == false && (p.0 matches Frame::Error(m) && m@
                    == "ERR unknown command '"@ + name + "'"@)),
                _ => *final(db) == *old(db) && (r matches Err(he) && he
                    == HandlerError::Unimplemented),
            },
        },
{
    let cmd = match Command::from_frame(frame) {
        Ok(c) => c,
        Err(e) => {
            return Err(HandlerError::Protocol(e));
        },
    };
    match cmd.apply(db, now) {
        Ok(p) => Ok(p),
        Err(ApplyError::Unimplemented) => Err(HandlerError::Unimplemented),
    }
}

/// The lifecycle bookkeeping the listener and the shutdown coordinator
/// share: the admission ceiling, how many handlers are in flight (each
/// holding one admission slot and one drain token), and whether shutdown has
/// been triggered.
pub struct Lifecycle {
    pub max: usize,
    pub in_flight: usize,
    pub shutting_down: bool,
}

impl Lifecycle {
    /// Never more handlers in flight than the ceiling allows.
    pub open spec fn wf(self) -> bool {
        self.in_flight <= self.max
    }

    /// What admitting a connection decides: admitted exactly when a slot is
    /// free and shutdown has not begun.
    pub open spec fn spec_try_admit(self) -> (Lifecycle, bool) {
        if self.in_flight < self.max && !self.shutting_down {
            (
                Lifecycle {
                    max: self.max,
                    in_flight: (self.in_flight + 1) as usize,
                    shutting_down: self.shutting_down,
                },
                true,
            )
        } else {
            (self, false)
        }
    }

    /// What a handler's exit decides: its slot and token return.
    pub open spec fn spec_handler_exited(self) -> Lifecycle {
        Lifecycle {
            max: self.max,
            in_flight: if self.in_flight > 0 {
                (self.in_flight - 1) as usize
            } else {
                0
            },
            shutting_down: self.shutting_down,
        }
    }

    /// What the shutdown trigger decides: from here on nothing is admitted.
    pub open spec fn spec_trigger_shutdown(self) -> Lifecycle {
        Lifecycle { max: self.max, in_flight: self.in_flight, shutting_down: true }
    }

    /// Whether the coordinator may report completion: only with shutdown
    /// triggered and every handler's token returned.
    pub open spec fn spec_drain_complete(self) -> bool {
        self.shutting_down && self.in_flight == 0
    }

    /// A fresh lifecycle under ceiling `max`: nothing in flight, running.
    pub fn new(max: usize) -> (r: Lifecycle)
        ensures
            r.wf(),
            r.max == max,
            r.in_flight == 0,
            !r.shutting_down,
    {
        Lifecycle { max, in_flight: 0, shutting_down: false }
    }

    /// A connection arrived: admit it and account for its handler, or refuse.
    pub fn try_admit(&mut self) -> (r: bool)
        requires
            old(self).wf(),
        ensures
            final(self).wf(),
            (*final(self), r) == old(self).spec_try_admit(),
            r <==> (old(self).in_flight < old(self).max && !old(self).shutting_down),
    {
        if self.in_flight < self.max && !self.shutting_down {
            self.in_flight = self.in_flight + 1;
            true
        } else {
            false
        }
    }

    /// A handler exited, cleanly or not: its slot and drain token return.
    pub fn handler_exited(&mut self)
        requires
            old(self).wf(),
        ensures
            final(self).wf(),
            *final(self) == old(self).spec_handler_exited(),
    {
        if self.in_flight > 0 {
            self.in_flight = self.in_flight - 1;
        }
    }

    /// The shutdown signal arrived: record that nothing more is admitted.
    pub fn trigger_shutdown(&mut self)
        requires
            old(self).wf(),
        ensures
            final(self).wf(),
            *final(self) == old(self).spec_trigger_shutdown(),
    {
        self.shutting_down = true;
    }

    /// Whether the process may report that the drain is complete.
    pub fn drain_complete(&self) -> (r: bool)
        ensures
            r == self.spec_drain_complete(),
    {
        self.shutting_down && self.in_flight == 0
    }
}

/// Admission control under a ceiling of `max` concurrent connections: with
/// every slot taken a further connection is refused; after one handler exits,
/// exactly one more connection is admitted and the next is again refused.
pub proof fn lemma_admission_ceiling(l: Lifecycle)
    requires
        l.wf(),
        l.in_flight == l.max,
        l.max > 0,
        !l.shutting_down,
    ensures
        !l.spec_try_admit().1,
        l.spec_handler_exited().spec_try_admit().1,
        !l.spec_handler_exited().spec_try_admit().0.spec_try_admit().1,
{
}

/// A graceful shutdown drains: once the trigger fires no connection is
/// admitted — also after further handlers exit — and completion is reported
/// only when every in-flight handler has exited and returned its token.
pub proof fn lemma_shutdown_drains(l: Lifecycle)
    requires
        l.wf(),
    ensures
        !l.spec_trigger_shutdown().spec_try_admit().1,
        !l.spec_trigger_shutdown().spec_handler_exited().spec_try_admit().1,
        l.spec_drain_complete() ==> l.in_flight == 0,
        l.spec_trigger_shutdown().in_flight == l.in_flight,
{
}

/// The accept loop's retry policy: sleep, double the wait, and give up once
/// the wait would exceed the ceiling of 32 seconds.
pub struct AcceptBackoff {
    pub backoff: u64,
}

impl AcceptBackoff {
    /// What one transient accept failure decides: how long to sleep before
    /// retrying (doubling the next wait), or that the failure is now fatal.
    pub open spec fn spec_step(self) -> (AcceptBackoff, Option<u64>) {
        if self.backoff > 32 {
            (self, None)
        } else {
            (AcceptBackoff { backoff: (self.backoff * 2) as u64 }, Some(self.backoff))
        }
    }

    /// A fresh policy: the first wait is one second.
    pub fn new() -> (r: AcceptBackoff)
        ensures
            r.backoff == 1,
    {
        AcceptBackoff { backoff: 1 }
    }

    /// The accept call failed: how long to sleep before retrying, or nothing
    /// when the server must treat the failure as fatal.
    pub fn on_error(&mut self) -> (r: Option<u64>)
        ensures
            (*final(self), r) == old(self).spec_step(),
    {
        if self.backoff > 32 {
            None
        } else {
            let wait = self.backoff;
            self.backoff = self.backoff * 2;
            Some(wait)
        }
    }
}

/// The waits a fresh policy grants before giving up, in order.
pub open spec fn spec_backoff_sleeps(b: AcceptBackoff) -> Seq<u64>
    decreases 64 - b.backoff,
    when b.backoff >= 1
{
    if b.backoff > 32 {
        Seq::empty()
    } else {
        seq![b.backoff] + spec_backoff_sleeps(b.spec_step().0)
    }
}

/// The retry schedule: transient accept failures are retried after waits of
/// exactly 1, 2, 4, 8, 16 and 32 seconds, and only then does the server treat
/// the failure as fatal.
pub proof fn lemma_backoff_schedule()
    ensures
        spec_backoff_sleeps(AcceptBackoff { backoff: 1 }) =~= seq![1u64, 2, 4, 8, 16, 32],
{
    reveal_with_fuel(spec_backoff_sleeps, 8);
}

} // verus!
