//! The shared mailbox between the simulation thread and the presentation
//! thread: a running flag, a queue of input events, a queue of outbound
//! requests, and the latest published draw-command batch guarded by a
//! "new data available" flag.
//!
//! This type holds the data and the exact rules of each exchange; the
//! lock wrapper that makes one instance usable from two threads is the
//! host's concern and adds no behaviour of its own.

use vstd::prelude::*;

use crate::data::DrawData;
use crate::data::EventData;
use crate::data::GameRequest;

verus! {

/// The mathematical value of a mailbox at one instant.
pub struct SharedStateView {
    pub running: bool,
    pub events: Seq<EventData>,
    pub requests: Seq<GameRequest>,
    pub draw_data: Seq<DrawData>,
    pub new_draw_data: bool,
}

/// The mailbox a fresh `SharedState` holds: running, empty queues, and
/// an empty draw batch already marked fresh so the first frame is drawn.
pub open spec fn initial_state() -> SharedStateView {
    SharedStateView {
        running: true,
        events: Seq::empty(),
        requests: Seq::empty(),
        draw_data: Seq::empty(),
        new_draw_data: true,
    }
}

/// The mailbox after a shutdown request. Terminal: nothing sets the
/// running flag true again.
pub open spec fn stopped(s: SharedStateView) -> SharedStateView {
    SharedStateView { running: false, ..s }
}

/// The mailbox after one input event is appended.
pub open spec fn event_pushed(s: SharedStateView, event: EventData) -> SharedStateView {
    SharedStateView { events: s.events.push(event), ..s }
}

/// The mailbox after the event queue is drained: the drain takes all.
pub open spec fn events_drained(s: SharedStateView) -> SharedStateView {
    SharedStateView { events: Seq::empty(), ..s }
}

/// The mailbox after a batch of outbound requests is appended.
pub open spec fn requests_pushed(s: SharedStateView, requests: Seq<GameRequest>) -> SharedStateView {
    SharedStateView { requests: s.requests + requests, ..s }
}

/// The mailbox after the request queue is drained.
pub open spec fn requests_drained(s: SharedStateView) -> SharedStateView {
    SharedStateView { requests: Seq::empty(), ..s }
}

/// The mailbox after a draw batch is published: the previous batch is
/// replaced wholesale, never merged, and the batch is marked fresh.
pub open spec fn draw_data_published(s: SharedStateView, batch: Seq<DrawData>) -> SharedStateView {
    SharedStateView { draw_data: batch, new_draw_data: true, ..s }
}

/// The mailbox after the presentation side takes the draw batch: if a
/// fresh batch was available it is handed out and the flag cleared, so
/// a batch is delivered at most once; otherwise nothing changes.
pub open spec fn draw_data_taken(s: SharedStateView) -> SharedStateView {
    if s.new_draw_data {
        SharedStateView { draw_data: Seq::empty(), new_draw_data: false, ..s }
    } else {
        s
    }
}

/// The synchronized shared-state object, as plain data. Each method is
/// one atomic exchange; the host performs it while holding the lock.
pub struct SharedState {
    running: bool,
    events: Vec<EventData>,
    requests: Vec<GameRequest>,
    draw_data: Vec<DrawData>,
    new_draw_data: bool,
}

impl View for SharedState {
    type V = SharedStateView;

    closed spec fn view(&self) -> SharedStateView {
        SharedStateView {
            running: self.running,
            events: self.events@,
            requests: self.requests@,
            draw_data: self.draw_data@,
            new_draw_data: self.new_draw_data,
        }
    }
}

impl SharedState {
    pub fn new() -> (r: SharedState)
        ensures
            r@ == initial_state(),
    {
        let r = SharedState {
            running: true,
            events: Vec::new(),
            requests: Vec::new(),
            draw_data: Vec::new(),
            new_draw_data: true,
        };
        proof {
            assert(r@ =~= initial_state());
        }
        r
    }

    /// Whether shutdown has not been requested yet.
    pub fn running(&self) -> (r: bool)
        ensures
            r == self@.running,
    {
        self.running
    }

    /// Request shutdown. Idempotent, and terminal: no operation on the
    /// mailbox sets the flag true again.
    pub fn stop(&mut self)
        ensures
            final(self)@ == stopped(old(self)@),
    {
        self.running = false;
        proof {
            assert(final(self)@ =~= stopped(old(self)@));
        }
    }

    /// Append one input event; pushed by the presentation side.
    pub fn push_event(&mut self, event: EventData)
        ensures
            final(self)@ == event_pushed(old(self)@, event),
    {
        self.events.push(event);
        proof {
            assert(final(self)@ =~= event_pushed(old(self)@, event));
        }
    }

    /// Take all queued input events, in FIFO order, leaving the queue
    /// empty; drained by the simulation side once per tick.
    pub fn take_events(&mut self) -> (r: Vec<EventData>)
        ensures
            r@ == old(self)@.events,
            final(self)@ == events_drained(old(self)@),
    {
        let mut taken: Vec<EventData> = Vec::new();
        core::mem::swap(&mut self.events, &mut taken);
        proof {
            assert(final(self)@ =~= events_drained(old(self)@));
        }
        taken
    }

    /// Append a batch of outbound requests, emptying the given vector;
    /// pushed by the simulation side at the end of a tick.
    pub fn push_requests(&mut self, requests: &mut Vec<GameRequest>)
        ensures
            final(self)@ == requests_pushed(old(self)@, old(requests)@),
            final(requests)@ == Seq::<GameRequest>::empty(),
    {
        self.requests.append(requests);
        proof {
            assert(final(self)@ =~= requests_pushed(old(self)@, old(requests)@));
            assert(final(requests)@ =~= Seq::<GameRequest>::empty());
        }
    }

    /// Take all queued outbound requests, leaving the queue empty;
    /// drained by the presentation side once per frame.
    pub fn take_requests(&mut self) -> (r: Vec<GameRequest>)
        ensures
            r@ == old(self)@.requests,
            final(self)@ == requests_drained(old(self)@),
    {
        let mut taken: Vec<GameRequest> = Vec::new();
        core::mem::swap(&mut self.requests, &mut taken);
        proof {
            assert(final(self)@ =~= requests_drained(old(self)@));
        }
        taken
    }

    /// Publish a full frame of draw commands, replacing the previous
    /// batch wholesale and marking it fresh.
    pub fn set_draw_data(&mut self, draw_data: Vec<DrawData>)
        ensures
            final(self)@ == draw_data_published(old(self)@, draw_data@),
    {
        self.draw_data = draw_data;
        self.new_draw_data = true;
        proof {
            assert(final(self)@ =~= draw_data_published(old(self)@, draw_data@));
        }
    }

    /// Take the latest draw batch if a fresh one is available, clearing
    /// the freshness flag so the same batch is delivered at most once;
    /// the presentation side skips the redraw when `None` comes back.
    pub fn lock_draw_data(&mut self) -> (r: Option<Vec<DrawData>>)
        ensures
            final(self)@ == draw_data_taken(old(self)@),
            r is Some <==> old(self)@.new_draw_data,
            r is Some ==> (r->0)@ == old(self)@.draw_data,
    {
        if self.new_draw_data {
            self.new_draw_data = false;
            let mut taken: Vec<DrawData> = Vec::new();
            core::mem::swap(&mut self.draw_data, &mut taken);
            proof {
                assert(final(self)@ =~= draw_data_taken(old(self)@));
            }
            Some(taken)
        } else {
            proof {
                assert(final(self)@ =~= draw_data_taken(old(self)@));
            }
            None
        }
    }
}

/// Draining the event queue is destructive: a drain empties the queue,
/// so a second drain with no intervening push yields the empty sequence
/// and leaves the mailbox as it was.
pub proof fn lemma_event_drain_destructive(s: SharedStateView)
    ensures
        events_drained(s).events =~= Seq::<EventData>::empty(),
        events_drained(events_drained(s)) == events_drained(s),
{
}

/// Draining the request queue is destructive in the same way.
pub proof fn lemma_request_drain_destructive(s: SharedStateView)
    ensures
        requests_drained(s).requests =~= Seq::<GameRequest>::empty(),
        requests_drained(requests_drained(s)) == requests_drained(s),
{
}

/// Publishing is last-writer-wins: publishing batch `b1` and then `b2`
/// before any drain leaves exactly `b2` available, marked fresh, so a
/// subsequent drain observes `b2` alone — never `b1`, never a merge.
pub proof fn lemma_publish_overwrites(s: SharedStateView, b1: Seq<DrawData>, b2: Seq<DrawData>)
    ensures
        draw_data_published(draw_data_published(s, b1), b2).draw_data == b2,
        draw_data_published(draw_data_published(s, b1), b2).new_draw_data,
{
}

/// A stopped mailbox stays stopped: no transition sets the running flag
/// true again.
pub proof fn lemma_stop_terminal(
    s: SharedStateView,
    event: EventData,
    requests: Seq<GameRequest>,
    batch: Seq<DrawData>,
)
    requires
        !s.running,
    ensures
        !stopped(s).running,
        !event_pushed(s, event).running,
        !events_drained(s).running,
        !requests_pushed(s, requests).running,
        !requests_drained(s).running,
        !draw_data_published(s, batch).running,
        !draw_data_taken(s).running,
{
}

} // verus!
