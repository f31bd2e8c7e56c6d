use vstd::prelude::*;
use crate::overrides::views;
use crate::track::ShuffleError;

verus! {

/// Tracks pushed to the remote queue per refill.
pub const BATCH_SIZE: usize = 5;

/// Size of the trailing window of the last batch that playback is compared
/// against.
pub const REQUEUE_DEPTH: usize = 3;

/// Milliseconds between two polls of the current playback.
pub const POLL_INTERVAL_MS: u64 = 3000;

/// Whether the controller is pushing a batch or watching playback.
#[derive(Debug, PartialEq, Eq, Structural, Clone, Copy)]
pub enum Phase {
    Filling,
    Watching,
}

/// What the caller is to do next.
#[derive(Debug, PartialEq, Eq, Structural, Clone, Copy)]
pub enum Action {
    /// Sample one track, push it to the remote queue and report it.
    Push,
    /// Poll the current playback now and report it.
    Poll,
    /// Wait this many milliseconds, then poll the current playback.
    Wait { millis: u64 },
}

/// What the caller reports back.
pub enum Event {
    /// The track with this identity was pushed to the remote queue.
    Pushed(String),
    /// The current playback: the identity of the playing track, if any.
    Polled(Option<String>),
}

/// Keeps a lookahead of pushed tracks on the remote queue: a batch is pushed,
/// then playback is watched, and once the playing track is among the last
/// `requeue_depth` tracks of the batch, a fresh batch is pushed.
pub struct QueueRefillController {
    batch_size: usize,
    requeue_depth: usize,
    poll_interval_ms: u64,
    buffer: Vec<String>,
    phase: Phase,
}

/// Whether `id` is among the last `depth` entries of `buffer`.
pub open spec fn in_window(buffer: Seq<Seq<char>>, depth: nat, id: Seq<char>) -> bool {
    exists|k: int| buffer.len() - depth <= k < buffer.len() && 0 <= k && #[trigger] buffer[k] == id
}

impl QueueRefillController {
    /// The identities pushed in the current batch, in push order.
    pub closed spec fn spec_buffer(&self) -> Seq<Seq<char>> {
        views(self.buffer@)
    }

    pub closed spec fn spec_batch_size(&self) -> nat {
        self.batch_size as nat
    }

    pub closed spec fn spec_requeue_depth(&self) -> nat {
        self.requeue_depth as nat
    }

    pub closed spec fn spec_poll_interval(&self) -> u64 {
        self.poll_interval_ms
    }

    pub closed spec fn spec_phase(&self) -> Phase {
        self.phase
    }

    /// The window lies within a batch; a batch is partial while filling and
    /// whole while watching.
    pub open spec fn wf(&self) -> bool {
        &&& 0 < self.spec_requeue_depth() <= self.spec_batch_size()
        &&& self.spec_phase() == Phase::Filling ==> self.spec_buffer().len()
            < self.spec_batch_size()
        &&& self.spec_phase() == Phase::Watching ==> self.spec_buffer().len()
            == self.spec_batch_size()
    }

    /// A controller about to fill its first batch; its first action is
    /// `Action::Push`.
    pub fn new(batch_size: usize, requeue_depth: usize, poll_interval_ms: u64) -> (r: Self)
        requires
            0 < requeue_depth <= batch_size,
        ensures
            r.wf(),
            r.spec_batch_size() == batch_size,
            r.spec_requeue_depth() == requeue_depth,
            r.spec_poll_interval() == poll_interval_ms,
            r.spec_phase() == Phase::Filling,
            r.spec_buffer().len() == 0,
    {
        let r = QueueRefillController {
            batch_size,
            requeue_depth,
            poll_interval_ms,
            buffer: Vec::new(),
            phase: Phase::Filling,
        };
        assert(r.spec_buffer() =~= Seq::<Seq<char>>::empty());
        r
    }

    /// The controller with a batch of `BATCH_SIZE`, a window of
    /// `REQUEUE_DEPTH` and a poll every `POLL_INTERVAL_MS`.
    pub fn with_defaults() -> (r: Self)
        ensures
            r.wf(),
            r.spec_batch_size() == BATCH_SIZE,
            r.spec_requeue_depth() == REQUEUE_DEPTH,
            r.spec_poll_interval() == POLL_INTERVAL_MS,
            r.spec_phase() == Phase::Filling,
            r.spec_buffer().len() == 0,
    {
        Self::new(BATCH_SIZE, REQUEUE_DEPTH, POLL_INTERVAL_MS)
    }

    pub fn phase(&self) -> (r: Phase)
        ensures
            r == self.spec_phase(),
    {
        self.phase
    }

    /// Whether the playing track `id` is among the last `requeue_depth`
    /// tracks of the current batch.
    pub fn window_contains(&self, id: &String) -> (r: bool)
        requires
            self.wf(),
        ensures
            r == in_window(self.spec_buffer(), self.spec_requeue_depth(), id@),
    {
        let n = self.buffer.len();
        let start: usize = if n >= self.requeue_depth {
            n - self.requeue_depth
        } else {
            0
        };
        let mut k: usize = start;
        while k < n
            invariant
                start <= k <= n,
                n == self.buffer@.len(),
                start as int == if n >= self.requeue_depth {
                    n - self.requeue_depth
                } else {
                    0
                },
                forall|m: int| start <= m < k ==> (#[trigger] self.buffer@[m])@ != id@,
            decreases n - k,
        {
            if self.buffer[k] == *id {
                assert(self.spec_buffer()[k as int] == id@);
                return true;
            }
            k = k + 1;
        }
        assert forall|m: int|
            self.spec_buffer().len() - self.spec_requeue_depth() <= m < self.spec_buffer().len()
                && 0 <= m implies #[trigger] self.spec_buffer()[m] != id@ by {
            assert(self.spec_buffer()[m] == self.buffer@[m]@);
        }
        false
    }

    /// Takes the caller's report and decides what comes next.
    ///
    /// While filling, a pushed track is recorded at the end of the batch;
    /// once the batch is whole, playback is polled. While watching, a
    /// playing track among the last `requeue_depth` of the batch clears it
    /// and starts a fresh batch; any other playing track leaves the state as
    /// it is and waits for the next poll; nothing playing is a failure, with
    /// the state left as it is.
    pub fn step(&mut self, event: Event) -> (r: Result<Action, ShuffleError>)
        requires
            old(self).wf(),
            (event is Pushed) <==> old(self).spec_phase() == Phase::Filling,
        ensures
            final(self).wf(),
            final(self).spec_batch_size() == old(self).spec_batch_size(),
            final(self).spec_requeue_depth() == old(self).spec_requeue_depth(),
            final(self).spec_poll_interval() == old(self).spec_poll_interval(),
            match event {
                Event::Pushed(id) => {
                    let b = old(self).spec_buffer().push(id@);
                    &&& final(self).spec_buffer() == b
                    &&& if b.len() == old(self).spec_batch_size() {
                        final(self).spec_phase() == Phase::Watching && r == Ok::<
                            Action,
                            ShuffleError,
                        >(Action::Poll)
                    } else {
                        final(self).spec_phase() == Phase::Filling && r == Ok::<
                            Action,
                            ShuffleError,
                        >(Action::Push)
                    }
                },
                Event::Polled(None) => {
                    &&& r == Err::<Action, ShuffleError>(ShuffleError::PlaybackState)
                    &&& final(self).spec_buffer() == old(self).spec_buffer()
                    &&& final(self).spec_phase() == old(self).spec_phase()
                },
                Event::Polled(Some(id)) => if in_window(
                    old(self).spec_buffer(),
                    old(self).spec_requeue_depth(),
                    id@,
                ) {
                    &&& r == Ok::<Action, ShuffleError>(Action::Push)
                    &&& final(self).spec_buffer().len() == 0
                    &&& final(self).spec_phase() == Phase::Filling
                } else {
                    &&& r == Ok::<Action, ShuffleError>(
                        Action::Wait { millis: old(self).spec_poll_interval() },
                    )
                    &&& final(self).spec_buffer() == old(self).spec_buffer()
                    &&& final(self).spec_phase() == old(self).spec_phase()
                },
            },
    {
        match event {
            Event::Pushed(id) => {
                let ghost before = views(self.buffer@);
                self.buffer.push(id);
                assert(views(self.buffer@) =~= before.push(id@));
                if self.buffer.len() == self.batch_size {
                    self.phase = Phase::Watching;
                    Ok(Action::Poll)
                } else {
                    Ok(Action::Push)
                }
            },
            Event::Polled(None) => Err(ShuffleError::PlaybackState),
            Event::Polled(Some(id)) => {
                if self.window_contains(&id) {
                    self.buffer = Vec::new();
                    self.phase = Phase::Filling;
                    assert(views(self.buffer@) =~= Seq::<Seq<char>>::empty());
                    Ok(Action::Push)
                } else {
                    Ok(Action::Wait { millis: self.poll_interval_ms })
                }
            },
        }
    }
}

} // verus!
