//! The bookkeeping of the one place the runner waits: which ops are in
//! flight, what their completions said, and who may take their buffers.
//!
//! An op is submitted and gets a [`Token`], never reused within a run;
//! its completion records a result; [`Ops::finish`] hands its payload back
//! once, after that completion. The io_uring itself, and the kernel
//! structures an op holds, live with the program around this library.
use vstd::prelude::*;
use std::collections::HashMap;

verus! {

broadcast use vstd::std_specs::hash::group_hash_axioms;

/// The name of one submitted op. Never reused within a run.
#[derive(Debug, Clone, Copy, PartialEq, Eq, Hash, Structural)]
pub struct Token(pub u64);

impl Token {
    /// A token by number, for a test that wants one the ring never issued.
    pub fn from_raw(raw: u64) -> (t: Token)
        ensures
            t == Token(raw),
    {
        Token(raw)
    }
}

/// One completion. `result` is the raw io_uring result: bytes moved, or
/// a negative errno.
#[derive(Debug, Clone, Copy, PartialEq, Eq, Structural)]
pub struct IoEvent {
    pub token: Token,
    pub result: i32,
}

/// The last chance to submit before the runner blocks.
#[derive(Debug, Clone, Copy)]
pub struct BeforeWait;

/// End the loop after this turn.
#[derive(Debug, Clone, Copy)]
pub struct Stop;

/// The ring's settings.
pub struct RingModule {
    /// Submission slots. 64 by default.
    pub entries: u32,
}

impl RingModule {
    pub fn new() -> (m: RingModule)
        ensures
            m.entries == 64,
    {
        RingModule { entries: 64 }
    }
}

impl Default for RingModule {
    fn default() -> (m: RingModule)
        ensures
            m.entries == 64,
    {
        RingModule::new()
    }
}

/// One op in flight: its payload (buffers and the kernel's view of them)
/// and its result once completed.
pub struct Slot<T> {
    pub payload: T,
    pub result: Option<i32>,
}

/// Every op in flight, by token, and the next token to issue.
pub struct Ops<T> {
    ops: HashMap<u64, Slot<T>>,
    next: u64,
    stopped: bool,
}

impl<T> Ops<T> {
    /// The ops in flight: each token's payload and result.
    pub closed spec fn in_flight(self) -> Map<u64, (T, Option<i32>)> {
        Map::new(
            |k: u64| self.ops@.contains_key(k),
            |k: u64| (self.ops@[k].payload, self.ops@[k].result),
        )
    }

    /// The token the next submission gets.
    pub closed spec fn next(self) -> u64 {
        self.next
    }

    pub closed spec fn stopped(self) -> bool {
        self.stopped
    }

    /// Every token in flight was issued before `next`, and `next` is past
    /// zero, which no op ever gets.
    pub closed spec fn wf(self) -> bool {
        &&& self.next >= 1
        &&& forall|k: u64| #[trigger] self.ops@.contains_key(k) ==> 1 <= k < self.next
    }

    pub fn new() -> (r: Self)
        ensures
            r.wf(),
            r.in_flight() == Map::<u64, (T, Option<i32>)>::empty(),
            r.next() == 1,
            !r.stopped(),
    {
        let r = Ops { ops: HashMap::new(), next: 1, stopped: false };
        assert(r.in_flight() =~= Map::<u64, (T, Option<i32>)>::empty());
        r
    }

    /// Take `payload` in flight under a fresh token.
    pub fn submit(&mut self, payload: T) -> (t: Token)
        requires
            old(self).wf(),
            old(self).next() < u64::MAX,
        ensures
            final(self).wf(),
            t.0 == old(self).next(),
            final(self).next() == old(self).next() + 1,
            !old(self).in_flight().contains_key(t.0),
            final(self).in_flight() == old(self).in_flight().insert(t.0, (payload, None)),
            final(self).stopped() == old(self).stopped(),
    {
        let token = self.next;
        self.next = self.next + 1;
        self.ops.insert(token, Slot { payload, result: None });
        assert(final(self).in_flight() =~= old(self).in_flight().insert(token, (payload, None)));
        Token(token)
    }

    /// Record a completion: an op of this table gets its result; any other
    /// token is left alone.
    pub fn complete(&mut self, e: IoEvent)
        requires
            old(self).wf(),
        ensures
            final(self).wf(),
            final(self).next() == old(self).next(),
            final(self).stopped() == old(self).stopped(),
            final(self).in_flight() == if old(self).in_flight().contains_key(e.token.0) {
                old(self).in_flight().insert(
                    e.token.0,
                    (old(self).in_flight()[e.token.0].0, Some(e.result)),
                )
            } else {
                old(self).in_flight()
            },
    {
        match self.ops.remove(&e.token.0) {
            Some(slot) => {
                self.ops.insert(e.token.0, Slot { payload: slot.payload, result: Some(e.result) });
                assert(final(self).in_flight() =~= old(self).in_flight().insert(
                    e.token.0,
                    (old(self).in_flight()[e.token.0].0, Some(e.result)),
                ));
            },
            None => {
                assert(final(self).in_flight() =~= old(self).in_flight());
            },
        }
    }

    /// Take the op's payload and result after its completion. `None` if
    /// the token is not an op of this table, was finished already, or has
    /// not completed.
    pub fn finish(&mut self, token: Token) -> (r: Option<(T, i32)>)
        requires
            old(self).wf(),
        ensures
            final(self).wf(),
            final(self).next() == old(self).next(),
            final(self).stopped() == old(self).stopped(),
            match r {
                Some((payload, result)) => {
                    &&& old(self).in_flight().contains_key(token.0)
                    &&& old(self).in_flight()[token.0] == (payload, Some(result))
                    &&& final(self).in_flight() == old(self).in_flight().remove(token.0)
                },
                None => {
                    &&& !(old(self).in_flight().contains_key(token.0) && old(
                        self,
                    ).in_flight()[token.0].1 is Some)
                    &&& final(self).in_flight() == old(self).in_flight()
                },
            },
    {
        match self.ops.remove(&token.0) {
            Some(slot) => match slot.result {
                Some(result) => {
                    assert(final(self).in_flight() =~= old(self).in_flight().remove(token.0));
                    Some((slot.payload, result))
                },
                None => {
                    self.ops.insert(token.0, slot);
                    assert(final(self).in_flight() =~= old(self).in_flight());
                    None
                },
            },
            None => {
                assert(final(self).in_flight() =~= old(self).in_flight());
                None
            },
        }
    }

    /// Record every completion a wait found, in completion order, and
    /// give one [`IoEvent`] for each, in that order: `(token, result)` as
    /// the ring's completion queue reports them.
    pub fn complete_all(&mut self, completions: &[(u64, i32)]) -> (events: Vec<IoEvent>)
        requires
            old(self).wf(),
        ensures
            final(self).wf(),
            final(self).next() == old(self).next(),
            final(self).stopped() == old(self).stopped(),
            events@ == completions@.map_values(|c: (u64, i32)| IoEvent { token: Token(c.0), result: c.1 }),
            final(self).in_flight() == completed(old(self).in_flight(), events@),
    {
        let mut events: Vec<IoEvent> = Vec::new();
        let mut i: usize = 0;
        while i < completions.len()
            invariant
                i <= completions@.len(),
                self.wf(),
                self.next() == old(self).next(),
                self.stopped() == old(self).stopped(),
                events@ == completions@.take(i as int).map_values(
                    |c: (u64, i32)| IoEvent { token: Token(c.0), result: c.1 },
                ),
                self.in_flight() == completed(old(self).in_flight(), events@),
            decreases completions@.len() - i,
        {
            let (token, result) = completions[i];
            let e = IoEvent { token: Token(token), result };
            let ghost before = events@;
            self.complete(e);
            events.push(e);
            proof {
                assert(events@.drop_last() =~= before);
                assert(completions@.take(i + 1).map_values(
                    |c: (u64, i32)| IoEvent { token: Token(c.0), result: c.1 },
                ) =~= before.push(e));
            }
            i = i + 1;
        }
        assert(completions@.take(completions@.len() as int) =~= completions@);
        events
    }

    /// Whether `token` names an op in flight with no completion yet.
    pub fn is_pending(&self, token: Token) -> (b: bool)
        ensures
            b == (self.in_flight().contains_key(token.0) && self.in_flight()[token.0].1 is None),
    {
        match self.ops.get(&token.0) {
            Some(slot) => slot.result.is_none(),
            None => false,
        }
    }

    /// The token the next submission gets: every token issued is below it.
    pub fn next_token(&self) -> (t: Token)
        ensures
            t.0 == self.next(),
    {
        Token(self.next)
    }

    /// Whether a [`Stop`] was seen.
    pub fn is_stopped(&self) -> (r: bool)
        ensures
            r == self.stopped(),
    {
        self.stopped
    }

    /// A [`Stop`] signal: end the loop after this turn.
    pub fn on_stop(&mut self, _stop: &Stop)
        ensures
            final(self).stopped(),
            final(self).next() == old(self).next(),
            final(self).in_flight() == old(self).in_flight(),
            old(self).wf() ==> final(self).wf(),
    {
        self.stopped = true;
    }
}

/// The ops in flight after each of `events` is recorded, in order: an op
/// of the table gets its result, any other token is left alone.
pub open spec fn completed<T>(
    in_flight: Map<u64, (T, Option<i32>)>,
    events: Seq<IoEvent>,
) -> Map<u64, (T, Option<i32>)>
    decreases events.len(),
{
    if events.len() == 0 {
        in_flight
    } else {
        let m = completed(in_flight, events.drop_last());
        let e = events.last();
        if m.contains_key(e.token.0) {
            m.insert(e.token.0, (m[e.token.0].0, Some(e.result)))
        } else {
            m
        }
    }
}

/// Recording completions adds and drops no op, keeps every payload, and
/// leaves each op with the result of the last completion reported for
/// its token, or as it was when none was.
pub proof fn law_each_op_keeps_its_last_result<T>(
    in_flight: Map<u64, (T, Option<i32>)>,
    events: Seq<IoEvent>,
    t: u64,
)
    ensures
        completed(in_flight, events).dom() == in_flight.dom(),
        in_flight.contains_key(t) ==> completed(in_flight, events)[t].0 == in_flight[t].0,
        in_flight.contains_key(t) && (forall|k: int| 0 <= k < events.len() ==> (#[trigger] events[k]).token.0 != t)
            ==> completed(in_flight, events)[t] == in_flight[t],
        forall|k: int|
            0 <= k < events.len() && (#[trigger] events[k]).token.0 == t && in_flight.contains_key(t) && (
            forall|j: int| k < j < events.len() ==> (#[trigger] events[j]).token.0 != t) ==> completed(
                in_flight,
                events,
            )[t].1 == Some(events[k].result),
    decreases events.len(),
{
    if events.len() > 0 {
        let front = events.drop_last();
        law_each_op_keeps_its_last_result(in_flight, front, t);
        let m = completed(in_flight, front);
        let e = events.last();
        assert(completed(in_flight, events).dom() =~= in_flight.dom());
        assert forall|k: int|
            0 <= k < events.len() && (#[trigger] events[k]).token.0 == t && in_flight.contains_key(t) && (
            forall|j: int| k < j < events.len() ==> (#[trigger] events[j]).token.0 != t) implies completed(
                in_flight,
                events,
            )[t].1 == Some(events[k].result) by {
            if k < events.len() - 1 {
                assert(events[events.len() - 1].token.0 != t);
                assert(front[k] == events[k]);
                assert forall|j: int| k < j < front.len() implies (#[trigger] front[j]).token.0 != t by {
                    assert(front[j] == events[j]);
                }
            }
        }
        if forall|k: int| 0 <= k < events.len() ==> (#[trigger] events[k]).token.0 != t {
            assert forall|k: int| 0 <= k < front.len() implies (#[trigger] front[k]).token.0 != t by {
                assert(front[k] == events[k]);
            }
            assert(events[events.len() - 1].token.0 != t);
        }
    }
}

/// The next token is never one in flight: a submission never takes a
/// token an op still holds.
pub proof fn law_the_next_token_is_fresh<T>(ops: Ops<T>)
    requires
        ops.wf(),
    ensures
        !ops.in_flight().contains_key(ops.next()),
{
}

/// A token once finished is never finished again: after a successful
/// finish the token is no longer in flight, so a second finish of it
/// answers `None` until a submission reuses it, which none does.
pub proof fn lemma_finish_is_once<T>(before: Ops<T>, after: Ops<T>, token: Token, payload: T, result: i32)
    requires
        before.wf(),
        before.in_flight().contains_key(token.0),
        before.in_flight()[token.0] == (payload, Some(result)),
        after.in_flight() == before.in_flight().remove(token.0),
        after.next() == before.next(),
    ensures
        !after.in_flight().contains_key(token.0),
        token.0 < after.next(),
{
    assert(before.ops@.contains_key(token.0));
}

} // verus!
