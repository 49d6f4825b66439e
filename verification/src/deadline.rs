//! Deadlines in the order in which they fall due, and the numbers that name the sources of
//! events.

use vstd::prelude::*;

use crate::model::ServiceId;
use crate::runtime::TimerKind;

verus! {

/// What is done when a deadline falls due.
#[derive(Debug, PartialEq, Eq)]
pub enum DeadlineAction {
    Action(u64),
    Rescue,
    Runtime { service: ServiceId, generation: u64, kind: TimerKind },
    Client { token: u64, request_id: u64 },
}

/// What a [`DeadlineAction`] is about.
#[verifier::ext_equal]
pub enum ActionModel {
    Action(u64),
    Rescue,
    Runtime { service: Seq<char>, generation: u64, kind: TimerKind },
    Client { token: u64, request_id: u64 },
}

impl View for DeadlineAction {
    type V = ActionModel;

    open spec fn view(&self) -> ActionModel {
        match *self {
            DeadlineAction::Action(id) => ActionModel::Action(id),
            DeadlineAction::Rescue => ActionModel::Rescue,
            DeadlineAction::Runtime { service, generation, kind } => ActionModel::Runtime {
                service: service@,
                generation,
                kind,
            },
            DeadlineAction::Client { token, request_id } => ActionModel::Client {
                token,
                request_id,
            },
        }
    }
}

#[derive(Debug)]
struct Deadline {
    when_ms: u64,
    sequence: u64,
    action: DeadlineAction,
}

/// A deadline: when it falls due, its turn among those of the same time, and what is done.
#[verifier::ext_equal]
pub struct DeadlineModel {
    pub when_ms: u64,
    pub sequence: u64,
    pub action: ActionModel,
}

/// The deadlines that lie ahead.
#[derive(Debug)]
pub struct DeadlineQueue {
    entries: Vec<Deadline>,
    next_sequence: u64,
}

/// What a [`DeadlineQueue`] holds, the next one to fall due first.
#[verifier::ext_equal]
pub struct QueueModel {
    pub entries: Seq<DeadlineModel>,
    pub next_sequence: u64,
}

spec fn deadline_models(list: Seq<Deadline>) -> Seq<DeadlineModel> {
    Seq::new(
        list.len(),
        |i: int|
            DeadlineModel {
                when_ms: list[i].when_ms,
                sequence: list[i].sequence,
                action: list[i].action@,
            },
    )
}

impl View for DeadlineQueue {
    type V = QueueModel;

    closed spec fn view(&self) -> QueueModel {
        QueueModel {
            entries: deadline_models(self.entries@),
            next_sequence: self.next_sequence,
        }
    }
}

/// Whether a deadline falls due no later than another.
pub open spec fn no_later(a: DeadlineModel, b: DeadlineModel) -> bool {
    a.when_ms < b.when_ms || (a.when_ms == b.when_ms && a.sequence <= b.sequence)
}

/// Whether deadlines are in the order in which they fall due.
pub open spec fn in_order(entries: Seq<DeadlineModel>) -> bool {
    forall|i: int, j: int| 0 <= i < j < entries.len() ==> no_later(entries[i], entries[j])
}

/// The number after another; the first one follows the last.
pub open spec fn next_number(n: u64) -> u64 {
    if n == u64::MAX {
        0
    } else {
        (n + 1) as u64
    }
}

impl DeadlineQueue {
    /// A queue without deadlines.
    pub fn new() -> (r: DeadlineQueue)
        ensures
            r@.entries.len() == 0,
            r@.next_sequence == 0,
            in_order(r@.entries),
    {
        DeadlineQueue { entries: Vec::new(), next_sequence: 0 }
    }

    /// Adds a deadline. Of two that fall due at the same time the one that was added
    /// first comes first.
    pub fn push(&mut self, when_ms: u64, action: DeadlineAction)
        requires
            in_order(old(self)@.entries),
        ensures
            in_order(final(self)@.entries),
            final(self)@.next_sequence == next_number(old(self)@.next_sequence),
            exists|p: int|
                0 <= p <= old(self)@.entries.len() && final(self)@.entries
                    == #[trigger] old(self)@.entries.insert(
                    p,
                    DeadlineModel {
                        when_ms,
                        sequence: old(self)@.next_sequence,
                        action: action@,
                    },
                ),
    {
        let ghost before = self@.entries;
        let sequence = self.next_sequence;
        let ghost added = DeadlineModel { when_ms, sequence, action: action@ };
        let mut p: usize = 0;
        while p < self.entries.len() && (self.entries[p].when_ms < when_ms
            || (self.entries[p].when_ms == when_ms && self.entries[p].sequence <= sequence))
            invariant
                before == deadline_models(self.entries@),
                in_order(before),
                p <= self.entries@.len(),
                added.when_ms == when_ms,
                added.sequence == sequence,
                forall|k: int| 0 <= k < p ==> no_later(#[trigger] before[k], added),
            decreases self.entries@.len() - p,
        {
            proof {
                assert(before[p as int].when_ms == self.entries@[p as int].when_ms);
                assert(before[p as int].sequence == self.entries@[p as int].sequence);
            }
            p = p + 1;
        }
        let ghost list = self.entries@;
        self.entries.insert(p, Deadline { when_ms, sequence, action });
        self.next_sequence = if self.next_sequence == u64::MAX {
            0
        } else {
            self.next_sequence + 1
        };
        proof {
            let after = self@.entries;
            assert(after =~= before.insert(p as int, added));
            if p < before.len() {
                assert(before[p as int].when_ms == list[p as int].when_ms);
                assert(before[p as int].sequence == list[p as int].sequence);
            }
            assert forall|i: int, j: int| 0 <= i < j < after.len() implies no_later(
                after[i],
                after[j],
            ) by {
                if i < p && j > p {
                    assert(no_later(before[i], before[j - 1]));
                } else if i > p {
                    assert(no_later(before[i - 1], before[j - 1]));
                } else if j < p {
                    assert(no_later(before[i], before[j]));
                } else if i < p && j == p {
                    assert(no_later(before[i], added));
                } else {
                    if j - 1 > p {
                        assert(no_later(before[p as int], before[j - 1]));
                    }
                    assert(!no_later(before[p as int], added));
                }
            }
        }
    }

    /// When the next deadline falls due.
    pub fn next_ms(&self) -> (r: Option<u64>)
        ensures
            r == (if self@.entries.len() == 0 {
                None::<u64>
            } else {
                Some(self@.entries[0].when_ms)
            }),
    {
        if self.entries.len() == 0 {
            None
        } else {
            Some(self.entries[0].when_ms)
        }
    }

    /// Takes the next deadline out, where it has fallen due.
    pub fn pop_due(&mut self, now_ms: u64) -> (r: Option<DeadlineAction>)
        requires
            in_order(old(self)@.entries),
        ensures
            in_order(final(self)@.entries),
            final(self)@.next_sequence == old(self)@.next_sequence,
            match r {
                Some(action) => {
                    &&& old(self)@.entries.len() > 0
                    &&& old(self)@.entries[0].when_ms <= now_ms
                    &&& action@ == old(self)@.entries[0].action
                    &&& final(self)@.entries == old(self)@.entries.drop_first()
                },
                None => {
                    &&& old(self)@.entries.len() == 0 || old(self)@.entries[0].when_ms > now_ms
                    &&& final(self)@.entries == old(self)@.entries
                },
            },
    {
        if self.entries.len() == 0 || self.entries[0].when_ms > now_ms {
            return None;
        }
        let ghost before = self@.entries;
        let deadline = self.entries.remove(0);
        proof {
            let after = self@.entries;
            assert(after =~= before.drop_first());
            assert forall|i: int, j: int| 0 <= i < j < after.len() implies no_later(
                after[i],
                after[j],
            ) by {
                assert(no_later(before[i + 1], before[j + 1]));
            }
        }
        Some(deadline.action)
    }
}

/// Nothing that falls due is passed over: where the next deadline is not due, none is.
pub proof fn due_law(entries: Seq<DeadlineModel>, now_ms: u64, i: int)
    requires
        in_order(entries),
        0 <= i < entries.len(),
        entries[0].when_ms > now_ms,
    ensures
        entries[i].when_ms > now_ms,
{
    if i > 0 {
        assert(no_later(entries[0], entries[i]));
    }
}

/// The source of control connections.
pub const LISTENER_TOKEN: u64 = 1;

/// The source of signals.
pub const SIGNAL_TOKEN: u64 = 2;

/// The source of deadlines.
pub const TIMER_TOKEN: u64 = 3;

/// The first number that is handed out.
pub const FIRST_DYNAMIC_TOKEN: u64 = 16;

/// Hands out numbers for the sources of events.
#[derive(Debug)]
pub struct TokenAllocator {
    next: u64,
}

/// The token after another; the first one that is handed out follows the last.
pub open spec fn next_token(token: u64) -> u64 {
    if token == u64::MAX {
        FIRST_DYNAMIC_TOKEN
    } else {
        (token + 1) as u64
    }
}

impl TokenAllocator {
    /// The number that is handed out next.
    pub closed spec fn upcoming(self) -> u64 {
        self.next
    }

    #[verifier::type_invariant]
    spec fn well_formed(self) -> bool {
        self.next >= FIRST_DYNAMIC_TOKEN
    }

    /// An allocator that has handed out nothing.
    pub fn new() -> (r: TokenAllocator)
        ensures
            r.upcoming() == FIRST_DYNAMIC_TOKEN,
    {
        TokenAllocator { next: FIRST_DYNAMIC_TOKEN }
    }

    /// The next number. None is one of the fixed sources.
    pub fn allocate(&mut self) -> (r: u64)
        ensures
            r == old(self).upcoming(),
            r >= FIRST_DYNAMIC_TOKEN,
            final(self).upcoming() == next_token(r),
    {
        proof {
            use_type_invariant(&*self);
        }
        let token = self.next;
        self.next = if token == u64::MAX {
            FIRST_DYNAMIC_TOKEN
        } else {
            token + 1
        };
        token
    }
}

/// Which of two deadlines comes first: the earlier one, and of two at the same time the one
/// with the lower number.
pub proof fn order_law(a: DeadlineModel, b: DeadlineModel)
    ensures
        a.when_ms < b.when_ms ==> no_later(a, b) && !no_later(b, a),
        a.when_ms == b.when_ms && a.sequence < b.sequence ==> no_later(a, b) && !no_later(b, a),
        no_later(a, b) || no_later(b, a),
{
}

/// The numbers that are handed out one after the other differ, and none of those of sources is
/// one of a fixed source.
pub proof fn number_law(n: u64)
    ensures
        next_number(n) != n,
        n < u64::MAX ==> next_number(n) == n + 1,
        n >= 16 ==> next_token(n) != n && next_token(n) >= 16,
        n < u64::MAX ==> next_token(n) == n + 1,
        next_token(u64::MAX) == 16,
        FIRST_DYNAMIC_TOKEN == 16,
        LISTENER_TOKEN < 16 && SIGNAL_TOKEN < 16 && TIMER_TOKEN < 16,
        LISTENER_TOKEN != SIGNAL_TOKEN && SIGNAL_TOKEN != TIMER_TOKEN && LISTENER_TOKEN
            != TIMER_TOKEN,
{
}

} // verus!
