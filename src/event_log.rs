//! A bounded log of human-readable happenings, and the events that feed it.

use std::collections::VecDeque;
use vstd::prelude::*;
use vstd::string::*;

use crate::world::{Entity, World, WorldView};

verus! {

/// The number of entries the log keeps; older ones are dropped.
pub const LOG_CAPACITY: usize = 1000;

/// The decimal digits of a natural number.
pub open spec fn digits(n: nat) -> Seq<char>
    decreases n,
{
    let d = (('0' as int) + n % 10) as char;
    if n < 10 {
        seq![d]
    } else {
        digits(n / 10).push(d)
    }
}

/// The decimal text of an integer, with a leading '-' when negative.
pub open spec fn decimal_text(n: int) -> Seq<char> {
    if n < 0 {
        seq!['-'] + digits((-n) as nat)
    } else {
        digits(n as nat)
    }
}

/// Relies on `i32`'s `ToString` (through `Display`): the number in decimal, with a
/// leading '-' when negative and no padding.
#[verifier::external_body]
fn decimal(n: i32) -> (r: String)
    ensures
        r@ == decimal_text(n as int),
{
    n.to_string()
}

/// Something that happened that should be shown in the game's log.
#[derive(Clone, Debug)]
pub enum Event {
    Damage { from: Entity, to: Entity, amount: i32 },
    Death { who: Entity },
    Other(String),
}

/// How an entity is called in the log.
pub open spec fn label(w: WorldView, e: Entity) -> Seq<char> {
    match w.name_of(e) {
        Some(n) => n,
        None => "an unnamed bug"@,
    }
}

/// The log line of a damage event.
pub open spec fn damage_text(w: WorldView, from: Entity, to: Entity, amount: int) -> Seq<char> {
    label(w, from) + " hits "@ + label(w, to) + " for "@ + decimal_text(amount) + " damage."@
}

/// The log line of a death event.
pub open spec fn death_text(w: WorldView, who: Entity) -> Seq<char> {
    label(w, who) + " dies."@
}

impl Event {
    /// The log line of the event, with entities named by their current `Name`.
    pub open spec fn text(&self, w: WorldView) -> Seq<char> {
        match self {
            Event::Damage { from, to, amount } => damage_text(w, *from, *to, *amount as int),
            Event::Death { who } => death_text(w, *who),
            Event::Other(message) => message@,
        }
    }

    pub fn format(&self, world: &World) -> (r: String)
        requires
            world@.wf(),
        ensures
            r@ == self.text(world@),
    {
        match self {
            Event::Damage { from, to, amount } => {
                let mut s = world.label(*from);
                let to_label = world.label(*to);
                let amount_text = decimal(*amount);
                proof {
                    reveal_strlit(" hits ");
                    reveal_strlit(" for ");
                    reveal_strlit(" damage.");
                }
                s.append(" hits ");
                s.append(to_label.as_str());
                s.append(" for ");
                s.append(amount_text.as_str());
                s.append(" damage.");
                s
            },
            Event::Death { who } => {
                let mut s = world.label(*who);
                proof {
                    reveal_strlit(" dies.");
                }
                s.append(" dies.");
                s
            },
            Event::Other(message) => message.clone(),
        }
    }
}

/// The log. The front of the queue holds the oldest entry, the back the newest.
pub struct EventLog {
    pub events: VecDeque<String>,
    pub capacity: usize,
}

/// The mathematical model of an `EventLog`: its entries, oldest first, and its bound.
pub struct EventLogView {
    pub events: Seq<Seq<char>>,
    pub capacity: nat,
}

impl EventLogView {
    pub open spec fn wf(self) -> bool {
        self.capacity > 0 && self.events.len() <= self.capacity
    }

    /// The log after appending one entry, dropping the oldest when over capacity.
    pub open spec fn pushed(self, entry: Seq<char>) -> EventLogView {
        let all = self.events.push(entry);
        EventLogView {
            events: if all.len() > self.capacity {
                all.drop_first()
            } else {
                all
            },
            capacity: self.capacity,
        }
    }

    /// The log after appending entries in order.
    pub open spec fn pushed_all(self, entries: Seq<Seq<char>>) -> EventLogView
        decreases entries.len(),
    {
        if entries.len() == 0 {
            self
        } else {
            self.pushed_all(entries.drop_last()).pushed(entries.last())
        }
    }
}

impl View for EventLog {
    type V = EventLogView;

    open spec fn view(&self) -> EventLogView {
        EventLogView {
            events: self.events@.map_values(|s: String| s@),
            capacity: self.capacity as nat,
        }
    }
}

impl EventLog {
    pub fn new() -> (r: EventLog)
        ensures
            r@.events.len() == 0,
            r@.capacity == LOG_CAPACITY,
            r@.wf(),
    {
        let r = EventLog { events: VecDeque::new(), capacity: LOG_CAPACITY };
        assert(r@.events =~= Seq::<Seq<char>>::empty());
        r
    }

    /// Appends an entry, dropping the oldest one when the log is over capacity.
    pub fn log(&mut self, event: String)
        requires
            old(self)@.wf(),
        ensures
            final(self)@ == old(self)@.pushed(event@),
            final(self)@.wf(),
    {
        self.events.push_back(event);
        if self.events.len() > self.capacity {
            let _ = self.events.pop_front();
        }
        assert(self@.events =~= old(self)@.pushed(event@).events);
    }

    /// The entries from newest to oldest, the order in which they are shown.
    pub fn events(&self) -> (r: Vec<String>)
        ensures
            r@.len() == self@.events.len(),
            forall|i: int|
                0 <= i < r@.len() ==> #[trigger] r@[i]@ == self@.events[self@.events.len() - 1
                    - i],
    {
        let n = self.events.len();
        let mut r: Vec<String> = Vec::new();
        let mut k: usize = 0;
        while k < n
            invariant
                n == self.events@.len(),
                k <= n,
                r@.len() == k,
                forall|i: int|
                    0 <= i < k ==> #[trigger] r@[i]@ == self@.events[n - 1 - i],
            decreases n - k,
        {
            let s = self.events[n - 1 - k].clone();
            r.push(s);
            k = k + 1;
        }
        r
    }

    /// The `count` newest entries (all of them if there are fewer), oldest first.
    pub fn recent(&self, count: usize) -> (r: Vec<String>)
        ensures
            r@.map_values(|s: String| s@) == self@.events.subrange(
                self@.events.len() - (if count < self@.events.len() {
                    count as int
                } else {
                    self@.events.len() as int
                }),
                self@.events.len() as int,
            ),
    {
        let n = self.events.len();
        let start: usize = if count < n {
            n - count
        } else {
            0
        };
        let mut r: Vec<String> = Vec::new();
        let mut k: usize = start;
        while k < n
            invariant
                n == self.events@.len(),
                start <= k <= n,
                r@.len() == k - start,
                forall|i: int|
                    0 <= i < r@.len() ==> #[trigger] r@[i]@ == self@.events[start + i],
            decreases n - k,
        {
            let s = self.events[k].clone();
            r.push(s);
            k = k + 1;
        }
        assert(r@.map_values(|s: String| s@) =~= self@.events.subrange(start as int, n as int));
        r
    }
}

} // verus!
