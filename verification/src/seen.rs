//! Numbered messages that were received lately, so that copies of one message are shown once and
//! acknowledged at most once every few seconds.

use vstd::prelude::*;

use crate::clock::{since, spec_since};
use crate::table::{
    lemma_table_contains, lemma_table_holds, lemma_table_push, lemma_table_update, spec_table,
    spec_unique,
};
use crate::text::same_text;

verus! {

/// Digipeated copies of one message arrive within seconds; ack them once.
pub const ACK_HOLDOFF: u128 = 10_000_000_000;

pub const SEEN_TTL: u128 = 1_800_000_000_000;

#[derive(Clone, Copy, Debug, PartialEq, Eq, Structural)]
pub struct Seen {
    pub first: u128,
    pub last_ack: Option<u128>,
}

struct SeenEntry {
    from: String,
    id: String,
    seen: Seen,
}

/// Received messages by sender and id.
pub struct SeenTable {
    entries: Vec<SeenEntry>,
}

spec fn spec_entries(v: Seq<SeenEntry>) -> Seq<((Seq<char>, Seq<char>), Seen)> {
    Seq::new(v.len(), |i: int| ((v[i].from@, v[i].id@), v[i].seen))
}

impl View for SeenTable {
    type V = Map<(Seq<char>, Seq<char>), Seen>;

    closed spec fn view(&self) -> Map<(Seq<char>, Seq<char>), Seen> {
        spec_table(spec_entries(self.entries@))
    }
}

/// Received less than [`SEEN_TTL`] ago.
pub open spec fn spec_is_fresh(seen: Seen, now: u128) -> bool {
    spec_since(now, seen.first) < SEEN_TTL
}

/// The entries that are still fresh.
pub open spec fn spec_fresh(
    table: Map<(Seq<char>, Seq<char>), Seen>,
    now: u128,
) -> Map<(Seq<char>, Seq<char>), Seen> {
    Map::new(
        |k: (Seq<char>, Seq<char>)| table.contains_key(k) && spec_is_fresh(table[k], now),
        |k: (Seq<char>, Seq<char>)| table[k],
    )
}

/// Not seen yet, as far as the fresh entries tell.
pub open spec fn spec_is_new(
    table: Map<(Seq<char>, Seq<char>), Seen>,
    key: (Seq<char>, Seq<char>),
    now: u128,
) -> bool {
    !spec_fresh(table, now).contains_key(key)
}

/// An ack is due unless one was sent less than [`ACK_HOLDOFF`] ago.
pub open spec fn spec_ack_due(
    table: Map<(Seq<char>, Seq<char>), Seen>,
    key: (Seq<char>, Seq<char>),
    now: u128,
) -> bool {
    if spec_is_new(table, key, now) {
        true
    } else {
        match table[key].last_ack {
            Some(last) => spec_since(now, last) >= ACK_HOLDOFF,
            None => true,
        }
    }
}

/// The fresh entries with the message under `key` received now, and acknowledged where that is
/// due.
pub open spec fn spec_register(
    table: Map<(Seq<char>, Seq<char>), Seen>,
    key: (Seq<char>, Seq<char>),
    now: u128,
) -> Map<(Seq<char>, Seq<char>), Seen> {
    let is_new = spec_is_new(table, key, now);
    spec_fresh(table, now).insert(
        key,
        Seen {
            first: if is_new {
                now
            } else {
                table[key].first
            },
            last_ack: if spec_ack_due(table, key, now) {
                Some(now)
            } else {
                table[key].last_ack
            },
        },
    )
}

/// The fresh ones among the first `n` entries.
spec fn spec_retained(
    s: Seq<((Seq<char>, Seq<char>), Seen)>,
    n: int,
    now: u128,
) -> Seq<((Seq<char>, Seq<char>), Seen)>
    decreases n,
{
    if n <= 0 {
        Seq::empty()
    } else if spec_is_fresh(s[n - 1].1, now) {
        spec_retained(s, n - 1, now).push(s[n - 1])
    } else {
        spec_retained(s, n - 1, now)
    }
}

proof fn lemma_retained(s: Seq<((Seq<char>, Seq<char>), Seen)>, n: int, now: u128)
    requires
        spec_unique(s),
        0 <= n <= s.len(),
    ensures
        spec_unique(spec_retained(s, n, now)),
        spec_table(spec_retained(s, n, now)) == spec_fresh(spec_table(s.take(n)), now),
    decreases n,
{
    let kept = spec_retained(s, n, now);
    let goal = spec_fresh(spec_table(s.take(n)), now);
    if n == 0 {
        assert(spec_table(kept) =~= goal);
    } else {
        lemma_retained(s, n - 1, now);
        let front = spec_retained(s, n - 1, now);
        let (k, v) = s[n - 1];
        let table = spec_table(s.take(n - 1));
        assert(s.take(n).drop_last() =~= s.take(n - 1));
        assert(spec_table(s.take(n)) == table.insert(k, v));
        assert(!table.contains_key(k)) by {
            lemma_table_contains(s.take(n - 1), k);
            if table.contains_key(k) {
                let i = choose|i: int|
                    0 <= i < s.take(n - 1).len() && #[trigger] s.take(n - 1)[i].0 == k;
                assert(s[i].0 != s[n - 1].0);
            }
        }
        assert(!spec_table(front).contains_key(k));
        if spec_is_fresh(v, now) {
            lemma_table_push(front, k, v);
            assert(kept == front.push((k, v)));
        }
        assert(spec_table(kept) =~= goal);
    }
}

impl SeenTable {
    /// No key is listed twice.
    pub closed spec fn wf(self) -> bool {
        spec_unique(spec_entries(self.entries@))
    }

    pub fn new() -> (r: SeenTable)
        ensures
            r.wf(),
            r@ == Map::<(Seq<char>, Seq<char>), Seen>::empty(),
    {
        let r = SeenTable { entries: Vec::new() };
        assert(spec_entries(r.entries@) =~= Seq::<((Seq<char>, Seq<char>), Seen)>::empty());
        r
    }

    /// Forgets what is no longer fresh.
    fn retain_fresh(&mut self, now: u128)
        requires
            old(self).wf(),
        ensures
            final(self).wf(),
            final(self)@ == spec_fresh(old(self)@, now),
    {
        let ghost s = spec_entries(self.entries@);
        let ghost mut n: int = 0;
        let mut i: usize = 0;
        assert(spec_entries(self.entries@) =~= spec_retained(s, 0, now) + s.skip(0));
        while i < self.entries.len()
            invariant
                0 <= n <= s.len(),
                i == spec_retained(s, n, now).len(),
                spec_entries(self.entries@) == spec_retained(s, n, now) + s.skip(n),
            decreases s.len() - n,
        {
            let ghost kept = spec_retained(s, n, now);
            let ghost before = self.entries@;
            assert(spec_entries(self.entries@)[i as int] == s[n]);
            if since(now, self.entries[i].seen.first) < SEEN_TTL {
                i += 1;
                assert(spec_entries(self.entries@) =~= spec_retained(s, n + 1, now) + s.skip(n + 1));
            } else {
                let _ = self.entries.remove(i);
                assert(spec_entries(self.entries@) =~= spec_entries(before).remove(i as int));
                assert(spec_entries(self.entries@) =~= kept + s.skip(n + 1));
            }
            proof {
                n = n + 1;
            }
        }
        proof {
            assert(s.skip(n).len() == 0);
            assert(spec_entries(self.entries@) =~= spec_retained(s, s.len() as int, now));
            lemma_retained(s, s.len() as int, now);
            assert(s.take(s.len() as int) =~= s);
        }
    }

    fn find(&self, from: &str, id: &str) -> (r: Option<usize>)
        ensures
            match r {
                Some(i) => i < self.entries@.len() && self.entries@[i as int].from@ == from@
                    && self.entries@[i as int].id@ == id@,
                None => !self@.contains_key((from@, id@)),
            },
    {
        let ghost s = spec_entries(self.entries@);
        for i in 0..self.entries.len()
            invariant
                s == spec_entries(self.entries@),
                forall|j: int| 0 <= j < i ==> (#[trigger] s[j]).0 != (from@, id@),
        {
            assert(s[i as int].0 == (self.entries@[i as int].from@, self.entries@[i as int].id@));
            if same_text(self.entries[i].from.as_str(), from) && same_text(
                self.entries[i].id.as_str(),
                id,
            ) {
                return Some(i);
            }
        }
        proof {
            lemma_table_contains(s, (from@, id@));
        }
        None
    }

    /// Registers a message received now. Returns whether it is new and whether an ack is due.
    pub fn register(&mut self, from: String, id: String, now: u128) -> (r: (bool, bool))
        requires
            old(self).wf(),
        ensures
            final(self).wf(),
            final(self)@ == spec_register(old(self)@, (from@, id@), now),
            r.0 == spec_is_new(old(self)@, (from@, id@), now),
            r.1 == spec_ack_due(old(self)@, (from@, id@), now),
    {
        self.retain_fresh(now);
        let ghost s = spec_entries(self.entries@);
        match self.find(from.as_str(), id.as_str()) {
            Some(i) => {
                let seen: Seen = self.entries[i].seen;
                proof {
                    lemma_table_holds(s, i as int);
                }
                let ack_due: bool = match seen.last_ack {
                    Some(last) => since(now, last) >= ACK_HOLDOFF,
                    None => true,
                };
                let updated = Seen {
                    first: seen.first,
                    last_ack: if ack_due {
                        Some(now)
                    } else {
                        seen.last_ack
                    },
                };
                proof {
                    lemma_table_update(s, i as int, updated);
                }
                self.entries.set(i, SeenEntry { from, id, seen: updated });
                assert(spec_entries(self.entries@) =~= s.update(i as int, (s[i as int].0, updated)));
                (false, ack_due)
            },
            None => {
                let seen = Seen { first: now, last_ack: Some(now) };
                proof {
                    lemma_table_push(s, (from@, id@), seen);
                }
                self.entries.push(SeenEntry { from, id, seen });
                assert(spec_entries(self.entries@) =~= s.push(((from@, id@), seen)));
                (true, true)
            },
        }
    }
}

// ---------------------------------------------------------------------------
// Laws
// ---------------------------------------------------------------------------

/// A copy of a message that arrives before the first one is forgotten is not new, and no second
/// ack is due within the holdoff.
pub proof fn law_copies_are_recognised(
    table: Map<(Seq<char>, Seq<char>), Seen>,
    key: (Seq<char>, Seq<char>),
    now: u128,
    later: u128,
)
    requires
        now <= later,
        spec_is_new(table, key, now),
        later - now < SEEN_TTL,
    ensures
        !spec_is_new(spec_register(table, key, now), key, later),
        later - now < ACK_HOLDOFF ==> !spec_ack_due(spec_register(table, key, now), key, later),
        later - now >= ACK_HOLDOFF ==> spec_ack_due(spec_register(table, key, now), key, later),
{
}

/// Nothing counts as seen at first.
pub proof fn law_nothing_is_seen_at_first(key: (Seq<char>, Seq<char>), now: u128)
    ensures
        spec_is_new(Map::empty(), key, now),
{
}

/// Receiving one message never makes another one count as seen: a message with another id, or of
/// another sender, is afterwards as new or as old as it was before.
pub proof fn law_other_messages_stay_as_new(
    table: Map<(Seq<char>, Seq<char>), Seen>,
    key: (Seq<char>, Seq<char>),
    other: (Seq<char>, Seq<char>),
    now: u128,
    later: u128,
)
    requires
        other != key,
        now <= later,
    ensures
        spec_is_new(spec_register(table, key, now), other, later) == spec_is_new(
            table,
            other,
            later,
        ),
        spec_ack_due(spec_register(table, key, now), other, later) == spec_ack_due(
            table,
            other,
            later,
        ),
{
}

/// A message is remembered for exactly half an hour from its first copy, however many copies
/// follow, and an ack is due for it exactly where none was for ten seconds.
pub proof fn law_message_is_remembered_for_half_an_hour(
    table: Map<(Seq<char>, Seq<char>), Seen>,
    key: (Seq<char>, Seq<char>),
    first: u128,
    copy: u128,
    later: u128,
)
    requires
        first <= copy <= later,
        spec_is_new(table, key, first),
        copy - first < 1_800_000_000_000,
    ensures
        spec_ack_due(table, key, first),
        ({
            let once = spec_register(table, key, first);
            let twice = spec_register(once, key, copy);
            let acked = if copy - first >= 10_000_000_000 {
                copy
            } else {
                first
            };
            &&& spec_is_new(once, key, later) <==> later - first >= 1_800_000_000_000
            &&& spec_is_new(twice, key, later) <==> later - first >= 1_800_000_000_000
            &&& spec_ack_due(once, key, copy) <==> copy - first >= 10_000_000_000
            &&& spec_ack_due(twice, key, later) <==> (later - acked >= 10_000_000_000 || later
                - first >= 1_800_000_000_000)
        }),
{
}

} // verus!
