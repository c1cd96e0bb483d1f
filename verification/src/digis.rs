//! Digipeaters heard repeating packets, and their ranking.

use vstd::prelude::*;

use crate::clock::{seconds, since, spec_seconds, spec_since};
use crate::numeral::{
    decimal, join, push_pad_left, push_pad_right, spec_decimal, spec_join, spec_pad_left,
    spec_pad_right,
};
use crate::table::{
    lemma_table_contains, lemma_table_holds, lemma_table_push, lemma_table_update, spec_table,
    spec_unique,
};
use crate::text::{
    lemma_text_lt_total, lemma_text_lt_transitive, same_text, spec_text_lt, spec_texts, text_lt,
};

verus! {

/// What is known of one digipeater.
#[derive(Clone, Copy, Debug, PartialEq, Eq, Structural)]
pub struct DigiHeard {
    pub packets: u32,
    pub last: u128,
}

struct DigiEntry {
    call: String,
    heard: DigiHeard,
}

/// Digipeaters by call.
pub struct Digis {
    entries: Vec<DigiEntry>,
}

spec fn spec_entries(v: Seq<DigiEntry>) -> Seq<(Seq<char>, DigiHeard)> {
    Seq::new(v.len(), |i: int| (v[i].call@, v[i].heard))
}

impl View for Digis {
    type V = Map<Seq<char>, DigiHeard>;

    closed spec fn view(&self) -> Map<Seq<char>, DigiHeard> {
        spec_table(spec_entries(self.entries@))
    }
}

/// One more packet repeated by `call`. The count starts again at zero where it is full.
pub open spec fn spec_record(
    digis: Map<Seq<char>, DigiHeard>,
    call: Seq<char>,
    now: u128,
) -> Map<Seq<char>, DigiHeard> {
    let before = if digis.contains_key(call) {
        digis[call].packets
    } else {
        0
    };
    let packets = if before == u32::MAX {
        0
    } else {
        (before + 1) as u32
    };
    digis.insert(call, DigiHeard { packets, last: now })
}

// ---------------------------------------------------------------------------
// Ranking
// ---------------------------------------------------------------------------

/// More packets come first; among equals the calls are in alphabetical order.
pub open spec fn spec_ranks_before(a: (Seq<char>, DigiHeard), b: (Seq<char>, DigiHeard)) -> bool {
    a.1.packets > b.1.packets || (a.1.packets == b.1.packets && spec_text_lt(a.0, b.0))
}

/// Every digipeater once, in order.
pub open spec fn spec_is_ranking(
    order: Seq<(Seq<char>, DigiHeard)>,
    digis: Map<Seq<char>, DigiHeard>,
) -> bool {
    &&& forall|i: int, j: int|
        0 <= i < j < order.len() ==> spec_ranks_before(#[trigger] order[i], #[trigger] order[j])
    &&& forall|i: int|
        0 <= i < order.len() ==> digis.contains_key((#[trigger] order[i]).0) && digis[order[i].0]
            == order[i].1
    &&& forall|k: Seq<char>| #[trigger] digis.contains_key(k) ==> order.contains((k, digis[k]))
}

/// The ranking of the digipeaters.
pub open spec fn spec_ranking(digis: Map<Seq<char>, DigiHeard>) -> Seq<(Seq<char>, DigiHeard)> {
    choose|order: Seq<(Seq<char>, DigiHeard)>| spec_is_ranking(order, digis)
}

proof fn lemma_ranks_before_order(
    a: (Seq<char>, DigiHeard),
    b: (Seq<char>, DigiHeard),
    c: (Seq<char>, DigiHeard),
)
    ensures
        !spec_ranks_before(a, a),
        spec_ranks_before(a, b) && spec_ranks_before(b, c) ==> spec_ranks_before(a, c),
        a.0 != b.0 ==> spec_ranks_before(a, b) || spec_ranks_before(b, a),
{
    lemma_text_lt_total(a.0, b.0);
    if spec_text_lt(a.0, b.0) && spec_text_lt(b.0, c.0) {
        lemma_text_lt_transitive(a.0, b.0, c.0);
    }
}

/// Two orders of the same entries, each with every entry before the ones behind it, are equal.
proof fn lemma_sorted_is_unique(
    s: Seq<(Seq<char>, DigiHeard)>,
    t: Seq<(Seq<char>, DigiHeard)>,
)
    requires
        forall|i: int, j: int|
            0 <= i < j < s.len() ==> spec_ranks_before(#[trigger] s[i], #[trigger] s[j]),
        forall|i: int, j: int|
            0 <= i < j < t.len() ==> spec_ranks_before(#[trigger] t[i], #[trigger] t[j]),
        forall|i: int| 0 <= i < s.len() ==> t.contains(#[trigger] s[i]),
        forall|i: int| 0 <= i < t.len() ==> s.contains(#[trigger] t[i]),
    ensures
        s == t,
    decreases s.len(),
{
    if s.len() == 0 {
        if t.len() > 0 {
            assert(s.contains(t[0]));
        }
        assert(s =~= t);
    } else {
        assert(t.contains(s[0]));
        let a = s[s.len() - 1];
        let b = t[t.len() - 1];
        assert(t.contains(a) && s.contains(b));
        let j = choose|j: int| 0 <= j < t.len() && t[j] == a;
        let i = choose|i: int| 0 <= i < s.len() && s[i] == b;
        if a != b {
            assert(spec_ranks_before(t[j], t[t.len() - 1]));
            assert(spec_ranks_before(s[i], s[s.len() - 1]));
            lemma_ranks_before_order(a, b, a);
        }
        let s1 = s.drop_last();
        let t1 = t.drop_last();
        assert forall|k: int| 0 <= k < s1.len() implies t1.contains(#[trigger] s1[k]) by {
            assert(s1[k] == s[k]);
            assert(t.contains(s[k]));
            let m = choose|m: int| 0 <= m < t.len() && t[m] == s[k];
            if m == t.len() - 1 {
                assert(spec_ranks_before(s[k], s[s.len() - 1]));
                lemma_ranks_before_order(a, a, a);
            }
            assert(t1[m] == s[k]);
        }
        assert forall|k: int| 0 <= k < t1.len() implies s1.contains(#[trigger] t1[k]) by {
            assert(t1[k] == t[k]);
            assert(s.contains(t[k]));
            let m = choose|m: int| 0 <= m < s.len() && s[m] == t[k];
            if m == s.len() - 1 {
                assert(spec_ranks_before(t[k], t[t.len() - 1]));
                lemma_ranks_before_order(a, a, a);
            }
            assert(s1[m] == t[k]);
        }
        assert forall|x: int, y: int| 0 <= x < y < s1.len() implies spec_ranks_before(
            #[trigger] s1[x],
            #[trigger] s1[y],
        ) by {
            assert(spec_ranks_before(s[x], s[y]));
        }
        assert forall|x: int, y: int| 0 <= x < y < t1.len() implies spec_ranks_before(
            #[trigger] t1[x],
            #[trigger] t1[y],
        ) by {
            assert(spec_ranks_before(t[x], t[y]));
        }
        lemma_sorted_is_unique(s1, t1);
        assert(s =~= s1.push(a));
        assert(t =~= t1.push(b));
    }
}

/// There is at most one ranking.
pub proof fn law_ranking_is_unique(
    s: Seq<(Seq<char>, DigiHeard)>,
    t: Seq<(Seq<char>, DigiHeard)>,
    digis: Map<Seq<char>, DigiHeard>,
)
    requires
        spec_is_ranking(s, digis),
        spec_is_ranking(t, digis),
    ensures
        s == t,
{
    assert forall|i: int| 0 <= i < s.len() implies t.contains(#[trigger] s[i]) by {
        assert(digis.contains_key(s[i].0) && digis[s[i].0] == s[i].1);
        assert(t.contains((s[i].0, digis[s[i].0])));
    }
    assert forall|i: int| 0 <= i < t.len() implies s.contains(#[trigger] t[i]) by {
        assert(digis.contains_key(t[i].0) && digis[t[i].0] == t[i].1);
        assert(s.contains((t[i].0, digis[t[i].0])));
    }
    lemma_sorted_is_unique(s, t);
}

// ---------------------------------------------------------------------------
// Text
// ---------------------------------------------------------------------------

/// `  CALL          4 packets, last 12 s ago`
pub open spec fn spec_digi_line(call: Seq<char>, heard: DigiHeard, now: u128) -> Seq<char> {
    "  "@ + spec_pad_right(call, 10) + " "@ + spec_pad_left(
        spec_decimal(heard.packets as nat),
        ' ',
        4,
    ) + " packets, last "@ + spec_decimal(spec_seconds(spec_since(now, heard.last))) + " s ago"@
}

pub open spec fn spec_digi_lines(order: Seq<(Seq<char>, DigiHeard)>, now: u128) -> Seq<Seq<char>> {
    Seq::new(order.len(), |i: int| spec_digi_line(order[i].0, order[i].1, now))
}

/// One line for each digipeater, in order of rank.
pub open spec fn spec_ranking_text(digis: Map<Seq<char>, DigiHeard>, now: u128) -> Seq<char> {
    spec_join(spec_digi_lines(spec_ranking(digis), now), "\n"@)
}

fn digi_line(entry: &DigiEntry, now: u128) -> (r: String)
    ensures
        r@ == spec_digi_line(entry.call@, entry.heard, now),
{
    let mut out = String::from_str("  ");
    push_pad_right(&mut out, entry.call.as_str(), 10);
    out.append(" ");
    push_pad_left(&mut out, decimal(entry.heard.packets as u128).as_str(), ' ', 4);
    out.append(" packets, last ");
    out.append(decimal(seconds(since(now, entry.heard.last))).as_str());
    out.append(" s ago");
    out
}

impl Digis {
    /// No call is listed twice.
    pub closed spec fn wf(self) -> bool {
        spec_unique(spec_entries(self.entries@))
    }

    pub fn new() -> (r: Digis)
        ensures
            r.wf(),
            r@ == Map::<Seq<char>, DigiHeard>::empty(),
    {
        let r = Digis { entries: Vec::new() };
        assert(spec_entries(r.entries@) =~= Seq::<(Seq<char>, DigiHeard)>::empty());
        r
    }

    pub fn is_empty(&self) -> (r: bool)
        ensures
            r == (self@ == Map::<Seq<char>, DigiHeard>::empty()),
    {
        let r: bool = self.entries.len() == 0;
        proof {
            let s = spec_entries(self.entries@);
            if s.len() > 0 {
                lemma_table_contains(s, s[0].0);
                assert(self@.contains_key(s[0].0));
            }
        }
        r
    }

    fn find(&self, call: &str) -> (r: Option<usize>)
        ensures
            match r {
                Some(i) => i < self.entries@.len() && self.entries@[i as int].call@ == call@,
                None => !self@.contains_key(call@),
            },
    {
        let ghost s = spec_entries(self.entries@);
        for i in 0..self.entries.len()
            invariant
                s == spec_entries(self.entries@),
                forall|j: int| 0 <= j < i ==> (#[trigger] s[j]).0 != call@,
        {
            assert(s[i as int].0 == self.entries@[i as int].call@);
            if same_text(self.entries[i].call.as_str(), call) {
                return Some(i);
            }
        }
        proof {
            lemma_table_contains(s, call@);
        }
        None
    }

    /// Counts one more packet repeated by `call`.
    pub fn record(&mut self, call: String, now: u128)
        requires
            old(self).wf(),
        ensures
            final(self).wf(),
            final(self)@ == spec_record(old(self)@, call@, now),
    {
        let ghost s = spec_entries(self.entries@);
        match self.find(call.as_str()) {
            Some(i) => {
                let heard = DigiHeard {
                    packets: self.entries[i].heard.packets.wrapping_add(1),
                    last: now,
                };
                proof {
                    lemma_table_holds(s, i as int);
                    lemma_table_update(s, i as int, heard);
                }
                self.entries.set(i, DigiEntry { call, heard });
                assert(spec_entries(self.entries@) =~= s.update(i as int, (s[i as int].0, heard)));
            },
            None => {
                let heard = DigiHeard { packets: 1, last: now };
                proof {
                    lemma_table_push(s, call@, heard);
                }
                self.entries.push(DigiEntry { call, heard });
                assert(spec_entries(self.entries@) =~= s.push((call@, heard)));
            },
        }
    }

    /// The digipeaters in order of rank.
    fn ranked(&self) -> (r: Vec<DigiEntry>)
        requires
            self.wf(),
        ensures
            spec_entries(r@) == spec_ranking(self@),
    {
        let ghost all = spec_entries(self.entries@);
        let mut order: Vec<DigiEntry> = Vec::new();
        for i in 0..self.entries.len()
            invariant
                all == spec_entries(self.entries@),
                spec_unique(all),
                forall|a: int, b: int|
                    0 <= a < b < order@.len() ==> spec_ranks_before(
                        #[trigger] spec_entries(order@)[a],
                        #[trigger] spec_entries(order@)[b],
                    ),
                forall|a: int|
                    0 <= a < order@.len() ==> all.take(i as int).contains(
                        #[trigger] spec_entries(order@)[a],
                    ),
                forall|a: int|
                    0 <= a < i ==> spec_entries(order@).contains(#[trigger] all[a]),
        {
            let entry = DigiEntry {
                call: self.entries[i].call.clone(),
                heard: self.entries[i].heard,
            };
            assert(all[i as int] == (entry.call@, entry.heard));
            insert_ranked(&mut order, entry, Ghost(all), Ghost(i as int));
        }
        proof {
            let r = spec_entries(order@);
            assert(all.take(all.len() as int) =~= all);
            assert forall|a: int| 0 <= a < r.len() implies self@.contains_key((#[trigger] r[a]).0)
                && self@[r[a].0] == r[a].1 by {
                assert(all.contains(r[a]));
                let k = choose|k: int| 0 <= k < all.len() && all[k] == r[a];
                lemma_table_holds(all, k);
            }
            assert forall|k: Seq<char>| #[trigger] self@.contains_key(k) implies r.contains(
                (k, self@[k]),
            ) by {
                lemma_table_contains(all, k);
                let a = choose|a: int| 0 <= a < all.len() && #[trigger] all[a].0 == k;
                lemma_table_holds(all, a);
                assert(r.contains(all[a]));
            }
            assert(spec_is_ranking(r, self@));
            law_ranking_is_unique(r, spec_ranking(self@), self@);
        }
        order
    }

    /// One line for each digipeater, in order of rank.
    pub fn text(&self, now: u128) -> (r: String)
        requires
            self.wf(),
        ensures
            r@ == spec_ranking_text(self@, now),
    {
        let order = self.ranked();
        let ghost ranking = spec_entries(order@);
        let mut lines: Vec<String> = Vec::new();
        for i in 0..order.len()
            invariant
                ranking == spec_entries(order@),
                spec_texts(lines@) == spec_digi_lines(ranking, now).take(i as int),
        {
            let ghost so_far = lines@;
            let line = digi_line(&order[i], now);
            lines.push(line);
            assert(spec_texts(lines@) =~= spec_texts(so_far).push(line@));
            assert(ranking[i as int] == (order@[i as int].call@, order@[i as int].heard));
            assert(spec_texts(lines@) =~= spec_digi_lines(ranking, now).take(i + 1));
        }
        assert(spec_texts(lines@) =~= spec_digi_lines(ranking, now));
        join(&lines, "\n")
    }
}

fn ranks_before(a: &DigiEntry, b: &DigiEntry) -> (r: bool)
    ensures
        r == spec_ranks_before((a.call@, a.heard), (b.call@, b.heard)),
{
    a.heard.packets > b.heard.packets || (a.heard.packets == b.heard.packets && text_lt(
        a.call.as_str(),
        b.call.as_str(),
    ))
}

/// Inserts the `n`th entry of `all` into an order of the entries before it.
fn insert_ranked(
    order: &mut Vec<DigiEntry>,
    entry: DigiEntry,
    all: Ghost<Seq<(Seq<char>, DigiHeard)>>,
    n: Ghost<int>,
)
    requires
        0 <= n@ < all@.len(),
        spec_unique(all@),
        all@[n@] == (entry.call@, entry.heard),
        forall|a: int, b: int|
            0 <= a < b < old(order)@.len() ==> spec_ranks_before(
                #[trigger] spec_entries(old(order)@)[a],
                #[trigger] spec_entries(old(order)@)[b],
            ),
        forall|a: int|
            0 <= a < old(order)@.len() ==> all@.take(n@).contains(
                #[trigger] spec_entries(old(order)@)[a],
            ),
        forall|a: int| 0 <= a < n@ ==> spec_entries(old(order)@).contains(#[trigger] all@[a]),
    ensures
        forall|a: int, b: int|
            0 <= a < b < final(order)@.len() ==> spec_ranks_before(
                #[trigger] spec_entries(final(order)@)[a],
                #[trigger] spec_entries(final(order)@)[b],
            ),
        forall|a: int|
            0 <= a < final(order)@.len() ==> all@.take(n@ + 1).contains(
                #[trigger] spec_entries(final(order)@)[a],
            ),
        forall|a: int| 0 <= a < n@ + 1 ==> spec_entries(final(order)@).contains(#[trigger] all@[a]),
{
    let ghost s = spec_entries(order@);
    let ghost e = (entry.call@, entry.heard);
    let mut at: usize = 0;
    while at < order.len() && ranks_before(&order[at], &entry)
        invariant
            at <= order@.len(),
            s == spec_entries(order@),
            e == (entry.call@, entry.heard),
            forall|a: int| 0 <= a < at ==> spec_ranks_before(#[trigger] s[a], e),
        decreases order@.len() - at,
    {
        assert(s[at as int] == (order@[at as int].call@, order@[at as int].heard));
        at += 1;
    }
    proof {
        assert forall|a: int| 0 <= a < s.len() implies (#[trigger] s[a]).0 != e.0 by {
            assert(all@.take(n@).contains(s[a]));
            let k = choose|k: int| 0 <= k < all@.take(n@).len() && all@.take(n@)[k] == s[a];
            assert(all@[k].0 != all@[n@].0);
        }
        assert forall|a: int| at <= a < s.len() implies spec_ranks_before(e, #[trigger] s[a]) by {
            assert(s[at as int] == (order@[at as int].call@, order@[at as int].heard));
            lemma_ranks_before_order(e, s[at as int], s[a]);
            if a > at {
                assert(spec_ranks_before(s[at as int], s[a]));
            }
        }
    }
    order.insert(at, entry);
    proof {
        let t = spec_entries(order@);
        assert(t =~= s.insert(at as int, e));
        assert forall|a: int, b: int| 0 <= a < b < t.len() implies spec_ranks_before(
            #[trigger] t[a],
            #[trigger] t[b],
        ) by {
            let x = if a < at {
                a
            } else {
                a - 1
            };
            let y = if b < at {
                b
            } else {
                b - 1
            };
            if a == at {
                assert(t[b] == s[y]);
            } else if b == at {
                assert(t[a] == s[x]);
            } else {
                assert(t[a] == s[x] && t[b] == s[y]);
                assert(spec_ranks_before(s[x], s[y]));
            }
        }
        assert forall|a: int| 0 <= a < t.len() implies all@.take(n@ + 1).contains(
            #[trigger] t[a],
        ) by {
            if a == at {
                assert(all@.take(n@ + 1)[n@] == e);
            } else {
                let x = if a < at {
                    a
                } else {
                    a - 1
                };
                assert(t[a] == s[x]);
                assert(all@.take(n@).contains(s[x]));
                let k = choose|k: int| 0 <= k < all@.take(n@).len() && all@.take(n@)[k] == s[x];
                assert(all@.take(n@ + 1)[k] == s[x]);
            }
        }
        assert forall|a: int| 0 <= a < n@ + 1 implies t.contains(#[trigger] all@[a]) by {
            if a == n@ {
                assert(t[at as int] == e);
            } else {
                assert(s.contains(all@[a]));
                let x = choose|x: int| 0 <= x < s.len() && s[x] == all@[a];
                assert(t[if x < at {
                    x
                } else {
                    x + 1
                }] == s[x]);
            }
        }
    }
}

/// In the ranking, who repeated more packets comes first, and among equals the calls are in
/// alphabetical order; everyone is ranked, with the packets that were counted.
pub proof fn law_ranking_puts_the_busiest_first(
    order: Seq<(Seq<char>, DigiHeard)>,
    digis: Map<Seq<char>, DigiHeard>,
    i: int,
    j: int,
    call: Seq<char>,
)
    requires
        spec_is_ranking(order, digis),
        0 <= i < j < order.len(),
    ensures
        order[i].1.packets >= order[j].1.packets,
        order[i].1.packets == order[j].1.packets ==> spec_text_lt(order[i].0, order[j].0),
        digis.contains_key(call) <==> exists|k: int|
            0 <= k < order.len() && #[trigger] order[k].0 == call && order[k].1 == digis[call],
{
    assert(spec_ranks_before(order[i], order[j]));
    if digis.contains_key(call) {
        let k = order.index_of((call, digis[call]));
        assert(order[k].0 == call);
    }
}

/// One line of the list: the call in ten columns, the packets in four, and the seconds since the
/// last.
pub proof fn law_digipeaters_in_words(call: Seq<char>, heard: DigiHeard, now: u128)
    requires
        heard.last <= now,
    ensures
        spec_digi_line(call, heard, now) == "  "@ + spec_pad_right(call, 10) + " "@ + spec_pad_left(
            spec_decimal(heard.packets as nat),
            ' ',
            4,
        ) + " packets, last "@ + spec_decimal(((now - heard.last) / 1_000_000_000) as nat)
            + " s ago"@,
{
}

/// The list has one line for each digipeater, in the order of the ranking.
pub proof fn law_list_is_in_the_order_of_the_ranking(
    order: Seq<(Seq<char>, DigiHeard)>,
    digis: Map<Seq<char>, DigiHeard>,
    now: u128,
    i: int,
)
    requires
        spec_is_ranking(order, digis),
        0 <= i < order.len(),
    ensures
        spec_digi_lines(order, now).len() == order.len(),
        spec_digi_lines(order, now)[i] == spec_digi_line(order[i].0, order[i].1, now),
        spec_ranking_text(digis, now) == spec_join(spec_digi_lines(order, now), "\n"@),
{
    law_ranking_is_unique(order, spec_ranking(digis), digis);
}

} // verus!
