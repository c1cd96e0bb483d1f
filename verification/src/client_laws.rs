//! What the client as a whole can be relied on for.

use vstd::arithmetic::power2::lemma2_to64;
use vstd::prelude::*;
use vstd::utf8::encode_utf8;

use crate::action::{ActionView, UiMsgView};
use crate::aprs::{
    law_parsing_reads_plain_text, law_parsing_reads_rej, law_parsing_reads_reply_ack,
    law_parsing_undoes_ack, law_parsing_undoes_message, law_relayed_packets_are_from_their_origin,
    lemma_built_is_plain, spec_ack_text, spec_format_message, spec_is_addressee, spec_is_from,
    spec_is_message_id, spec_is_no_receipt, spec_message_head, spec_message_text,
    spec_parse_message, spec_reads_as_receipt, spec_relayed, spec_reserved_from, spec_unwrap,
    MessageView, MAX_TEXT, MAX_THIRD_PARTY_DEPTH,
};
use crate::ax25::{law_parsing_undoes_display, AddressView};
use crate::client::{
    spec_addressed_to_me, spec_backoff, spec_cancelled, spec_command, spec_find_id,
    spec_find_pending, spec_kept,
    spec_message_group_filter, spec_new_client, spec_next_deadline, spec_pending_line,
    spec_pending_lines, spec_poll_actions, spec_poll_one,
    spec_poll_one_actions, spec_polled, ClientConfigView, ClientView, OutgoingView, ACK_HOLDOFF, COMMANDS,
    MAX_ID, MAX_TRIES, RETRY_BASE, SEEN_TTL,
};
use crate::clock::{MAX_TIME, SECOND};
use crate::decode::{spec_decode, spec_printable};
use crate::digis::{spec_ranking_text, DigiHeard};
use crate::encoding::spec_debug_text;
use crate::heard::HeardView;
use crate::numeral::{
    law_decimal_reads_back, law_joining_and_filling, lemma_decimal_at_most_five, spec_decimal,
};
use crate::seen::{
    law_copies_are_recognised, law_message_is_remembered_for_half_an_hour,
    law_other_messages_stay_as_new, spec_is_new, spec_register, Seen,
};
use crate::split::{spec_find_space_from, spec_find_text_from};
use crate::text::{
    spec_is_alnum, spec_is_digit, spec_is_graphic, spec_is_space, spec_same_ignoring_case,
    spec_strip_leading, spec_to_lower, spec_to_upper, spec_trim, spec_trim_end, spec_trim_start, spec_upper,
};

verus! {

// ---------------------------------------------------------------------------
// Retries
// ---------------------------------------------------------------------------

/// The first retry comes after 30 seconds; then the wait doubles up to four minutes.
pub proof fn law_retry_schedule(tries: int)
    requires
        tries >= 1,
    ensures
        spec_backoff(1) == 30 * SECOND,
        spec_backoff(tries + 1) == if 2 * spec_backoff(tries) <= 240 * SECOND {
            2 * spec_backoff(tries)
        } else {
            240 * SECOND
        },
{
    lemma2_to64();
    assert(tries == 1 || tries == 2 || tries == 3 || tries >= 4);
}

/// Timers do nothing before the next deadline.
pub proof fn law_poll_waits_for_deadline(client: ClientView, now: u128)
    requires
        client.next_deadline() matches Some(at) ==> now < at,
    ensures
        client.poll(now) == (client, Seq::<ActionView>::empty()),
{
    let n = client.pending.len() as int;
    lemma_poll_early(client.pending, n, now);
    assert(client.pending.take(n) =~= client.pending);
}

proof fn lemma_poll_early(pending: Seq<OutgoingView>, n: int, now: u128)
    requires
        0 <= n <= pending.len(),
        spec_next_deadline(pending, n) matches Some(at) ==> now < at,
    ensures
        spec_polled(pending, n, now) == pending.take(n),
        spec_poll_actions(pending, n, now) == Seq::<ActionView>::empty(),
    decreases n,
{
    if n > 0 {
        lemma_poll_early(pending, n - 1, now);
        assert(pending.take(n) =~= pending.take(n - 1).push(pending[n - 1]));
        assert(spec_poll_actions(pending, n, now) =~= Seq::<ActionView>::empty());
    } else {
        assert(pending.take(0) =~= Seq::<OutgoingView>::empty());
    }
}

/// After timers have run, nothing is overdue: the next deadline lies ahead.
pub proof fn law_poll_leaves_nothing_overdue(client: ClientView, now: u128)
    requires
        now <= MAX_TIME,
        client.valid(),
    ensures
        client.poll(now).0.next_deadline() matches Some(at) ==> now < at,
{
    let n = client.pending.len() as int;
    lemma_polled_ahead(client.pending, n, now);
    let left = spec_polled(client.pending, n, now);
    lemma_deadline_ahead(left, left.len() as int, now);
}

proof fn lemma_backoff_bounds(tries: int)
    requires
        tries >= 1,
    ensures
        RETRY_BASE <= spec_backoff(tries) <= 8 * RETRY_BASE,
{
    lemma2_to64();
    assert(tries == 1 || tries == 2 || tries == 3 || tries >= 4);
}

proof fn lemma_polled_ahead(pending: Seq<OutgoingView>, n: int, now: u128)
    requires
        0 <= n <= pending.len(),
        now <= MAX_TIME,
        forall|i: int| 0 <= i < pending.len() ==> 1 <= (#[trigger] pending[i]).tries <= MAX_TRIES,
    ensures
        forall|i: int|
            0 <= i < spec_polled(pending, n, now).len() ==> (#[trigger] spec_polled(
                pending,
                n,
                now,
            )[i]).next_at > now,
    decreases n,
{
    if n > 0 {
        lemma_polled_ahead(pending, n - 1, now);
        let front = spec_polled(pending, n - 1, now);
        let whole = spec_polled(pending, n, now);
        assert forall|i: int| 0 <= i < whole.len() implies (#[trigger] whole[i]).next_at > now by {
            if i < front.len() {
                assert(whole[i] == front[i]);
            } else {
                assert(1 <= pending[n - 1].tries <= MAX_TRIES);
                lemma_backoff_bounds(pending[n - 1].tries + 1);
            }
        }
    }
}

proof fn lemma_deadline_ahead(pending: Seq<OutgoingView>, n: int, now: u128)
    requires
        0 <= n <= pending.len(),
        forall|i: int| 0 <= i < pending.len() ==> (#[trigger] pending[i]).next_at > now,
    ensures
        spec_next_deadline(pending, n) matches Some(at) ==> now < at,
    decreases n,
{
    if n > 0 {
        lemma_deadline_ahead(pending, n - 1, now);
        assert(pending[n - 1].next_at > now);
    }
}

/// How often a message is sent again when timers run `rounds` times, each time when it is due.
pub open spec fn spec_resent(m: OutgoingView, rounds: nat) -> nat
    decreases rounds,
{
    if rounds == 0 {
        0
    } else {
        match spec_poll_one(m, m.next_at) {
            Some(next) => 1 + spec_resent(next, (rounds - 1) as nat),
            None => 0,
        }
    }
}

/// A message that is never acknowledged uses up all its tries when timers run whenever it is due.
pub proof fn law_unanswered_message_gets_all_its_tries(m: OutgoingView, rounds: nat)
    requires
        1 <= m.tries <= MAX_TRIES,
        m.next_at <= MAX_TIME,
        rounds >= MAX_TRIES,
    ensures
        m.tries + spec_resent(m, rounds) == MAX_TRIES,
{
    lemma_resent(m, rounds);
}

proof fn lemma_resent(m: OutgoingView, rounds: nat)
    requires
        1 <= m.tries <= MAX_TRIES,
        m.next_at <= MAX_TIME + m.tries * 8 * RETRY_BASE,
        rounds > MAX_TRIES - m.tries,
    ensures
        m.tries + spec_resent(m, rounds) == MAX_TRIES,
    decreases rounds,
{
    if m.tries < MAX_TRIES {
        lemma_backoff_bounds(m.tries + 1);
        let next = spec_poll_one(m, m.next_at)->0;
        lemma_resent(next, (rounds - 1) as nat);
    }
}

// ---------------------------------------------------------------------------
// Timers that run at any times
// ---------------------------------------------------------------------------

/// The client after timers ran at each of `times`.
pub open spec fn spec_after_polls(client: ClientView, times: Seq<u128>) -> ClientView
    decreases times.len(),
{
    if times.len() == 0 {
        client
    } else {
        spec_after_polls(client, times.drop_last()).poll(times.last()).0
    }
}

/// All that those runs of the timers did, in order.
pub open spec fn spec_polls(client: ClientView, times: Seq<u128>) -> Seq<ActionView>
    decreases times.len(),
{
    if times.len() == 0 {
        Seq::empty()
    } else {
        spec_polls(client, times.drop_last()) + spec_after_polls(client, times.drop_last()).poll(
            times.last(),
        ).1
    }
}

/// One waiting message after timers ran at each of `times`; `None` once it was given up.
pub open spec fn spec_message_after(m: OutgoingView, times: Seq<u128>) -> Option<OutgoingView>
    decreases times.len(),
{
    if times.len() == 0 {
        Some(m)
    } else {
        match spec_message_after(m, times.drop_last()) {
            Some(left) => spec_poll_one(left, times.last()),
            None => None,
        }
    }
}

/// All that those runs of the timers did about the message.
pub open spec fn spec_message_polls(m: OutgoingView, times: Seq<u128>) -> Seq<ActionView>
    decreases times.len(),
{
    if times.len() == 0 {
        Seq::empty()
    } else {
        spec_message_polls(m, times.drop_last()) + match spec_message_after(m, times.drop_last()) {
            Some(left) => spec_poll_one_actions(left, times.last()),
            None => Seq::empty(),
        }
    }
}

/// How many times `action` occurs among `actions`.
pub open spec fn spec_count(actions: Seq<ActionView>, action: ActionView) -> nat {
    actions.to_multiset().count(action)
}

pub open spec fn spec_gave_up(m: OutgoingView) -> ActionView {
    ActionView::Ui(UiMsgView::GaveUp { to: m.to, id: m.id, tries: MAX_TRIES })
}

/// What timers may do about a message: send it, and tell of it by addressee and id.
pub open spec fn spec_is_about(action: ActionView, m: OutgoingView) -> bool {
    match action {
        ActionView::Send(info) => info == m.info,
        ActionView::Ui(UiMsgView::Retry { to, id, .. }) => to == m.to && id == m.id,
        ActionView::Ui(UiMsgView::GaveUp { to, id, .. }) => to == m.to && id == m.id,
        _ => false,
    }
}

/// Both messages have the same packet, or the same addressee and id.
pub open spec fn spec_alike(a: OutgoingView, b: OutgoingView) -> bool {
    a.info == b.info || (a.to == b.to && a.id == b.id)
}

pub open spec fn spec_as_list(m: Option<OutgoingView>) -> Seq<OutgoingView> {
    match m {
        Some(m) => seq![m],
        None => Seq::empty(),
    }
}

proof fn lemma_count_concat(a: Seq<ActionView>, b: Seq<ActionView>, action: ActionView)
    ensures
        spec_count(a + b, action) == spec_count(a, action) + spec_count(b, action),
{
    vstd::seq_lib::lemma_multiset_commutative(a, b);
}

proof fn lemma_count_absent(actions: Seq<ActionView>, action: ActionView)
    requires
        forall|i: int| 0 <= i < actions.len() ==> #[trigger] actions[i] != action,
    ensures
        spec_count(actions, action) == 0,
{
    actions.to_multiset_ensures();
    assert(!actions.contains(action));
}

proof fn lemma_count_one(other: ActionView, action: ActionView)
    ensures
        spec_count(seq![other], action) == if other == action {
            1nat
        } else {
            0
        },
{
    let one = seq![other];
    one.to_multiset_ensures();
    if other == action {
        assert(one[0] == action);
        assert(one.contains(action));
        assert(one.to_multiset().len() == 1);
        assert(one.to_multiset().count(action) >= 1);
    } else {
        assert(!one.contains(action));
    }
}

/// The first `n` messages are polled without regard to what comes behind them.
proof fn lemma_polled_prefix(front: Seq<OutgoingView>, m: OutgoingView, n: int, now: u128)
    requires
        0 <= n <= front.len(),
    ensures
        spec_polled(front.push(m), n, now) == spec_polled(front, n, now),
        spec_poll_actions(front.push(m), n, now) == spec_poll_actions(front, n, now),
    decreases n,
{
    if n > 0 {
        lemma_polled_prefix(front, m, n - 1, now);
        assert(front.push(m)[n - 1] == front[n - 1]);
    }
}

/// Timers treat each message by itself: with one more message the client keeps what it would keep
/// without it and what is left of that message, and does what it would do without it and what it
/// does about that message.
pub proof fn law_messages_are_retried_independently(
    client: ClientView,
    m: OutgoingView,
    times: Seq<u128>,
    action: ActionView,
)
    ensures
        ({
            let more = ClientView { pending: client.pending.push(m), ..client };
            &&& spec_after_polls(more, times).pending == spec_after_polls(client, times).pending
                + spec_as_list(spec_message_after(m, times))
            &&& spec_count(spec_polls(more, times), action) == spec_count(
                spec_polls(client, times),
                action,
            ) + spec_count(spec_message_polls(m, times), action)
        }),
    decreases times.len(),
{
    let more = ClientView { pending: client.pending.push(m), ..client };
    if times.len() == 0 {
        assert(more.pending =~= client.pending + seq![m]);
        let nothing = Seq::<ActionView>::empty();
        assert(nothing + nothing =~= nothing);
        lemma_count_concat(nothing, nothing, action);
    } else {
        let past = times.drop_last();
        let now = times.last();
        law_messages_are_retried_independently(client, m, past, action);
        let with = spec_after_polls(more, past).pending;
        let front = spec_after_polls(client, past).pending;
        let n = front.len() as int;
        lemma_count_concat(
            spec_polls(more, past),
            spec_after_polls(more, past).poll(now).1,
            action,
        );
        lemma_count_concat(
            spec_polls(client, past),
            spec_after_polls(client, past).poll(now).1,
            action,
        );
        match spec_message_after(m, past) {
            Some(left) => {
                assert(with =~= front.push(left));
                lemma_polled_prefix(front, left, n, now);
                assert(spec_polled(with, n + 1, now) =~= spec_polled(front, n, now) + spec_as_list(
                    spec_poll_one(left, now),
                ));
                lemma_count_concat(
                    spec_poll_actions(front, n, now),
                    spec_poll_one_actions(left, now),
                    action,
                );
                lemma_count_concat(
                    spec_message_polls(m, past),
                    spec_poll_one_actions(left, now),
                    action,
                );
            },
            None => {
                assert(with =~= front);
                let all = spec_message_polls(m, past);
                assert(all + Seq::<ActionView>::empty() =~= all);
                let kept = spec_polled(front, n, now);
                assert(kept + Seq::<OutgoingView>::empty() =~= kept);
            },
        }
    }
}

/// Whenever timers run, a message that waits was sent as often as it counts tries, and one that was
/// given up was sent [`MAX_TRIES`] times in all and given up once.
pub proof fn law_each_message_gets_its_tries(m: OutgoingView, times: Seq<u128>)
    requires
        1 <= m.tries <= MAX_TRIES,
    ensures
        ({
            let done = spec_message_polls(m, times);
            match spec_message_after(m, times) {
                Some(left) => {
                    &&& left.to == m.to && left.id == m.id && left.info == m.info
                    &&& left.tries <= MAX_TRIES
                    &&& m.tries + spec_count(done, ActionView::Send(m.info)) == left.tries
                    &&& spec_count(done, spec_gave_up(m)) == 0
                },
                None => {
                    &&& m.tries + spec_count(done, ActionView::Send(m.info)) == MAX_TRIES
                    &&& spec_count(done, spec_gave_up(m)) == 1
                },
            }
        }),
    decreases times.len(),
{
    let send = ActionView::Send(m.info);
    let gave_up = spec_gave_up(m);
    if times.len() == 0 {
        lemma_count_absent(Seq::empty(), send);
        lemma_count_absent(Seq::empty(), gave_up);
    } else {
        let past = times.drop_last();
        let now = times.last();
        law_each_message_gets_its_tries(m, past);
        let before = spec_message_polls(m, past);
        match spec_message_after(m, past) {
            Some(left) => {
                let step = spec_poll_one_actions(left, now);
                lemma_count_concat(before, step, send);
                lemma_count_concat(before, step, gave_up);
                lemma_message_step(left, now);
            },
            None => {
                assert(before + Seq::<ActionView>::empty() =~= before);
            },
        }
    }
}

/// What one run of the timers does about one message.
proof fn lemma_message_step(m: OutgoingView, now: u128)
    requires
        1 <= m.tries <= MAX_TRIES,
    ensures
        spec_count(spec_poll_one_actions(m, now), ActionView::Send(m.info)) == if m.next_at <= now
            && m.tries < MAX_TRIES {
            1nat
        } else {
            0
        },
        spec_count(spec_poll_one_actions(m, now), spec_gave_up(m)) == if m.next_at <= now && m.tries
            == MAX_TRIES {
            1nat
        } else {
            0
        },
{
    let send = ActionView::Send(m.info);
    let gave_up = spec_gave_up(m);
    let step = spec_poll_one_actions(m, now);
    if m.next_at > now {
        lemma_count_absent(step, send);
        lemma_count_absent(step, gave_up);
    } else if m.tries == MAX_TRIES {
        assert(step =~= seq![gave_up]);
        lemma_count_one(gave_up, send);
        lemma_count_one(gave_up, gave_up);
    } else {
        let retry = step[1];
        assert(step =~= seq![send] + seq![retry]);
        lemma_count_concat(seq![send], seq![retry], send);
        lemma_count_concat(seq![send], seq![retry], gave_up);
        lemma_count_one(send, send);
        lemma_count_one(retry, send);
        lemma_count_one(send, gave_up);
        lemma_count_one(retry, gave_up);
    }
}

/// Where no waiting message is like `m`, a run of the timers does nothing about `m`, and none is
/// like it afterwards.
proof fn lemma_step_of_others(pending: Seq<OutgoingView>, n: int, m: OutgoingView, now: u128)
    requires
        0 <= n <= pending.len(),
        forall|i: int| 0 <= i < pending.len() ==> !spec_alike(#[trigger] pending[i], m),
    ensures
        forall|i: int|
            0 <= i < spec_polled(pending, n, now).len() ==> !spec_alike(
                #[trigger] spec_polled(pending, n, now)[i],
                m,
            ),
        forall|i: int|
            0 <= i < spec_poll_actions(pending, n, now).len() ==> !spec_is_about(
                #[trigger] spec_poll_actions(pending, n, now)[i],
                m,
            ),
    decreases n,
{
    if n > 0 {
        lemma_step_of_others(pending, n - 1, m, now);
        assert(!spec_alike(pending[n - 1], m));
        let kept = spec_polled(pending, n - 1, now);
        let all = spec_polled(pending, n, now);
        assert forall|i: int| 0 <= i < all.len() implies !spec_alike(#[trigger] all[i], m) by {
            if i < kept.len() {
                assert(all[i] == kept[i]);
            }
        }
        let front = spec_poll_actions(pending, n - 1, now);
        let back = spec_poll_one_actions(pending[n - 1], now);
        let whole = front + back;
        assert forall|i: int| 0 <= i < whole.len() implies !spec_is_about(
            #[trigger] whole[i],
            m,
        ) by {
            if i < front.len() {
                assert(whole[i] == front[i]);
            } else {
                assert(whole[i] == back[i - front.len()]);
            }
        }
    }
}

/// As [`lemma_step_of_others`], for any number of runs.
proof fn lemma_polls_of_others(client: ClientView, m: OutgoingView, times: Seq<u128>)
    requires
        forall|i: int| 0 <= i < client.pending.len() ==> !spec_alike(#[trigger] client.pending[i], m),
    ensures
        forall|i: int|
            0 <= i < spec_after_polls(client, times).pending.len() ==> !spec_alike(
                #[trigger] spec_after_polls(client, times).pending[i],
                m,
            ),
        forall|i: int|
            0 <= i < spec_polls(client, times).len() ==> !spec_is_about(
                #[trigger] spec_polls(client, times)[i],
                m,
            ),
    decreases times.len(),
{
    if times.len() > 0 {
        let past = times.drop_last();
        lemma_polls_of_others(client, m, past);
        let before = spec_after_polls(client, past);
        lemma_step_of_others(before.pending, before.pending.len() as int, m, times.last());
        let front = spec_polls(client, past);
        let back = before.poll(times.last()).1;
        let whole = front + back;
        assert forall|i: int| 0 <= i < whole.len() implies !spec_is_about(
            #[trigger] whole[i],
            m,
        ) by {
            if i < front.len() {
                assert(whole[i] == front[i]);
            } else {
                assert(whole[i] == back[i - front.len()]);
            }
        }
    }
}

/// A message that was accepted and is never settled is sent at most [`MAX_TRIES`] times in all,
/// whenever timers run. As long as it waits, it was sent as often as it counts tries, and it was
/// not given up. A run that finds it due sends it once, or, after the last try, gives it up without
/// sending and forgets it. It is given up once, after all its tries, and no later run does anything
/// about it. Left out is a message with the same packet as one that waits already, or with its
/// addressee and id: the two cannot be told apart.
pub proof fn law_unanswered_message_is_given_up_once(
    client: ClientView,
    to: Seq<char>,
    text: Seq<char>,
    sent_at: u128,
    times: Seq<u128>,
    now: u128,
    later: Seq<u128>,
)
    requires
        client.valid(),
        spec_format_message(spec_to_upper(to), text, spec_decimal(client.next_id as nat)) is Ok,
        forall|i: int|
            0 <= i < client.pending.len() ==> !spec_alike(
                #[trigger] client.pending[i],
                client.send_message(to, text, sent_at).0.pending.last(),
            ),
    ensures
        ({
            let (start, first) = client.send_message(to, text, sent_at);
            let m = start.pending.last();
            let end = spec_after_polls(start, times);
            let done = first + spec_polls(start, times);
            let sends = spec_count(done, ActionView::Send(m.info));
            let given_up = spec_count(done, spec_gave_up(m));
            &&& 1 <= sends <= MAX_TRIES
            &&& given_up <= 1
            &&& given_up == 0 ==> {
                let left = end.pending.last();
                let (after, run) = end.poll(now);
                &&& end.pending.len() > 0
                &&& left.to == m.to && left.id == m.id && left.info == m.info
                &&& left.tries == sends
                &&& spec_count(run, ActionView::Send(m.info)) == if left.next_at <= now
                    && left.tries < MAX_TRIES {
                    1nat
                } else {
                    0
                }
                &&& spec_count(run, spec_gave_up(m)) == if left.next_at <= now && left.tries
                    == MAX_TRIES {
                    1nat
                } else {
                    0
                }
                &&& left.next_at <= now && left.tries == MAX_TRIES ==> forall|i: int|
                    0 <= i < after.pending.len() ==> !spec_alike(#[trigger] after.pending[i], m)
            }
            &&& given_up == 1 ==> {
                let after = spec_polls(end, later);
                &&& sends == MAX_TRIES
                &&& forall|i: int|
                    0 <= i < end.pending.len() ==> !spec_alike(#[trigger] end.pending[i], m)
                &&& forall|i: int| 0 <= i < after.len() ==> !spec_is_about(#[trigger] after[i], m)
            }
        }),
{
    let (start, first) = client.send_message(to, text, sent_at);
    let m = start.pending.last();
    let send = ActionView::Send(m.info);
    let gave_up = spec_gave_up(m);
    let end = spec_after_polls(start, times);
    let base = ClientView { pending: client.pending, ..start };
    assert(start == ClientView { pending: base.pending.push(m), ..base });

    // The first try.
    assert(first =~= seq![send] + seq![first[1]]);
    lemma_count_concat(seq![send], seq![first[1]], send);
    lemma_count_concat(seq![send], seq![first[1]], gave_up);
    lemma_count_one(send, send);
    lemma_count_one(first[1], send);
    lemma_count_one(send, gave_up);
    lemma_count_one(first[1], gave_up);

    // The runs of the timers.
    law_messages_are_retried_independently(base, m, times, send);
    law_messages_are_retried_independently(base, m, times, gave_up);
    lemma_polls_of_others(base, m, times);
    lemma_nothing_about(spec_polls(base, times), m);
    law_each_message_gets_its_tries(m, times);
    lemma_count_concat(first, spec_polls(start, times), send);
    lemma_count_concat(first, spec_polls(start, times), gave_up);

    let others = spec_after_polls(base, times).pending;
    match spec_message_after(m, times) {
        Some(left) => {
            assert(end.pending =~= others.push(left));
            let n = others.len() as int;
            lemma_polled_prefix(others, left, n, now);
            lemma_step_of_others(others, n, m, now);
            lemma_nothing_about(spec_poll_actions(others, n, now), m);
            let front = spec_poll_actions(others, n, now);
            let back = spec_poll_one_actions(left, now);
            assert(end.poll(now).1 == front + back);
            assert(spec_poll_one(left, now) is None ==> end.poll(now).0.pending == spec_polled(
                others,
                n,
                now,
            ));
            lemma_count_concat(front, back, send);
            lemma_count_concat(front, back, gave_up);
            lemma_message_step(left, now);
        },
        None => {
            assert(end.pending =~= others);
            lemma_polls_of_others(end, m, later);
        },
    }
}

proof fn lemma_nothing_about(actions: Seq<ActionView>, m: OutgoingView)
    requires
        forall|i: int| 0 <= i < actions.len() ==> !spec_is_about(#[trigger] actions[i], m),
    ensures
        spec_count(actions, ActionView::Send(m.info)) == 0,
        spec_count(actions, spec_gave_up(m)) == 0,
{
    lemma_count_absent(actions, ActionView::Send(m.info));
    lemma_count_absent(actions, spec_gave_up(m));
}

// ---------------------------------------------------------------------------
// Sending
// ---------------------------------------------------------------------------

/// Every number that the client gives to a message is a valid message id.
pub proof fn law_ids_are_valid(n: nat)
    requires
        1 <= n <= MAX_ID,
    ensures
        spec_is_message_id(spec_decimal(n)),
{
    law_decimal_reads_back(n);
    lemma_decimal_at_most_five(n);
    assert forall|i: int| 0 <= i < spec_decimal(n).len() implies spec_is_alnum(
        #[trigger] spec_decimal(n)[i],
    ) by {
        assert(spec_is_digit(spec_decimal(n)[i]));
    }
}

/// A message with a valid addressee and an acceptable text is sent and kept until it is settled.
pub proof fn law_acceptable_message_is_sent(
    client: ClientView,
    to: Seq<char>,
    text: Seq<char>,
    now: u128,
)
    requires
        client.valid(),
        spec_is_addressee(spec_to_upper(to)),
        text.len() > 0,
        encode_utf8(text).len() <= MAX_TEXT,
        spec_reserved_from(text, 0) is None,
    ensures
        ({
            let id = spec_decimal(client.next_id as nat);
            let info = encode_utf8(spec_message_text(spec_to_upper(to), text, id));
            let (after, actions) = client.send_message(to, text, now);
            &&& actions.len() == 2
            &&& actions[0] == ActionView::Send(info)
            &&& after.pending.len() == client.pending.len() + 1
            &&& after.pending.drop_last() == client.pending
            &&& after.pending.last().info == info
            &&& after.pending.last().tries == 1
            &&& after.valid()
        }),
{
    law_ids_are_valid(client.next_id as nat);
    let (after, actions) = client.send_message(to, text, now);
    assert(after.pending.drop_last() =~= client.pending);
    assert forall|i: int| 0 <= i < after.pending.len() implies 1 <= (#[trigger] after.pending[i]).tries
        <= MAX_TRIES by {
        if i < client.pending.len() {
            assert(after.pending[i] == client.pending[i]);
        }
    }
}

/// A message that is refused is answered with the reason; nothing is sent, and nothing waits for
/// an ack that did not wait before.
pub proof fn law_refused_message_is_answered(
    client: ClientView,
    to: Seq<char>,
    text: Seq<char>,
    now: u128,
)
    requires
        spec_format_message(spec_to_upper(to), text, spec_decimal(client.next_id as nat)) is Err,
    ensures
        ({
            let id = spec_decimal(client.next_id as nat);
            let reason = spec_format_message(spec_to_upper(to), text, id)->Err_0;
            let (after, actions) = client.send_message(to, text, now);
            &&& actions == seq![ActionView::Ui(UiMsgView::Error("not sent: "@ + reason))]
            &&& after.pending == client.pending
        }),
{
}

/// Two messages in a row have different ids.
pub proof fn law_next_id_is_another(client: ClientView, to: Seq<char>, text: Seq<char>, now: u128)
    requires
        client.valid(),
    ensures
        ({
            let after = client.send_message(to, text, now).0;
            &&& 1 <= after.next_id <= MAX_ID
            &&& spec_decimal(after.next_id as nat) != spec_decimal(client.next_id as nat)
        }),
{
    let after = client.send_message(to, text, now).0;
    law_decimal_reads_back(client.next_id as nat);
    law_decimal_reads_back(after.next_id as nat);
}

// ---------------------------------------------------------------------------
// Receiving
// ---------------------------------------------------------------------------

/// A numbered message that is new is shown and acknowledged, and the ack reads as one for it.
pub proof fn law_new_message_is_shown_and_acked(
    client: ClientView,
    from: Seq<char>,
    text: Seq<char>,
    id: Seq<char>,
    route: Seq<char>,
    now: u128,
)
    requires
        spec_is_addressee(from),
        spec_is_message_id(id),
        spec_is_new(client.seen, (spec_to_upper(from), id), now),
    ensures
        ({
            let ack = encode_utf8(spec_ack_text(from, id));
            &&& client.on_text(from, text, Some(id), route, now).1 == seq![
                ActionView::Ui(UiMsgView::Incoming { from, text, id: Some(id), route }),
                ActionView::Send(ack),
            ]
            &&& spec_parse_message(ack) == Some(MessageView::Ack { to: from, id })
        }),
{
    law_parsing_undoes_ack(from, id);
    assert(client.on_text(from, text, Some(id), route, now).1 =~= seq![
        ActionView::Ui(UiMsgView::Incoming { from, text, id: Some(id), route }),
        ActionView::Send(encode_utf8(spec_ack_text(from, id))),
    ]);
}

/// A copy of a numbered message is not shown again while the first is remembered, and within the
/// holdoff it is not acknowledged again either.
pub proof fn law_copy_is_not_shown_again(
    client: ClientView,
    from: Seq<char>,
    text: Seq<char>,
    id: Seq<char>,
    route: Seq<char>,
    now: u128,
    later: u128,
)
    requires
        spec_is_new(client.seen, (spec_to_upper(from), id), now),
        now <= later,
        later - now < SEEN_TTL,
    ensures
        ({
            let once = client.on_text(from, text, Some(id), route, now).0;
            let again = once.on_text(from, text, Some(id), route, later).1;
            &&& forall|i: int|
                0 <= i < again.len() ==> !((#[trigger] again[i]) matches ActionView::Ui(
                    UiMsgView::Incoming { .. },
                ))
            &&& later - now < ACK_HOLDOFF ==> again == Seq::<ActionView>::empty()
        }),
{
    law_copies_are_recognised(client.seen, (spec_to_upper(from), id), now, later);
    let once = client.on_text(from, text, Some(id), route, now).0;
    let again = once.on_text(from, text, Some(id), route, later).1;
    if later - now < ACK_HOLDOFF {
        assert(again =~= Seq::<ActionView>::empty());
    }
}

/// A packet that nothing is owed for: our own, no message, or a message for someone else. It is
/// looked at as it is inside its third-party wrappers.
pub open spec fn spec_is_not_for_us(client: ClientView, heard: HeardView) -> bool {
    let (source, info) = spec_unwrap(heard.source, heard.info, MAX_THIRD_PARTY_DEPTH as int);
    ||| spec_same_ignoring_case(source, client.mycall())
    ||| match spec_parse_message(info) {
        Some(MessageView::Text { to, .. }) => !spec_addressed_to_me(client.call, to),
        Some(MessageView::Ack { to, .. }) => !spec_addressed_to_me(client.call, to),
        Some(MessageView::Rej { to, .. }) => !spec_addressed_to_me(client.call, to),
        None => true,
    }
}

/// Something that only a packet for us may lead to.
pub open spec fn spec_is_reaction(action: ActionView) -> bool {
    match action {
        ActionView::Ui(UiMsgView::Incoming { .. }) => true,
        ActionView::Ui(UiMsgView::Delivered { .. }) => true,
        ActionView::Ui(UiMsgView::Rejected { .. }) => true,
        ActionView::Ui(_) => false,
        ActionView::Send(_) => true,
        ActionView::Quit => true,
    }
}

/// Our own packets that come back, packets that are no messages, and messages for other stations
/// are never answered and never shown as messages, and they settle nothing that waits for an ack.
pub proof fn law_other_traffic_settles_nothing(client: ClientView, heard: HeardView, now: u128)
    requires
        spec_is_not_for_us(client, heard),
    ensures
        ({
            let (after, actions) = client.on_heard(heard, now);
            &&& after.pending.len() == client.pending.len()
            &&& forall|i: int| 0 <= i < actions.len() ==> !spec_is_reaction(#[trigger] actions[i])
        }),
{
    let info = spec_unwrap(heard.source, heard.info, MAX_THIRD_PARTY_DEPTH as int).1;
    if let Some(MessageView::Text { id: Some(id), .. }) = spec_parse_message(info) {
        lemma_found_id(client.pending, id, 0);
    }
}

proof fn lemma_found_id(pending: Seq<OutgoingView>, id: Seq<char>, start: int)
    ensures
        spec_find_id(pending, id, start) matches Some(i) ==> 0 <= i < pending.len(),
    decreases pending.len() - start,
{
    if 0 <= start < pending.len() {
        lemma_found_id(pending, id, start + 1);
    }
}

// ---------------------------------------------------------------------------
// Cancelling
// ---------------------------------------------------------------------------

/// Cancelling a message leaves exactly the others, and cancelling all leaves none.
pub proof fn law_cancel_leaves_the_others(client: ClientView, which: Seq<char>)
    requires
        spec_strip_leading(spec_trim(which), '#').len() > 0,
    ensures
        ({
            let id = spec_strip_leading(spec_trim(which), '#');
            let left = client.cancel(which).0.pending;
            if spec_same_ignoring_case(id, "all"@) {
                left.len() == 0
            } else {
                left == client.pending.filter(|m: OutgoingView| m.id != id)
            }
        }),
{
    let id = spec_strip_leading(spec_trim(which), '#');
    let all = spec_same_ignoring_case(id, "all"@);
    let n = client.pending.len() as int;
    lemma_kept(client.pending, n, all, id);
    assert(client.pending.take(n) =~= client.pending);
}

proof fn lemma_kept(pending: Seq<OutgoingView>, n: int, all: bool, which: Seq<char>)
    requires
        0 <= n <= pending.len(),
    ensures
        all ==> spec_kept(pending, n, all, which).len() == 0,
        !all ==> spec_kept(pending, n, all, which) == pending.take(n).filter(
            |m: OutgoingView| m.id != which,
        ),
    decreases n,
{
    reveal(Seq::filter);
    if n > 0 {
        lemma_kept(pending, n - 1, all, which);
        assert(pending.take(n).drop_last() =~= pending.take(n - 1));
    } else {
        assert(pending.take(0) =~= Seq::<OutgoingView>::empty());
    }
}

// ---------------------------------------------------------------------------
// Addressing
// ---------------------------------------------------------------------------

/// A station's own name: valid and in upper case.
pub open spec fn spec_is_station(a: AddressView) -> bool {
    a.valid() && spec_to_upper(a.call) == a.call
}

/// A station's name fits an addressee, is in upper case and has no white space around it.
pub proof fn lemma_station_name(a: AddressView)
    requires
        spec_is_station(a),
    ensures
        spec_is_addressee(a.text()),
        spec_to_upper(a.text()) == a.text(),
        spec_trim(a.text()) == a.text(),
{
    let text = a.text();
    let numeral = spec_decimal(a.ssid as nat);
    reveal_strlit("-");
    law_decimal_reads_back(a.ssid as nat);
    reveal_with_fuel(spec_decimal, 3);
    assert(numeral.len() <= 2);
    assert forall|i: int| 0 <= i < text.len() implies spec_is_graphic(#[trigger] text[i]) && text[i]
        != ':' && spec_upper(text[i]) == text[i] by {
        if i < a.call.len() {
            assert(text[i] == a.call[i]);
            assert(spec_is_alnum(a.call[i]));
            assert(spec_to_upper(a.call)[i] == a.call[i]);
        } else if i > a.call.len() {
            assert(text[i] == numeral[i - a.call.len() - 1]);
            assert(spec_is_digit(numeral[i - a.call.len() - 1]));
        }
    }
    assert(spec_to_upper(text) =~= text);
    assert(spec_is_graphic(text[0]));
    assert(spec_is_graphic(text.last()));
}

/// A station without SSID receives what is addressed to any SSID of its call; one with an SSID
/// receives what is addressed to exactly itself.
pub proof fn law_addressing(mine: AddressView, other: AddressView)
    requires
        spec_is_station(mine),
        spec_is_station(other),
    ensures
        mine.ssid == 0 ==> (spec_addressed_to_me(mine, other.text()) <==> other.call == mine.call),
        mine.ssid != 0 ==> (spec_addressed_to_me(mine, other.text()) <==> other == mine),
{
    lemma_station_name(mine);
    lemma_station_name(other);
    law_parsing_undoes_display(mine);
    law_parsing_undoes_display(other);
}

/// The filter that is told to an APRS-IS server always asks for the station's own messages, for
/// every SSID where it has none, whatever else it asks for.
pub proof fn law_filter_asks_for_own_messages(mine: AddressView, extra: Seq<char>)
    requires
        mine.valid(),
    ensures
        ({
            let group = if mine.ssid == 0 {
                "g/"@ + mine.call + "*"@
            } else {
                "g/"@ + mine.text()
            };
            &&& group.is_prefix_of(spec_message_group_filter(mine, extra))
            &&& extra.len() == 0 ==> spec_message_group_filter(mine, extra) == group
        }),
{
    reveal_strlit("g/");
    reveal_strlit("*");
    reveal_strlit("-");
    reveal_strlit(" ");
    let group = if mine.ssid == 0 {
        "g/"@ + mine.call + "*"@
    } else {
        "g/"@ + mine.text()
    };
    law_decimal_reads_back(mine.ssid as nat);
    assert(mine.ssid != 0 ==> spec_is_digit(spec_decimal(mine.ssid as nat).last()));
    assert(mine.ssid != 0 ==> group.last() == spec_decimal(mine.ssid as nat).last());
    assert(!spec_is_space(group.last()));
    assert(group[0] == 'g');
    let whole = group + " "@ + extra;
    assert(spec_trim_start(whole) == whole);
    assert(whole.take(group.len() as int) =~= group);
    lemma_trim_end_keeps(group, whole);
    if extra.len() == 0 {
        assert(whole.drop_last() =~= group);
        reveal_with_fuel(spec_trim_end, 3);
    }
}

/// Trimming does not reach into a text that ends in something else than white space.
proof fn lemma_trim_end_keeps(front: Seq<char>, whole: Seq<char>)
    requires
        0 < front.len() <= whole.len(),
        whole.take(front.len() as int) == front,
        !spec_is_space(front.last()),
    ensures
        front.is_prefix_of(spec_trim_end(whole)),
    decreases whole.len(),
{
    if whole.len() > front.len() && spec_is_space(whole.last()) {
        assert(whole.drop_last().take(front.len() as int) =~= front);
        lemma_trim_end_keeps(front, whole.drop_last());
    } else {
        assert(whole.len() == front.len() ==> whole =~= front);
        assert(spec_trim_end(whole) == whole);
        assert(whole.subrange(0, front.len() as int) =~= front);
    }
}

// ---------------------------------------------------------------------------
// A whole exchange
// ---------------------------------------------------------------------------

/// What one message from `alice` to `bob` and its ack lead to.
pub open spec fn spec_exchange_settles(
    alice: ClientView,
    bob: ClientView,
    text: Seq<char>,
    to_bob: HeardView,
    to_alice: HeardView,
    sent_at: u128,
    received_at: u128,
    acked_at: u128,
) -> bool {
    let id = spec_decimal(alice.next_id as nat);
    let (waiting, sent) = alice.send_message(bob.mycall(), text, sent_at);
    let (_, received) = bob.on_heard(to_bob, received_at);
    let (settled, acked) = waiting.on_heard(to_alice, acked_at);
    &&& sent[0] == ActionView::Send(to_bob.info)
    &&& received == bob.raw_line(to_bob) + seq![
        ActionView::Ui(
            UiMsgView::Incoming {
                from: alice.mycall(),
                text,
                id: Some(id),
                route: to_bob.route(),
            },
        ),
        ActionView::Send(to_alice.info),
    ]
    &&& acked == waiting.raw_line(to_alice) + seq![
        ActionView::Ui(UiMsgView::Delivered { from: bob.mycall(), id, tries: 1 }),
    ]
    &&& settled.pending == alice.pending
}

/// A message between two stations is delivered: what the sender transmits is shown at the
/// receiver with its text and id, the receiver transmits an ack, and on that ack the sender
/// reports the delivery and stops waiting. Left out are texts that themselves read as an ack or
/// a rej, an id that still waits for an ack from the same station, and a message that the receiver
/// remembers having seen.
pub proof fn law_exchange_delivers(
    alice: ClientView,
    bob: ClientView,
    text: Seq<char>,
    to_bob: HeardView,
    to_alice: HeardView,
    sent_at: u128,
    received_at: u128,
    acked_at: u128,
)
    requires
        alice.valid(),
        spec_is_station(alice.call),
        spec_is_station(bob.call),
        alice.call != bob.call,
        text.len() > 0,
        encode_utf8(text).len() <= MAX_TEXT,
        spec_reserved_from(text, 0) is None,
        !spec_reads_as_receipt(text),
        forall|i: int|
            0 <= i < alice.pending.len() ==> (#[trigger] alice.pending[i]).id != spec_decimal(
                alice.next_id as nat,
            ) || !spec_same_ignoring_case(alice.pending[i].to, bob.mycall()),
        spec_is_new(bob.seen, (alice.mycall(), spec_decimal(alice.next_id as nat)), received_at),
        to_bob.source == alice.mycall(),
        to_bob.info == encode_utf8(
            spec_message_text(bob.mycall(), text, spec_decimal(alice.next_id as nat)),
        ),
        to_alice.source == bob.mycall(),
        to_alice.info == encode_utf8(
            spec_ack_text(alice.mycall(), spec_decimal(alice.next_id as nat)),
        ),
    ensures
        spec_exchange_settles(
            alice,
            bob,
            text,
            to_bob,
            to_alice,
            sent_at,
            received_at,
            acked_at,
        ),
{
    let id = spec_decimal(alice.next_id as nat);
    let a = alice.mycall();
    let b = bob.mycall();
    lemma_station_name(alice.call);
    lemma_station_name(bob.call);
    law_ids_are_valid(alice.next_id as nat);
    assert(a != b) by {
        law_parsing_undoes_display(alice.call);
        law_parsing_undoes_display(bob.call);
    }

    // The message, as the receiver reads it.
    law_acceptable_message_is_sent(alice, b, text, sent_at);
    law_parsing_undoes_message(b, text, id);
    assert(spec_message_text(b, text, id) =~= spec_message_head(b) + (text + "{"@ + id));
    lemma_built_is_plain(a, b, text + "{"@ + id, MAX_THIRD_PARTY_DEPTH as int);
    law_addressing(bob.call, bob.call);
    let counted = bob.with_digi(to_bob, received_at);
    law_new_message_is_shown_and_acked(counted, a, text, id, to_bob.route(), received_at);
    let shown = counted.on_text(a, text, Some(id), to_bob.route(), received_at).1;
    assert(Seq::<ActionView>::empty() + shown =~= shown);
    assert(bob.on_heard(to_bob, received_at).1 =~= bob.raw_line(to_bob) + shown);

    // The ack, as the sender reads it.
    law_parsing_undoes_ack(a, id);
    assert(spec_ack_text(a, id) =~= spec_message_head(a) + ("ack"@ + id));
    lemma_built_is_plain(b, a, "ack"@ + id, MAX_THIRD_PARTY_DEPTH as int);
    law_addressing(alice.call, alice.call);
    let waiting = alice.send_message(b, text, sent_at).0;
    let last = alice.pending.len() as int;
    assert forall|i: int| 0 <= i < last implies waiting.pending[i] == #[trigger] alice.pending[i] by {}
    lemma_find_pending_last(waiting.pending, b, id, 0);
    assert(waiting.pending.remove(last) =~= alice.pending);
}

/// A message that is the only one to `to` under `id` is the one that is found.
proof fn lemma_find_pending_last(
    pending: Seq<OutgoingView>,
    to: Seq<char>,
    id: Seq<char>,
    start: int,
)
    requires
        0 <= start < pending.len(),
        pending.last().id == id,
        spec_same_ignoring_case(pending.last().to, to),
        forall|i: int|
            0 <= i < pending.len() - 1 ==> (#[trigger] pending[i]).id != id
                || !spec_same_ignoring_case(pending[i].to, to),
    ensures
        spec_find_pending(pending, to, id, start) == Some(pending.len() - 1),
    decreases pending.len() - start,
{
    if start < pending.len() - 1 {
        assert(pending[start].id != id || !spec_same_ignoring_case(pending[start].to, to));
        lemma_find_pending_last(pending, to, id, start + 1);
    }
}

// ---------------------------------------------------------------------------
// Packets from their origin
// ---------------------------------------------------------------------------

/// `heard` carries `body` in a message to `client`, inside the wrappers `headers`, from `origin`,
/// which is not the client itself.
pub open spec fn spec_brings(
    client: ClientView,
    heard: HeardView,
    headers: Seq<Seq<u8>>,
    origin: Seq<char>,
    body: Seq<char>,
) -> bool {
    &&& spec_is_station(client.call)
    &&& headers.len() <= 3
    &&& spec_is_from(heard.source, headers, origin)
    &&& !spec_same_ignoring_case(origin, client.mycall())
    &&& heard.info == spec_relayed(headers, encode_utf8(spec_message_head(client.mycall()) + body))
}

/// The message at `k` is the first that waits for an ack from `origin` under `id`.
pub open spec fn spec_waits_at(client: ClientView, origin: Seq<char>, id: Seq<char>, k: int) -> bool {
    &&& 0 <= k < client.pending.len()
    &&& client.pending[k].id == id
    &&& spec_same_ignoring_case(client.pending[k].to, origin)
    &&& forall|i: int|
        0 <= i < k ==> !((#[trigger] client.pending[i]).id == id && spec_same_ignoring_case(
            client.pending[i].to,
            origin,
        ))
}

/// No message waits for an ack from `origin` under `id`.
pub open spec fn spec_none_waits(client: ClientView, origin: Seq<char>, id: Seq<char>) -> bool {
    forall|i: int|
        0 <= i < client.pending.len() ==> !((#[trigger] client.pending[i]).id == id
            && spec_same_ignoring_case(client.pending[i].to, origin))
}

/// How a packet inside wrappers, or without any, reached us.
pub open spec fn spec_way(heard: HeardView, headers: Seq<Seq<u8>>) -> Seq<char> {
    if headers.len() > 0 {
        "iGate "@ + heard.source
    } else {
        heard.route()
    }
}

proof fn lemma_brought(
    client: ClientView,
    heard: HeardView,
    headers: Seq<Seq<u8>>,
    origin: Seq<char>,
    body: Seq<char>,
)
    requires
        spec_brings(client, heard, headers, origin, body),
    ensures
        spec_is_addressee(client.mycall()),
        spec_unwrap(heard.source, heard.info, MAX_THIRD_PARTY_DEPTH as int) == (
            origin,
            encode_utf8(spec_message_head(client.mycall()) + body),
        ),
        spec_addressed_to_me(client.call, client.mycall()),
        heard.route() == spec_way(heard, headers),
{
    reveal_strlit(":");
    let text = spec_message_head(client.mycall()) + body;
    let info = encode_utf8(text);
    lemma_station_name(client.call);
    law_addressing(client.call, client.call);
    assert(text =~= ":"@ + text.skip(1));
    crate::encoding::lemma_encode_concat(":"@, text.skip(1));
    vstd::utf8::is_ascii_chars_encode_utf8(":"@);
    assert(info[0] == ':' as u8);
    law_relayed_packets_are_from_their_origin(heard.source, headers, origin, info);
    if headers.len() > 0 {
        assert(heard.info[0] == '}' as u8);
    }
}

proof fn lemma_find_waiting(pending: Seq<OutgoingView>, to: Seq<char>, id: Seq<char>, start: int)
    requires
        0 <= start,
    ensures
        match spec_find_pending(pending, to, id, start) {
            Some(k) => {
                &&& start <= k < pending.len()
                &&& pending[k].id == id && spec_same_ignoring_case(pending[k].to, to)
                &&& forall|i: int|
                    start <= i < k ==> !((#[trigger] pending[i]).id == id
                        && spec_same_ignoring_case(pending[i].to, to))
            },
            None => forall|i: int|
                start <= i < pending.len() ==> !((#[trigger] pending[i]).id == id
                    && spec_same_ignoring_case(pending[i].to, to)),
        },
    decreases pending.len() - start,
{
    if start < pending.len() {
        lemma_find_waiting(pending, to, id, start + 1);
    }
}

/// An ack settles the message that waits for it by the station that it is from, whoever relayed it:
/// the delivery is reported and the message stops waiting. An ack from another station, or for
/// another id, settles nothing.
pub proof fn law_ack_settles_by_its_origin(
    client: ClientView,
    heard: HeardView,
    headers: Seq<Seq<u8>>,
    origin: Seq<char>,
    id: Seq<char>,
    k: int,
    now: u128,
)
    requires
        spec_brings(client, heard, headers, origin, "ack"@ + id),
        spec_is_message_id(id),
    ensures
        ({
            let (after, actions) = client.on_heard(heard, now);
            &&& spec_waits_at(client, origin, id, k) ==> {
                &&& actions == client.raw_line(heard) + seq![
                    ActionView::Ui(
                        UiMsgView::Delivered { from: origin, id, tries: client.pending[k].tries },
                    ),
                ]
                &&& after.pending == client.pending.remove(k)
            }
            &&& spec_none_waits(client, origin, id) ==> {
                &&& actions == client.raw_line(heard)
                &&& after.pending == client.pending
            }
        }),
{
    let me = client.mycall();
    lemma_brought(client, heard, headers, origin, "ack"@ + id);
    law_parsing_undoes_ack(me, id);
    assert(spec_ack_text(me, id) =~= spec_message_head(me) + ("ack"@ + id));
    lemma_find_waiting(client.pending, origin, id, 0);
    let raw = client.raw_line(heard);
    assert(raw + Seq::<ActionView>::empty() =~= raw);
    if spec_waits_at(client, origin, id, k) {
        let found = spec_find_pending(client.pending, origin, id, 0)->0;
        assert(found == k) by {
            if found < k {
                assert(client.pending[found].id == id);
            }
            if k < found {
                assert(client.pending[k].id == id);
            }
        }
    }
}

/// A rej ends the message that it names by the station that it is from, whoever relayed it.
pub proof fn law_rej_settles_by_its_origin(
    client: ClientView,
    heard: HeardView,
    headers: Seq<Seq<u8>>,
    origin: Seq<char>,
    id: Seq<char>,
    k: int,
    now: u128,
)
    requires
        spec_brings(client, heard, headers, origin, "rej"@ + id),
        spec_is_message_id(id),
    ensures
        ({
            let (after, actions) = client.on_heard(heard, now);
            &&& spec_waits_at(client, origin, id, k) ==> {
                &&& actions == client.raw_line(heard) + seq![
                    ActionView::Ui(UiMsgView::Rejected { from: origin, id }),
                ]
                &&& after.pending == client.pending.remove(k)
            }
            &&& spec_none_waits(client, origin, id) ==> {
                &&& actions == client.raw_line(heard)
                &&& after.pending == client.pending
            }
        }),
{
    lemma_brought(client, heard, headers, origin, "rej"@ + id);
    law_parsing_reads_rej(client.mycall(), id);
    lemma_find_waiting(client.pending, origin, id, 0);
    let raw = client.raw_line(heard);
    assert(raw + Seq::<ActionView>::empty() =~= raw);
    if spec_waits_at(client, origin, id, k) {
        let found = spec_find_pending(client.pending, origin, id, 0)->0;
        assert(found == k) by {
            if found < k {
                assert(client.pending[found].id == id);
            }
            if k < found {
                assert(client.pending[k].id == id);
            }
        }
    }
}

/// A numbered message is shown with the station that it is from, whoever relayed it, and the ack
/// goes to that station; a copy within ten seconds leads to nothing, and one within half an hour to
/// another ack only.
pub proof fn law_message_is_shown_by_its_origin(
    client: ClientView,
    heard: HeardView,
    headers: Seq<Seq<u8>>,
    origin: Seq<char>,
    text: Seq<char>,
    id: Seq<char>,
    now: u128,
    later: u128,
)
    requires
        spec_brings(client, heard, headers, origin, text + "{"@ + id),
        spec_format_message(client.mycall(), text, id) is Ok,
        !spec_reads_as_receipt(text),
        spec_is_addressee(origin),
        spec_is_new(client.seen, (spec_to_upper(origin), id), now),
        now <= later,
        later - now < 1_800_000_000_000,
    ensures
        ({
            let (after, actions) = client.on_heard(heard, now);
            let again = after.on_heard(heard, later).1;
            let ack = ActionView::Send(encode_utf8(spec_ack_text(origin, id)));
            let shown = ActionView::Ui(
                UiMsgView::Incoming {
                    from: origin,
                    text,
                    id: Some(id),
                    route: spec_way(heard, headers),
                },
            );
            &&& actions == client.raw_line(heard) + seq![shown, ack]
            &&& after.pending == client.pending
            &&& again == client.raw_line(heard) + if later - now < 10_000_000_000 {
                seq![]
            } else {
                seq![ack]
            }
        }),
{
    let me = client.mycall();
    let key = (spec_to_upper(origin), id);
    lemma_brought(client, heard, headers, origin, text + "{"@ + id);
    law_parsing_undoes_message(me, text, id);
    assert(spec_message_text(me, text, id) =~= spec_message_head(me) + (text + "{"@ + id));
    let route = heard.route();
    law_new_message_is_shown_and_acked(client, origin, text, id, route, now);
    law_message_is_remembered_for_half_an_hour(client.seen, key, now, later, later);
    let none = Seq::<ActionView>::empty();
    let counted = client.with_digi(heard, now);
    let first = counted.on_text(origin, text, Some(id), route, now).1;
    assert(none + first =~= first);
    let shown = client.on_text(origin, text, Some(id), route, now).1;
    assert(first =~= shown);
    let after = client.on_heard(heard, now).0;
    let recounted = after.with_digi(heard, later);
    let second = recounted.on_text(origin, text, Some(id), route, later).1;
    assert(none + second =~= second);
    assert(after.raw_line(heard) == client.raw_line(heard));
    let ack = ActionView::Send(encode_utf8(spec_ack_text(origin, id)));
    if later - now < 10_000_000_000 {
        assert(second =~= none);
    } else {
        assert(second =~= seq![ack]);
    }
}

/// A message never hides another one: after one message was received, a message with another id or
/// of another station is shown and acknowledged as it would have been without the first.
#[verifier::spinoff_prover]
#[verifier::rlimit(60)]
pub proof fn law_one_message_does_not_hide_another(
    client: ClientView,
    first: HeardView,
    second: HeardView,
    headers: Seq<Seq<u8>>,
    origin: Seq<char>,
    text: Seq<char>,
    id: Seq<char>,
    now: u128,
    later: u128,
)
    requires
        spec_brings(client, second, headers, origin, text + "{"@ + id),
        spec_format_message(client.mycall(), text, id) is Ok,
        !spec_reads_as_receipt(text),
        spec_is_addressee(origin),
        spec_is_new(client.seen, (spec_to_upper(origin), id), later),
        now <= later,
        ({
            let (from, info) = spec_unwrap(first.source, first.info, MAX_THIRD_PARTY_DEPTH as int);
            match spec_parse_message(info) {
                Some(MessageView::Text { id: Some(other), .. }) => (spec_to_upper(from), other) != (
                    spec_to_upper(origin),
                    id,
                ),
                _ => true,
            }
        }),
    ensures
        ({
            let after = client.on_heard(first, now).0;
            after.on_heard(second, later).1 == client.raw_line(second) + seq![
                ActionView::Ui(
                    UiMsgView::Incoming {
                        from: origin,
                        text,
                        id: Some(id),
                        route: spec_way(second, headers),
                    },
                ),
                ActionView::Send(encode_utf8(spec_ack_text(origin, id))),
            ]
        }),
{
    let after = client.on_heard(first, now).0;
    let key = (spec_to_upper(origin), id);
    let (from, info) = spec_unwrap(first.source, first.info, MAX_THIRD_PARTY_DEPTH as int);
    lemma_seen_after(client, first, now);
    if let Some(MessageView::Text { id: Some(other), .. }) = spec_parse_message(info) {
        law_other_messages_stay_as_new(client.seen, (spec_to_upper(from), other), key, now, later);
    }
    lemma_shown_as_new(client, after, second, headers, origin, text, id, later);
}

/// A client that is in another state shows a message as new just as well.
proof fn lemma_shown_as_new(
    client: ClientView,
    after: ClientView,
    heard: HeardView,
    headers: Seq<Seq<u8>>,
    origin: Seq<char>,
    text: Seq<char>,
    id: Seq<char>,
    now: u128,
)
    requires
        after.call == client.call && after.raw == client.raw,
        spec_brings(client, heard, headers, origin, text + "{"@ + id),
        spec_format_message(client.mycall(), text, id) is Ok,
        !spec_reads_as_receipt(text),
        spec_is_addressee(origin),
        spec_is_new(after.seen, (spec_to_upper(origin), id), now),
    ensures
        after.on_heard(heard, now).1 == client.raw_line(heard) + seq![
            ActionView::Ui(
                UiMsgView::Incoming {
                    from: origin,
                    text,
                    id: Some(id),
                    route: spec_way(heard, headers),
                },
            ),
            ActionView::Send(encode_utf8(spec_ack_text(origin, id))),
        ],
{
    assert(after.raw_line(heard) == client.raw_line(heard));
    law_message_is_shown_by_its_origin(after, heard, headers, origin, text, id, now, now);
}

/// A packet leaves what was seen as it is, unless it is a numbered message, which is registered.
#[verifier::spinoff_prover]
#[verifier::rlimit(40)]
proof fn lemma_seen_after(client: ClientView, heard: HeardView, now: u128)
    ensures
        ({
            let after = client.on_heard(heard, now).0;
            let (from, info) = spec_unwrap(heard.source, heard.info, MAX_THIRD_PARTY_DEPTH as int);
            &&& after.call == client.call && after.raw == client.raw
            &&& match spec_parse_message(info) {
                Some(MessageView::Text { id: Some(id), .. }) => after.seen == client.seen
                    || after.seen == spec_register(client.seen, (spec_to_upper(from), id), now),
                _ => after.seen == client.seen,
            }
        }),
{
}

/// A reply that carries an ack settles the message that it names and is shown and acknowledged
/// itself, by the station that it is from.
pub proof fn law_reply_carries_an_ack(
    client: ClientView,
    heard: HeardView,
    headers: Seq<Seq<u8>>,
    origin: Seq<char>,
    text: Seq<char>,
    id: Seq<char>,
    acked: Seq<char>,
    k: int,
    now: u128,
)
    requires
        spec_brings(client, heard, headers, origin, text + "{"@ + id + "}"@ + acked),
        spec_is_message_id(id),
        spec_is_message_id(acked),
        spec_is_no_receipt(text + "{"@ + id),
        spec_is_addressee(origin),
        spec_is_new(client.seen, (spec_to_upper(origin), id), now),
        spec_waits_at(client, origin, acked, k),
    ensures
        ({
            let (after, actions) = client.on_heard(heard, now);
            &&& actions == client.raw_line(heard) + seq![
                ActionView::Ui(
                    UiMsgView::Delivered {
                        from: origin,
                        id: acked,
                        tries: client.pending[k].tries,
                    },
                ),
                ActionView::Ui(
                    UiMsgView::Incoming {
                        from: origin,
                        text,
                        id: Some(id),
                        route: spec_way(heard, headers),
                    },
                ),
                ActionView::Send(encode_utf8(spec_ack_text(origin, id))),
            ]
            &&& after.pending == client.pending.remove(k)
        }),
{
    let me = client.mycall();
    lemma_brought(client, heard, headers, origin, text + "{"@ + id + "}"@ + acked);
    law_parsing_reads_reply_ack(me, text, id, acked);
    lemma_find_waiting(client.pending, origin, acked, 0);
    let found = spec_find_pending(client.pending, origin, acked, 0)->0;
    assert(found == k) by {
        if found < k {
            assert(client.pending[found].id == acked);
        }
        if k < found {
            assert(client.pending[k].id == acked);
        }
    }
    let route = heard.route();
    let (settled, first) = client.with_digi(heard, now).on_ack(origin, acked);
    law_new_message_is_shown_and_acked(settled, origin, text, id, route, now);
    let second = settled.on_text(origin, text, Some(id), route, now).1;
    assert(first + second =~= seq![first[0], second[0], second[1]]);
    assert(client.on_heard(heard, now).1 == client.raw_line(heard) + (first + second));
}

/// A message without an id is shown each time and never acknowledged.
pub proof fn law_unnumbered_message_is_shown(
    client: ClientView,
    heard: HeardView,
    headers: Seq<Seq<u8>>,
    origin: Seq<char>,
    text: Seq<char>,
    now: u128,
)
    requires
        spec_brings(client, heard, headers, origin, text),
        text.len() > 0,
        text.last() != '\r' && text.last() != '\n',
        !text.contains('{'),
        spec_is_no_receipt(text),
    ensures
        ({
            let (after, actions) = client.on_heard(heard, now);
            &&& actions == client.raw_line(heard) + seq![
                ActionView::Ui(
                    UiMsgView::Incoming {
                        from: origin,
                        text,
                        id: None,
                        route: spec_way(heard, headers),
                    },
                ),
            ]
            &&& after.pending == client.pending && after.seen == client.seen
        }),
{
    lemma_brought(client, heard, headers, origin, text);
    law_parsing_reads_plain_text(client.mycall(), text);
    let counted = client.with_digi(heard, now);
    let shown = counted.on_text(origin, text, None, heard.route(), now).1;
    assert(Seq::<ActionView>::empty() + shown =~= shown);
}

/// A digipeater that repeats one of our packets is told once for each waiting message: the first
/// time it is reported, and after that not again.
pub proof fn law_repeats_are_told_once(
    client: ClientView,
    heard: HeardView,
    to: Seq<char>,
    text: Seq<char>,
    id: Seq<char>,
    digi: Seq<char>,
    k: int,
    now: u128,
    later: u128,
)
    requires
        spec_same_ignoring_case(heard.source, client.mycall()),
        spec_format_message(to, text, id) is Ok,
        !spec_reads_as_receipt(text),
        heard.info == encode_utf8(spec_message_text(to, text, id)),
        heard.repeated_by() == Some(digi),
        0 <= k < client.pending.len(),
        client.pending[k].id == id,
        forall|i: int| 0 <= i < k ==> (#[trigger] client.pending[i]).id != id,
        !client.pending[k].heard_via.contains(digi),
    ensures
        ({
            let (after, actions) = client.on_heard(heard, now);
            &&& actions == client.raw_line(heard) + seq![
                ActionView::Ui(UiMsgView::Repeated { digi, id }),
            ]
            &&& after.pending.len() == client.pending.len()
            &&& after.pending[k].tries == client.pending[k].tries
            &&& after.pending[k].next_at == client.pending[k].next_at
            &&& after.on_heard(heard, later).1 == client.raw_line(heard)
        }),
{
    assert(spec_message_text(to, text, id) =~= spec_message_head(to) + (text + "{"@ + id));
    lemma_built_is_plain(heard.source, to, text + "{"@ + id, MAX_THIRD_PARTY_DEPTH as int);
    law_parsing_undoes_message(to, text, id);
    lemma_find_id_is(client.pending, id, 0, k);
    let after = client.on_heard(heard, now).0;
    let via = client.pending[k].heard_via;
    assert(after.pending[k].heard_via == via.push(digi));
    assert(via.push(digi)[via.len() as int] == digi);
    assert(via.push(digi).contains(digi));
    assert forall|i: int| 0 <= i < k implies (#[trigger] after.pending[i]).id != id by {
        assert(client.pending[i].id != id);
    }
    lemma_find_id_is(after.pending, id, 0, k);
    let raw = client.raw_line(heard);
    assert(raw + Seq::<ActionView>::empty() =~= raw);
    assert(after.raw_line(heard) == raw);
}

proof fn lemma_find_id_is(pending: Seq<OutgoingView>, id: Seq<char>, start: int, k: int)
    requires
        0 <= start <= k < pending.len(),
        pending[k].id == id,
        forall|i: int| start <= i < k ==> (#[trigger] pending[i]).id != id,
    ensures
        spec_find_id(pending, id, start) == Some(k),
    decreases k - start,
{
    if start < k {
        assert(pending[start].id != id);
        lemma_find_id_is(pending, id, start + 1, k);
    }
}

/// Each packet that a digipeater repeated on the radio is counted for it, and for no other; what
/// comes from the internet is not counted.
pub proof fn law_repeated_packets_are_counted(
    client: ClientView,
    heard: HeardView,
    call: Seq<char>,
    now: u128,
)
    ensures
        ({
            let before = client.digis;
            let after = client.on_heard(heard, now).0.digis;
            let counts = !heard.from_internet && heard.repeated_by() == Some(call);
            let known = before.contains_key(call);
            &&& after.contains_key(call) <==> known || counts
            &&& counts ==> after[call].last == now
            &&& counts && !known ==> after[call].packets == 1
            &&& counts && known && before[call].packets < u32::MAX ==> after[call].packets
                == before[call].packets + 1
            &&& !counts && known ==> after[call] == before[call]
        }),
{
}

/// With the monitor on, a packet of another station that is not for us is shown under the station
/// that it is from; with the monitor off it is not.
pub proof fn law_monitor_shows_other_traffic(
    client: ClientView,
    heard: HeardView,
    headers: Seq<Seq<u8>>,
    origin: Seq<char>,
    info: Seq<u8>,
    now: u128,
)
    requires
        headers.len() <= 3,
        spec_is_from(heard.source, headers, origin),
        heard.info == spec_relayed(headers, info),
        info.len() > 0 && info[0] != '}' as u8,
        !spec_same_ignoring_case(origin, client.mycall()),
        spec_is_not_for_us(client, heard),
    ensures
        ({
            let (after, actions) = client.on_heard(heard, now);
            &&& !client.monitor ==> actions == client.raw_line(heard)
            &&& client.monitor ==> {
                &&& actions.len() == client.raw_line(heard).len() + 1
                &&& actions.last() matches ActionView::Ui(
                    UiMsgView::Monitor { station, packet, route },
                ) && station == origin && route == heard.route() && packet == spec_decode(
                    heard.dest_call(),
                    heard.info,
                ).innermost()
            }
            &&& after.pending == client.pending && after.seen == client.seen
        }),
{
    law_relayed_packets_are_from_their_origin(heard.source, headers, origin, info);
    let raw = client.raw_line(heard);
    assert(raw + Seq::<ActionView>::empty() =~= raw);
}

/// With raw lines on, each packet is first shown as it came, and with raw lines off it is not.
pub proof fn law_raw_line_comes_first(client: ClientView, heard: HeardView, now: u128)
    ensures
        client.raw ==> client.on_heard(heard, now).1.len() > 0 && client.on_heard(heard, now).1[0]
            == ActionView::Ui(UiMsgView::Raw(heard.header() + ":"@ + spec_printable(heard.info))),
        !client.raw ==> client.raw_line(heard).len() == 0,
{
}

// ---------------------------------------------------------------------------
// Times
// ---------------------------------------------------------------------------

/// A message that is sent waits 30 seconds for its ack; each time that passes, it is sent again and
/// waits 60, 120, 240 and 240 seconds; after the fifth time it is given up.
pub proof fn law_waits_between_tries(
    client: ClientView,
    to: Seq<char>,
    text: Seq<char>,
    m: OutgoingView,
    now: u128,
)
    requires
        now <= MAX_TIME,
        spec_format_message(spec_to_upper(to), text, spec_decimal(client.next_id as nat)) is Ok,
        1 <= m.tries <= 5,
    ensures
        ({
            let (after, actions) = client.send_message(to, text, now);
            &&& after.pending.last().next_at == now + 30_000_000_000
            &&& after.pending.last().tries == 1
            &&& after.pending.last().to == spec_to_upper(to)
            &&& after.pending.last().id == spec_decimal(client.next_id as nat)
            &&& actions[1] == ActionView::Ui(
                UiMsgView::Sent {
                    to: spec_to_upper(to),
                    id: spec_decimal(client.next_id as nat),
                    text,
                    attempt: 1,
                    max: 5,
                },
            )
        }),
        m.next_at > now ==> spec_poll_one(m, now) == Some(m),
        m.next_at <= now && m.tries == 5 ==> spec_poll_one(m, now) is None,
        m.next_at <= now && m.tries < 5 ==> {
            let wait = if m.tries == 1 {
                60_000_000_000int
            } else if m.tries == 2 {
                120_000_000_000int
            } else {
                240_000_000_000int
            };
            &&& spec_poll_one(m, now) matches Some(next) && next.tries == m.tries + 1 && next.next_at
                == now + wait && next.to == m.to && next.id == m.id && next.info == m.info
            &&& spec_poll_one_actions(m, now) == seq![
                ActionView::Send(m.info),
                ActionView::Ui(
                    UiMsgView::Retry {
                        to: m.to,
                        id: m.id,
                        attempt: (m.tries + 1) as u32,
                        max: 5,
                    },
                ),
            ]
        },
{
    lemma2_to64();
}

// ---------------------------------------------------------------------------
// Commands
// ---------------------------------------------------------------------------

/// A line is the command `word`, in any case, with `rest` behind it.
pub open spec fn spec_is_command(line: Seq<char>, word: Seq<char>, rest: Seq<char>) -> bool {
    exists|typed: Seq<char>| #[trigger] spec_types(line, typed, rest) && spec_to_lower(typed) == word
}

/// A line is a word without white space, a space and the rest, or the word alone where there is no
/// rest; neither begins or ends with white space.
pub open spec fn spec_types(line: Seq<char>, typed: Seq<char>, rest: Seq<char>) -> bool {
    &&& typed.len() > 0
    &&& forall|i: int| 0 <= i < typed.len() ==> !spec_is_space(#[trigger] typed[i])
    &&& rest.len() > 0 ==> !spec_is_space(rest[0]) && !spec_is_space(rest.last())
    &&& line == typed + if rest.len() > 0 {
        seq![' '] + rest
    } else {
        seq![]
    }
}

proof fn lemma_command(line: Seq<char>, word: Seq<char>, rest: Seq<char>)
    requires
        spec_is_command(line, word, rest),
    ensures
        spec_to_lower(spec_command(line).0) == word,
        spec_command(line).1 == rest,
{
    let typed = choose|typed: Seq<char>| #[trigger]
        spec_types(line, typed, rest) && spec_to_lower(typed) == word;
    let n = typed.len() as int;
    assert(line[0] == typed[0]);
    assert(line.last() == if rest.len() > 0 {
        rest.last()
    } else {
        typed[n - 1]
    });
    assert(spec_trim(line) == line);
    if rest.len() > 0 {
        assert(line[n] == ' ');
        assert forall|i: int| 0 <= i < n implies !spec_is_space(#[trigger] line[i]) by {
            assert(line[i] == typed[i]);
        }
        lemma_find_space_is(line, 0, n);
        assert(line.take(n) =~= typed);
        assert(line.skip(n + 1) =~= rest);
        assert(spec_trim(rest) == rest);
    } else {
        assert(line =~= typed);
        lemma_find_space_none(line, 0);
        assert(rest =~= Seq::<char>::empty());
    }
}

proof fn lemma_find_space_is(s: Seq<char>, from: int, at: int)
    requires
        0 <= from <= at < s.len(),
        spec_is_space(s[at]),
        forall|i: int| from <= i < at ==> !spec_is_space(#[trigger] s[i]),
    ensures
        spec_find_space_from(s, from) == Some(at),
    decreases at - from,
{
    if from < at {
        assert(!spec_is_space(s[from]));
        lemma_find_space_is(s, from + 1, at);
    }
}

proof fn lemma_find_space_none(s: Seq<char>, from: int)
    requires
        0 <= from,
        forall|i: int| from <= i < s.len() ==> !spec_is_space(#[trigger] s[i]),
    ensures
        spec_find_space_from(s, from) is None,
    decreases s.len() - from,
{
    if from < s.len() {
        assert(!spec_is_space(s[from]));
        lemma_find_space_none(s, from + 1);
    }
}

/// No command is written like another.
proof fn lemma_command_words()
    ensures
        ""@ != "m"@,
        ""@ != "msg"@,
        ""@ != "p"@,
        ""@ != "pending"@,
        ""@ != "cancel"@,
        ""@ != "d"@,
        ""@ != "digis"@,
        ""@ != "mon"@,
        ""@ != "raw"@,
        ""@ != "h"@,
        ""@ != "help"@,
        ""@ != "?"@,
        ""@ != "q"@,
        ""@ != "quit"@,
        ""@ != "exit"@,
        "m"@ != "msg"@,
        "m"@ != "p"@,
        "m"@ != "pending"@,
        "m"@ != "cancel"@,
        "m"@ != "d"@,
        "m"@ != "digis"@,
        "m"@ != "mon"@,
        "m"@ != "raw"@,
        "m"@ != "h"@,
        "m"@ != "help"@,
        "m"@ != "?"@,
        "m"@ != "q"@,
        "m"@ != "quit"@,
        "m"@ != "exit"@,
        "msg"@ != "p"@,
        "msg"@ != "pending"@,
        "msg"@ != "cancel"@,
        "msg"@ != "d"@,
        "msg"@ != "digis"@,
        "msg"@ != "mon"@,
        "msg"@ != "raw"@,
        "msg"@ != "h"@,
        "msg"@ != "help"@,
        "msg"@ != "?"@,
        "msg"@ != "q"@,
        "msg"@ != "quit"@,
        "msg"@ != "exit"@,
        "p"@ != "pending"@,
        "p"@ != "cancel"@,
        "p"@ != "d"@,
        "p"@ != "digis"@,
        "p"@ != "mon"@,
        "p"@ != "raw"@,
        "p"@ != "h"@,
        "p"@ != "help"@,
        "p"@ != "?"@,
        "p"@ != "q"@,
        "p"@ != "quit"@,
        "p"@ != "exit"@,
        "pending"@ != "cancel"@,
        "pending"@ != "d"@,
        "pending"@ != "digis"@,
        "pending"@ != "mon"@,
        "pending"@ != "raw"@,
        "pending"@ != "h"@,
        "pending"@ != "help"@,
        "pending"@ != "?"@,
        "pending"@ != "q"@,
        "pending"@ != "quit"@,
        "pending"@ != "exit"@,
        "cancel"@ != "d"@,
        "cancel"@ != "digis"@,
        "cancel"@ != "mon"@,
        "cancel"@ != "raw"@,
        "cancel"@ != "h"@,
        "cancel"@ != "help"@,
        "cancel"@ != "?"@,
        "cancel"@ != "q"@,
        "cancel"@ != "quit"@,
        "cancel"@ != "exit"@,
        "d"@ != "digis"@,
        "d"@ != "mon"@,
        "d"@ != "raw"@,
        "d"@ != "h"@,
        "d"@ != "help"@,
        "d"@ != "?"@,
        "d"@ != "q"@,
        "d"@ != "quit"@,
        "d"@ != "exit"@,
        "digis"@ != "mon"@,
        "digis"@ != "raw"@,
        "digis"@ != "h"@,
        "digis"@ != "help"@,
        "digis"@ != "?"@,
        "digis"@ != "q"@,
        "digis"@ != "quit"@,
        "digis"@ != "exit"@,
        "mon"@ != "raw"@,
        "mon"@ != "h"@,
        "mon"@ != "help"@,
        "mon"@ != "?"@,
        "mon"@ != "q"@,
        "mon"@ != "quit"@,
        "mon"@ != "exit"@,
        "raw"@ != "h"@,
        "raw"@ != "help"@,
        "raw"@ != "?"@,
        "raw"@ != "q"@,
        "raw"@ != "quit"@,
        "raw"@ != "exit"@,
        "h"@ != "help"@,
        "h"@ != "?"@,
        "h"@ != "q"@,
        "h"@ != "quit"@,
        "h"@ != "exit"@,
        "help"@ != "?"@,
        "help"@ != "q"@,
        "help"@ != "quit"@,
        "help"@ != "exit"@,
        "?"@ != "q"@,
        "?"@ != "quit"@,
        "?"@ != "exit"@,
        "q"@ != "quit"@,
        "q"@ != "exit"@,
        "quit"@ != "exit"@,
{
    reveal_strlit("");
    reveal_strlit("m");
    reveal_strlit("msg");
    reveal_strlit("p");
    reveal_strlit("pending");
    reveal_strlit("cancel");
    reveal_strlit("d");
    reveal_strlit("digis");
    reveal_strlit("mon");
    reveal_strlit("raw");
    reveal_strlit("h");
    reveal_strlit("help");
    reveal_strlit("?");
    reveal_strlit("q");
    reveal_strlit("quit");
    reveal_strlit("exit");
    assert(""@.len() == 0);
    assert("m"@.len() == 1);
    assert("msg"@.len() == 3);
    assert("p"@.len() == 1);
    assert("pending"@.len() == 7);
    assert("cancel"@.len() == 6);
    assert("d"@.len() == 1);
    assert("digis"@.len() == 5);
    assert("mon"@.len() == 3);
    assert("raw"@.len() == 3);
    assert("h"@.len() == 1);
    assert("help"@.len() == 4);
    assert("?"@.len() == 1);
    assert("q"@.len() == 1);
    assert("quit"@.len() == 4);
    assert("exit"@.len() == 4);
    assert("m"@[0] == 'm');
    assert("msg"@[0] == 'm');
    assert("msg"@[1] == 's');
    assert("msg"@[2] == 'g');
    assert("p"@[0] == 'p');
    assert("pending"@[0] == 'p');
    assert("pending"@[1] == 'e');
    assert("pending"@[2] == 'n');
    assert("cancel"@[0] == 'c');
    assert("cancel"@[1] == 'a');
    assert("cancel"@[2] == 'n');
    assert("d"@[0] == 'd');
    assert("digis"@[0] == 'd');
    assert("digis"@[1] == 'i');
    assert("digis"@[2] == 'g');
    assert("mon"@[0] == 'm');
    assert("mon"@[1] == 'o');
    assert("mon"@[2] == 'n');
    assert("raw"@[0] == 'r');
    assert("raw"@[1] == 'a');
    assert("raw"@[2] == 'w');
    assert("h"@[0] == 'h');
    assert("help"@[0] == 'h');
    assert("help"@[1] == 'e');
    assert("help"@[2] == 'l');
    assert("?"@[0] == '?');
    assert("q"@[0] == 'q');
    assert("quit"@[0] == 'q');
    assert("quit"@[1] == 'u');
    assert("quit"@[2] == 'i');
    assert("exit"@[0] == 'e');
    assert("exit"@[1] == 'x');
    assert("exit"@[2] == 'i');
}

/// `msg CALL text` sends the text to the station; without a text, how to use it is told.
pub proof fn law_msg_sends(
    client: ClientView,
    line: Seq<char>,
    to: Seq<char>,
    text: Seq<char>,
    now: u128,
)
    requires
        to.len() > 0,
        forall|i: int| 0 <= i < to.len() ==> !spec_is_space(#[trigger] to[i]),
        text.len() > 0 && !spec_is_space(text[0]) && !spec_is_space(text.last()),
    ensures
        spec_is_command(line, "msg"@, to + seq![' '] + text) || spec_is_command(
            line,
            "m"@,
            to + seq![' '] + text,
        ) ==> client.on_command(line, now) == client.send_message(to, text, now),
        spec_is_command(line, "msg"@, to) || spec_is_command(line, "m"@, to) || spec_is_command(
            line,
            "msg"@,
            seq![],
        ) || spec_is_command(line, "m"@, seq![]) ==> client.on_command(line, now) == (
            client,
            seq![ActionView::Ui(UiMsgView::Print("usage: msg CALL text"@))],
        ),
{
    lemma_command_words();
    let both = to + seq![' '] + text;
    let n = to.len() as int;
    if spec_is_command(line, "msg"@, both) {
        lemma_command(line, "msg"@, both);
    }
    if spec_is_command(line, "m"@, both) {
        lemma_command(line, "m"@, both);
    }
    if spec_is_command(line, "msg"@, to) {
        lemma_command(line, "msg"@, to);
    }
    if spec_is_command(line, "m"@, to) {
        lemma_command(line, "m"@, to);
    }
    if spec_is_command(line, "msg"@, seq![]) {
        lemma_command(line, "msg"@, seq![]);
    }
    if spec_is_command(line, "m"@, seq![]) {
        lemma_command(line, "m"@, seq![]);
    }
    assert forall|i: int| 0 <= i < n implies !spec_is_space(#[trigger] both[i]) by {
        assert(both[i] == to[i]);
    }
    lemma_find_space_is(both, 0, n);
    assert(both.take(n) =~= to);
    assert(both.skip(n + 1) =~= text);
    assert(spec_trim(text) == text);
    lemma_find_space_none(to, 0);
    lemma_find_space_none(Seq::<char>::empty(), 0);
}

/// `mon` and `raw` switch what they name and tell so, `quit` asks to end, `help` tells the commands,
/// and each changes nothing else.
pub proof fn law_commands_do_what_they_say(client: ClientView, line: Seq<char>, now: u128)
    ensures
        ({
            let (after, actions) = client.on_command(line, now);
            let print = |text: Seq<char>| seq![ActionView::Ui(UiMsgView::Print(text))];
            let told = |text: Seq<char>| seq![ActionView::Ui(UiMsgView::Info(text))];
            let is = |word: Seq<char>| spec_is_command(line, word, seq![]);
            &&& is("mon"@) ==> after == (ClientView { monitor: !client.monitor, ..client })
            &&& is("mon"@) && client.monitor ==> actions == told("monitor "@ + "off"@)
            &&& is("mon"@) && !client.monitor ==> actions == told("monitor "@ + "on"@)
            &&& is("raw"@) ==> after == (ClientView { raw: !client.raw, ..client })
            &&& is("raw"@) && client.raw ==> actions == told("raw packets "@ + "off"@)
            &&& is("raw"@) && !client.raw ==> actions == told("raw packets "@ + "on"@)
            &&& is("quit"@) || is("q"@) || is("exit"@) ==> after == client && actions == seq![
                ActionView::Quit,
            ]
            &&& is("help"@) || is("h"@) || is("?"@) ==> after == client && actions == print(
                COMMANDS@,
            )
            &&& is("pending"@) || is("p"@) ==> after == client && actions == print(
                client.pending_text(now),
            )
            &&& is("digis"@) || is("d"@) ==> after == client && actions == print(
                client.digis_text(now),
            )
            &&& is("cancel"@) ==> after == client && actions == print(
                "usage: cancel ID | cancel all"@,
            )
        }),
{
    lemma_command_words();
    let none = Seq::<char>::empty();
    if spec_is_command(line, "mon"@, seq![]) {
        lemma_command(line, "mon"@, seq![]);
    }
    if spec_is_command(line, "raw"@, seq![]) {
        lemma_command(line, "raw"@, seq![]);
    }
    if spec_is_command(line, "quit"@, seq![]) {
        lemma_command(line, "quit"@, seq![]);
    }
    if spec_is_command(line, "q"@, seq![]) {
        lemma_command(line, "q"@, seq![]);
    }
    if spec_is_command(line, "exit"@, seq![]) {
        lemma_command(line, "exit"@, seq![]);
    }
    if spec_is_command(line, "help"@, seq![]) {
        lemma_command(line, "help"@, seq![]);
    }
    if spec_is_command(line, "h"@, seq![]) {
        lemma_command(line, "h"@, seq![]);
    }
    if spec_is_command(line, "?"@, seq![]) {
        lemma_command(line, "?"@, seq![]);
    }
    if spec_is_command(line, "pending"@, seq![]) {
        lemma_command(line, "pending"@, seq![]);
    }
    if spec_is_command(line, "p"@, seq![]) {
        lemma_command(line, "p"@, seq![]);
    }
    if spec_is_command(line, "digis"@, seq![]) {
        lemma_command(line, "digis"@, seq![]);
    }
    if spec_is_command(line, "d"@, seq![]) {
        lemma_command(line, "d"@, seq![]);
    }
    if spec_is_command(line, "cancel"@, seq![]) {
        lemma_command(line, "cancel"@, seq![]);
    }
    assert(spec_trim(none) == none);
    assert(spec_strip_leading(none, '#') == none);
}

/// `cancel ID` takes the waiting messages under that id back, with or without `#` in front of it,
/// and tells each; where there is none, it says so. `cancel all` takes all of them back.
pub proof fn law_cancel_takes_messages_back(
    client: ClientView,
    line: Seq<char>,
    id: Seq<char>,
    now: u128,
)
    requires
        spec_is_message_id(id),
        !spec_same_ignoring_case(id, "all"@),
        spec_is_command(line, "cancel"@, id) || spec_is_command(line, "cancel"@, seq!['#'] + id),
    ensures
        ({
            let (after, actions) = client.on_command(line, now);
            &&& after.pending == client.pending.filter(|m: OutgoingView| m.id != id)
            &&& (forall|i: int| 0 <= i < client.pending.len() ==> (#[trigger] client.pending[i]).id
                != id) ==> actions == seq![
                ActionView::Ui(
                    UiMsgView::Print(
                        "no pending message #"@ + id + "; type pending to list them"@,
                    ),
                ),
            ]
            &&& forall|k: int|
                0 <= k < client.pending.len() && (#[trigger] client.pending[k]).id == id
                    ==> actions.contains(
                    ActionView::Ui(UiMsgView::Cancelled { to: client.pending[k].to, id }),
                )
        }),
{
    lemma_command_words();
    let hashed = seq!['#'] + id;
    assert(spec_is_alnum(id[0]));
    assert(spec_is_alnum(id.last()));
    assert(spec_trim(id) == id);
    assert(hashed.last() == id.last());
    assert(spec_trim(hashed) == hashed);
    assert(hashed.skip(1) =~= id);
    assert(spec_strip_leading(id, '#') == id);
    reveal_with_fuel(spec_strip_leading, 2);
    assert(spec_strip_leading(hashed, '#') == id);
    if spec_is_command(line, "cancel"@, id) {
        lemma_command(line, "cancel"@, id);
        law_cancel_leaves_the_others(client, id);
    } else {
        lemma_command(line, "cancel"@, hashed);
        law_cancel_leaves_the_others(client, hashed);
    }
    lemma_cancelled(client.pending, client.pending.len() as int, false, id);
}

proof fn lemma_cancelled(pending: Seq<OutgoingView>, n: int, all: bool, id: Seq<char>)
    requires
        0 <= n <= pending.len(),
    ensures
        (forall|i: int| 0 <= i < n ==> !all && (#[trigger] pending[i]).id != id) ==> spec_cancelled(
            pending,
            n,
            all,
            id,
        ).len() == 0,
        forall|k: int|
            0 <= k < n && (all || (#[trigger] pending[k]).id == id) ==> spec_cancelled(
                pending,
                n,
                all,
                id,
            ).contains(
                ActionView::Ui(UiMsgView::Cancelled { to: pending[k].to, id: pending[k].id }),
            ),
        spec_cancelled(pending, n, all, id).len() <= n,
        all ==> spec_cancelled(pending, n, all, id).len() == n,
    decreases n,
{
    if n > 0 {
        lemma_cancelled(pending, n - 1, all, id);
        let before = spec_cancelled(pending, n - 1, all, id);
        let now = spec_cancelled(pending, n, all, id);
        assert forall|k: int| 0 <= k < n && (all || (#[trigger] pending[k]).id == id) implies
            now.contains(
            ActionView::Ui(UiMsgView::Cancelled { to: pending[k].to, id: pending[k].id }),
        ) by {
            let told = ActionView::Ui(
                UiMsgView::Cancelled { to: pending[k].to, id: pending[k].id },
            );
            if k < n - 1 {
                assert(before.contains(told));
                let j = before.index_of(told);
                assert(now[j] == told);
            } else {
                assert(now.last() == told);
            }
        }
    }
}

/// `cancel all` takes every waiting message back, and tells each.
pub proof fn law_cancel_all_takes_all_back(client: ClientView, line: Seq<char>, now: u128)
    requires
        spec_is_command(line, "cancel"@, "all"@),
    ensures
        ({
            let (after, actions) = client.on_command(line, now);
            &&& after.pending.len() == 0
            &&& client.pending.len() > 0 ==> actions.len() == client.pending.len()
            &&& forall|k: int|
                0 <= k < client.pending.len() ==> actions.contains(
                    ActionView::Ui(
                        UiMsgView::Cancelled {
                            to: (#[trigger] client.pending[k]).to,
                            id: client.pending[k].id,
                        },
                    ),
                )
        }),
{
    lemma_command_words();
    reveal_strlit("all");
    lemma_command(line, "cancel"@, "all"@);
    assert(spec_trim("all"@) == "all"@);
    assert(spec_strip_leading("all"@, '#') == "all"@);
    law_cancel_leaves_the_others(client, "all"@);
    lemma_cancelled(client.pending, client.pending.len() as int, true, "all"@);
}

/// The list of what waits: one line for each message, with its tries out of five and the seconds
/// until the next.
pub proof fn law_pending_messages_are_listed(client: ClientView, m: OutgoingView, now: u128)
    requires
        client.pending == seq![m],
        now <= m.next_at,
    ensures
        client.pending_text(now) == "  #"@ + m.id + " to "@ + m.to + ": try "@ + spec_decimal(
            m.tries as nat,
        ) + "/"@ + spec_decimal(5) + ", next in "@ + spec_decimal(
            ((m.next_at - now) / 1_000_000_000) as nat,
        ) + " s"@,
        (ClientView { pending: seq![], ..client }).pending_text(now)
            == "no messages waiting for an ack"@,
{
}

/// A notice of the server is told; one that says that we are not verified is an error with a hint.
pub proof fn law_notices_are_told(client: ClientView, front: Seq<char>, back: Seq<char>)
    ensures
        ({
            let notice = front + "unverified"@ + back;
            client.on_notice(notice) == seq![
                ActionView::Ui(
                    UiMsgView::Error(
                        notice + " — wrong passcode? packets you send will be dropped"@,
                    ),
                ),
            ]
        }),
        !front.contains('u') ==> client.on_notice(front) == seq![
            ActionView::Ui(UiMsgView::Info(front)),
        ],
{
    reveal_strlit("unverified");
    let notice = front + "unverified"@ + back;
    let at = front.len() as int;
    assert(notice.subrange(at, at + 10) =~= "unverified"@);
    lemma_text_is_found(notice, "unverified"@, 0, at);
    if !front.contains('u') {
        lemma_text_is_absent(front, "unverified"@, 0);
    }
}

proof fn lemma_text_is_found(s: Seq<char>, pattern: Seq<char>, from: int, at: int)
    requires
        0 <= from <= at,
        pattern.len() > 0,
        at + pattern.len() <= s.len(),
        s.subrange(at, at + pattern.len()) == pattern,
    ensures
        spec_find_text_from(s, pattern, from) is Some,
    decreases at - from,
{
    if from < at {
        lemma_text_is_found(s, pattern, from + 1, at);
    }
}

proof fn lemma_text_is_absent(s: Seq<char>, pattern: Seq<char>, from: int)
    requires
        0 <= from,
        pattern.len() > 0,
        !s.contains(pattern[0]),
    ensures
        spec_find_text_from(s, pattern, from) is None,
    decreases s.len() - from,
{
    if from + pattern.len() <= s.len() && from < s.len() {
        if s.subrange(from, from + pattern.len()) == pattern {
            assert(s[from] == s.subrange(from, from + pattern.len())[0]);
            assert(s.contains(s[from]));
        }
        lemma_text_is_absent(s, pattern, from + 1);
    }
}

/// Ids start from the clock, between 1 and 1000, and count up; behind 99999 comes 1 again.
pub proof fn law_ids_count_up(
    cfg: ClientConfigView,
    client: ClientView,
    to: Seq<char>,
    text: Seq<char>,
    now: u128,
)
    requires
        client.valid(),
    ensures
        spec_new_client(cfg, now).next_id == now as int / 1_000_000_000 % 1000 + 1,
        client.send_message(to, text, now).0.next_id == if client.next_id == 99_999 {
            1int
        } else {
            client.next_id + 1
        },
        spec_new_client(cfg, now).pending.len() == 0,
        spec_new_client(cfg, now).call == cfg.call && spec_new_client(cfg, now).path == cfg.path,
        spec_new_client(cfg, now).tocall == cfg.tocall,
        spec_new_client(cfg, now).radio == cfg.radio,
        spec_new_client(cfg, now).monitor == cfg.monitor && !spec_new_client(cfg, now).raw,
        spec_new_client(cfg, now).seen == Map::<(Seq<char>, Seq<char>), Seen>::empty(),
        spec_new_client(cfg, now).digis == Map::<Seq<char>, DigiHeard>::empty(),
{
}

/// The next deadline is the earliest of those of the waiting messages, and the time until then is
/// none where it has passed.
pub proof fn law_next_deadline_is_the_earliest(client: ClientView, now: u128)
    ensures
        client.next_deadline() is None <==> client.pending.len() == 0,
        client.time_until_deadline(now) is None <==> client.pending.len() == 0,
        client.next_deadline() matches Some(at) ==> {
            &&& forall|i: int|
                0 <= i < client.pending.len() ==> at <= (#[trigger] client.pending[i]).next_at
            &&& exists|i: int|
                0 <= i < client.pending.len() && (#[trigger] client.pending[i]).next_at == at
            &&& client.time_until_deadline(now) == Some(
                (if at >= now {
                    at - now
                } else {
                    0
                }) as u128,
            )
        },
{
    lemma_earliest(client.pending, client.pending.len() as int);
}

proof fn lemma_earliest(pending: Seq<OutgoingView>, n: int)
    requires
        0 <= n <= pending.len(),
    ensures
        spec_next_deadline(pending, n) is None <==> n == 0,
        spec_next_deadline(pending, n) matches Some(at) ==> {
            &&& forall|i: int| 0 <= i < n ==> at <= (#[trigger] pending[i]).next_at
            &&& exists|i: int| 0 <= i < n && (#[trigger] pending[i]).next_at == at
        },
    decreases n,
{
    if n > 0 {
        lemma_earliest(pending, n - 1);
        let at = spec_next_deadline(pending, n)->0;
        if n - 1 > 0 && spec_next_deadline(pending, n - 1)->0 <= pending[n - 1].next_at {
            let i = choose|i: int| 0 <= i < n - 1 && (#[trigger] pending[i]).next_at == at;
            assert(pending[i].next_at == at);
        } else {
            assert(pending[n - 1].next_at == at);
        }
    }
}

/// What `digis` tells: that digipeaters are told on the radio only, that none was heard, or the
/// ranking.
pub proof fn law_digis_are_told_on_the_radio(client: ClientView, now: u128)
    ensures
        !client.radio ==> client.digis_text(now)
            == "digipeaters are only tracked on the radio link"@,
        client.radio && client.digis == Map::<Seq<char>, DigiHeard>::empty() ==> client.digis_text(
            now,
        ) == "no digipeaters heard yet (only stations heard directly)"@,
        client.radio && client.digis != Map::<Seq<char>, DigiHeard>::empty() ==> client.digis_text(
            now,
        ) == spec_ranking_text(client.digis, now),
{
}

/// The list of what waits goes line by line, in the order in which the messages were sent.
pub proof fn law_pending_list_is_in_order(client: ClientView, m: OutgoingView, now: u128)
    requires
        client.pending.len() > 0,
    ensures
        (ClientView { pending: client.pending.push(m), ..client }).pending_text(now)
            == client.pending_text(now) + "\n"@ + (ClientView {
            pending: seq![m],
            ..client
        }).pending_text(now),
{
    let lines = spec_pending_lines(client.pending, now);
    let line = spec_pending_line(m, now);
    assert(spec_pending_lines(client.pending.push(m), now) =~= lines.push(line));
    assert(spec_pending_lines(seq![m], now) =~= seq![line]);
    law_joining_and_filling(lines, line, "\n"@);
}

/// Our own packets that come back are not shown, unless a digipeater is told to have repeated a
/// message that waits.
pub proof fn law_own_packets_are_not_shown(client: ClientView, heard: HeardView, now: u128)
    requires
        spec_same_ignoring_case(
            spec_unwrap(heard.source, heard.info, MAX_THIRD_PARTY_DEPTH as int).0,
            client.mycall(),
        ),
    ensures
        ({
            let (after, actions) = client.on_heard(heard, now);
            &&& actions.len() <= client.raw_line(heard).len() + 1
            &&& heard.repeated_by() is None ==> actions == client.raw_line(heard)
            &&& client.pending.len() == 0 ==> actions == client.raw_line(heard)
            &&& actions.len() > client.raw_line(heard).len() ==> (
            actions.last() matches ActionView::Ui(UiMsgView::Repeated { digi, id })
                && heard.repeated_by() == Some(digi) && exists|k: int|
                0 <= k < client.pending.len() && (#[trigger] client.pending[k]).id == id)
            &&& after.seen == client.seen && after.pending.len() == client.pending.len()
        }),
{
    let info = spec_unwrap(heard.source, heard.info, MAX_THIRD_PARTY_DEPTH as int).1;
    let raw = client.raw_line(heard);
    assert(raw + Seq::<ActionView>::empty() =~= raw);
    if let Some(MessageView::Text { id: Some(id), .. }) = spec_parse_message(info) {
        lemma_found_id(client.pending, id, 0);
        lemma_found_id_holds(client.pending, id, 0);
    }
}

proof fn lemma_found_id_holds(pending: Seq<OutgoingView>, id: Seq<char>, start: int)
    ensures
        spec_find_id(pending, id, start) matches Some(i) ==> pending[i].id == id,
    decreases pending.len() - start,
{
    if 0 <= start < pending.len() {
        lemma_found_id_holds(pending, id, start + 1);
    }
}

/// A line of white space does nothing, and a word that is no command is told to be unknown.
pub proof fn law_unknown_commands_are_told(
    client: ClientView,
    line: Seq<char>,
    word: Seq<char>,
    rest: Seq<char>,
    now: u128,
)
    requires
        spec_is_command(line, word, rest),
        word != "m"@,
        word != "msg"@,
        word != "p"@,
        word != "pending"@,
        word != "cancel"@,
        word != "d"@,
        word != "digis"@,
        word != "mon"@,
        word != "raw"@,
        word != "h"@,
        word != "help"@,
        word != "?"@,
        word != "q"@,
        word != "quit"@,
        word != "exit"@,
    ensures
        client.on_command(line, now) == (
            client,
            seq![
                ActionView::Ui(
                    UiMsgView::Print(
                        "unknown command "@ + spec_debug_text(word) + "; type help"@,
                    ),
                ),
            ],
        ),
        client.on_command(seq![], now) == (client, Seq::<ActionView>::empty()),
        client.on_command(seq![' '], now) == (client, Seq::<ActionView>::empty()),
{
    lemma_command(line, word, rest);
    reveal_strlit("");
    let typed = choose|typed: Seq<char>| #[trigger]
        spec_types(line, typed, rest) && spec_to_lower(typed) == word;
    assert(word.len() == typed.len());
    assert(""@.len() == 0);
    let none = Seq::<char>::empty();
    let blank = seq![' '];
    assert(spec_trim(none) == none);
    assert(blank.skip(1) =~= none);
    reveal_with_fuel(spec_trim_start, 2);
    assert(spec_trim(blank) == none);
    lemma_find_space_none(none, 0);
    assert(spec_to_lower(none) =~= ""@);
}

} // verus!
