//! Laws of the raffle, stated and proved over the model.
//!
//! Together these show: the well-formedness invariant (uniqueness of
//! entries, no-replacement selection, the two-winner cap) holds initially
//! and is preserved by every transition; entry acceptance is exactly the
//! deposit-bounds check; draw gating is independent of the other inputs;
//! a successful draw moves exactly one identity from the candidates to the
//! winners; and the finished state is terminal, with the payout owed at
//! the second successful draw. The last lemmas lift this to whole
//! sequences of calls: the invariant holds along every run, and the payout
//! is instructed exactly once over a raffle's lifetime.

use vstd::prelude::*;

use crate::model::AccountId;
use crate::model::Balance;
use crate::model::Error;
use crate::model::MAX_DEPOSIT;
use crate::model::MIN_PLAYERS;
use crate::model::Participant;
use crate::model::Payout;
use crate::model::RaffleView;
use crate::model::Timestamp;
use crate::model::draw_error;
use crate::model::draw_next;
use crate::model::draw_payout;
use crate::model::draw_winner;
use crate::model::initial;
use crate::model::le_u32_of;
use crate::model::play_error;
use crate::model::play_next;
use crate::model::sum_deposits;
use crate::model::valid_deposit;
use crate::model::winner_index;

verus! {

/// A freshly constructed raffle is well-formed.
pub proof fn lemma_initial_wf(beneficiary: AccountId, now: Timestamp)
    ensures
        initial(beneficiary, now).wf(),
{
}

/// Uniqueness: in every well-formed state no identity appears twice among
/// the recorded participants.
pub proof fn lemma_no_duplicate_entries(s: RaffleView)
    requires
        s.wf(),
    ensures
        s.pids().no_duplicates(),
{
}

/// Entry acceptance is exactly the bounds check: when the raffle is not
/// finished and the caller has not entered before, `play` accepts the entry
/// if and only if the attached amount lies in `[MIN_DEPOSIT, MAX_DEPOSIT]`,
/// and rejects it with `InvalidDepositAmount` otherwise.
pub proof fn lemma_enter_bounds(s: RaffleView, who: AccountId, balance: Balance)
    requires
        !s.finished(),
        !s.has_participant(who),
    ensures
        play_error(s, who, balance) is None <==> valid_deposit(balance),
        play_error(s, who, balance) is Some ==> play_error(s, who, balance) == Some(
            Error::InvalidDepositAmount,
        ),
{
}

/// `play` preserves well-formedness.
pub proof fn lemma_play_preserves_wf(s: RaffleView, who: AccountId, balance: Balance)
    requires
        s.wf(),
    ensures
        play_next(s, who, balance).wf(),
{
    if play_error(s, who, balance) is None {
        let t = play_next(s, who, balance);
        let p = Participant { who, balance };
        s.participants.lemma_push_map_commute(|q: Participant| q.who, p);
        assert(t.pids() =~= s.pids().push(who));
        let n = s.pids().len() as int;
        assert forall|i: int, j: int|
            0 <= i < t.pids().len() && 0 <= j < t.pids().len() && i != j implies t.pids()[i]
            != t.pids()[j] by {
            if i < n && j < n {
                assert(s.pids()[i] != s.pids()[j]);
            } else if i == n {
                if t.pids()[j] == who {
                    assert(s.pids()[j] == who);
                    assert(s.pids().contains(who));
                }
            } else if j == n {
                if t.pids()[i] == who {
                    assert(s.pids()[i] == who);
                    assert(s.pids().contains(who));
                }
            }
        }
        assert forall|i: int, j: int|
            0 <= i < t.candidates.len() && 0 <= j < t.candidates.len() && i != j implies t
            .candidates[i] != t.candidates[j] by {
            let m = s.candidates.len() as int;
            if i < m && j < m {
                assert(s.candidates[i] != s.candidates[j]);
            } else if i == m {
                if t.candidates[j] == who {
                    assert(s.pids().contains(who));
                }
            } else if j == m {
                if t.candidates[i] == who {
                    assert(s.pids().contains(who));
                }
            }
        }
        assert forall|i: int| 0 <= i < t.candidates.len() implies t.pids().contains(
            #[trigger] t.candidates[i],
        ) by {
            if i < s.candidates.len() {
                let k = choose|k: int| 0 <= k < n && s.pids()[k] == s.candidates[i];
                assert(t.pids()[k] == s.candidates[i]);
            } else {
                assert(t.pids()[n] == who);
            }
        }
        assert forall|i: int| 0 <= i < t.winners.len() implies t.pids().contains(
            #[trigger] t.winners[i],
        ) by {
            let k = choose|k: int| 0 <= k < n && s.pids()[k] == s.winners[i];
            assert(t.pids()[k] == s.winners[i]);
        }
        assert forall|x: AccountId| #[trigger]
            t.candidates.contains(x) implies !t.winners.contains(x) by {
            let i = choose|i: int| 0 <= i < t.candidates.len() && t.candidates[i] == x;
            if i < s.candidates.len() {
                assert(s.candidates.contains(x));
            } else {
                // x == who, and who is nowhere among the participants, hence
                // nowhere among the winners.
                if t.winners.contains(x) {
                    let k = choose|k: int| 0 <= k < s.winners.len() && s.winners[k] == x;
                    assert(s.pids().contains(s.winners[k]));
                }
            }
        }
    }
}

/// `draw` preserves well-formedness.
pub proof fn lemma_draw_preserves_wf(s: RaffleView, now: Timestamp, rand: Seq<u8>)
    requires
        s.wf(),
        rand.len() >= 4,
    ensures
        draw_next(s, now, rand).wf(),
{
    if draw_error(s, now) is None {
        let t = draw_next(s, now, rand);
        let c = s.candidates;
        let m = c.len() as int;
        let i = winner_index(s, rand);
        lemma_winner_index_in_range(s, rand);
        let w = c[i];
        // Every remaining candidate is an original candidate other than the
        // winner.
        assert forall|k: int| 0 <= k < t.candidates.len() implies (exists|l: int|
            0 <= l < m && l != i && c[l] == #[trigger] t.candidates[k]) by {
            if k == i {
                assert(c[m - 1] == t.candidates[k] && m - 1 != i);
            } else {
                assert(c[k] == t.candidates[k] && k != i);
            }
        }
        assert forall|k: int, l: int|
            0 <= k < t.candidates.len() && 0 <= l < t.candidates.len() && k != l implies t
            .candidates[k] != t.candidates[l] by {
            if k == i {
                assert(t.candidates[k] == c[m - 1] && t.candidates[l] == c[l]);
            } else if l == i {
                assert(t.candidates[k] == c[k] && t.candidates[l] == c[m - 1]);
            } else {
                assert(t.candidates[k] == c[k] && t.candidates[l] == c[l]);
            }
        }
        assert forall|k: int, l: int|
            0 <= k < t.winners.len() && 0 <= l < t.winners.len() && k != l implies t.winners[k]
            != t.winners[l] by {
            let n = s.winners.len() as int;
            if k == n {
                assert(t.winners[k] == w && t.winners[l] == s.winners[l]);
                assert(c.contains(w));
            } else if l == n {
                assert(t.winners[l] == w && t.winners[k] == s.winners[k]);
                assert(c.contains(w));
            } else {
                assert(t.winners[k] == s.winners[k] && t.winners[l] == s.winners[l]);
            }
        }
        assert forall|k: int| 0 <= k < t.candidates.len() implies t.pids().contains(
            #[trigger] t.candidates[k],
        ) by {
            let l = choose|l: int| 0 <= l < m && l != i && c[l] == t.candidates[k];
            assert(s.pids().contains(c[l]));
        }
        assert forall|k: int| 0 <= k < t.winners.len() implies t.pids().contains(
            #[trigger] t.winners[k],
        ) by {
            if k < s.winners.len() {
                assert(s.pids().contains(s.winners[k]));
            } else {
                assert(t.winners[k] == w);
                assert(s.pids().contains(c[i]));
            }
        }
        assert forall|x: AccountId| #[trigger]
            t.candidates.contains(x) implies !t.winners.contains(x) by {
            let k = choose|k: int| 0 <= k < t.candidates.len() && t.candidates[k] == x;
            let l = choose|l: int| 0 <= l < m && l != i && c[l] == x;
            assert(c.contains(x));
            assert(x != w);
        }
    }
}

/// The selected index lies within the candidate pool whenever the pool is
/// not empty — and under the gating checks a successful draw always finds
/// at least four candidates.
pub proof fn lemma_winner_index_in_range(s: RaffleView, rand: Seq<u8>)
    requires
        rand.len() >= 4,
        s.candidates.len() > 0,
    ensures
        0 <= winner_index(s, rand) < s.candidates.len(),
{
    assert(le_u32_of(rand) >= 0);
}

/// Gating: `draw` is rejected whenever fewer than `MIN_PLAYERS`
/// participants have entered, whatever the time and random bytes; and it is
/// rejected whenever the countdown has not elapsed, whatever the player
/// count. In either case the state does not change.
pub proof fn lemma_draw_gating(s: RaffleView, now: Timestamp, rand: Seq<u8>)
    ensures
        s.participants.len() < MIN_PLAYERS ==> draw_error(s, now) is Some,
        now < s.draw_starts_at ==> draw_error(s, now) is Some,
        !s.finished() && now < s.draw_starts_at ==> draw_error(s, now) == Some(
            Error::InDrawCountdown,
        ),
        !s.finished() && now >= s.draw_starts_at && s.participants.len() < MIN_PLAYERS
            ==> draw_error(s, now) == Some(Error::NotEnoughPlayer),
        draw_error(s, now) is Some ==> draw_next(s, now, rand) == s,
{
}

/// Monotonicity: a successful draw grows the winners by exactly one and
/// shrinks the candidates by exactly one, and the previous winners stay,
/// in order, a prefix of the new ones. A rejected draw changes nothing.
pub proof fn lemma_draw_monotone(s: RaffleView, now: Timestamp, rand: Seq<u8>)
    requires
        s.wf(),
        rand.len() >= 4,
    ensures
        draw_error(s, now) is None ==> {
            let t = draw_next(s, now, rand);
            &&& t.winners.len() == s.winners.len() + 1
            &&& t.candidates.len() == s.candidates.len() - 1
            &&& t.winners == s.winners.push(draw_winner(s, rand))
            &&& t.participants == s.participants
        },
        s.winners.is_prefix_of(draw_next(s, now, rand).winners),
{
    if draw_error(s, now) is None {
        lemma_winner_index_in_range(s, rand);
        assert(s.winners.is_prefix_of(s.winners.push(draw_winner(s, rand)))) by {
            assert(s.winners =~= s.winners.push(draw_winner(s, rand)).subrange(
                0,
                s.winners.len() as int,
            ));
        }
    } else {
        assert(s.winners.is_prefix_of(s.winners)) by {
            assert(s.winners =~= s.winners.subrange(0, s.winners.len() as int));
        }
    }
}

/// The beneficiary and the countdown's end are fixed at construction: no
/// transition touches them, and no transition ever removes a recorded
/// participant.
pub proof fn lemma_construction_fields_fixed(
    s: RaffleView,
    who: AccountId,
    balance: Balance,
    now: Timestamp,
    rand: Seq<u8>,
)
    ensures
        play_next(s, who, balance).beneficiary == s.beneficiary,
        play_next(s, who, balance).draw_starts_at == s.draw_starts_at,
        draw_next(s, now, rand).beneficiary == s.beneficiary,
        draw_next(s, now, rand).draw_starts_at == s.draw_starts_at,
        s.participants.is_prefix_of(play_next(s, who, balance).participants),
        draw_next(s, now, rand).participants == s.participants,
{
    let t = play_next(s, who, balance);
    assert(s.participants =~= t.participants.subrange(0, s.participants.len() as int));
}

/// No replacement: in every well-formed state no identity appears twice in
/// the winners, and every winner is a recorded entrant.
pub proof fn lemma_winners_no_replacement(s: RaffleView)
    requires
        s.wf(),
    ensures
        s.winners.no_duplicates(),
        forall|i: int| 0 <= i < s.winners.len() ==> s.has_participant(#[trigger] s.winners[i]),
{
}

/// Termination: once two winners have been drawn the raffle is finished for
/// good — every further `play` and `draw` is rejected with `Finished`, the
/// state never changes again, and no further payout is owed.
pub proof fn lemma_finished_absorbing(
    s: RaffleView,
    who: AccountId,
    balance: Balance,
    now: Timestamp,
    rand: Seq<u8>,
)
    requires
        s.finished(),
    ensures
        play_error(s, who, balance) == Some(Error::Finished),
        draw_error(s, now) == Some(Error::Finished),
        play_next(s, who, balance) == s,
        draw_next(s, now, rand) == s,
        draw_payout(s, now, rand) is None,
{
}

/// The payout is owed exactly at the second successful draw: a draw
/// instructs a payout if and only if it succeeds with exactly one winner
/// already drawn; the payout then moves the sum of all recorded deposits to
/// the beneficiary and the raffle is finished afterwards. A first
/// successful draw owes nothing and does not finish the raffle. Since the
/// finished state is terminal, the payout is owed exactly once over the
/// raffle's lifetime.
pub proof fn lemma_payout_at_second_draw(s: RaffleView, now: Timestamp, rand: Seq<u8>)
    requires
        s.wf(),
        rand.len() >= 4,
    ensures
        draw_payout(s, now, rand) is Some <==> (draw_error(s, now) is None && s.winners.len()
            == 1),
        (draw_error(s, now) is None && s.winners.len() == 1) ==> {
            &&& draw_payout(s, now, rand) == Some(
                Payout { to: s.beneficiary, amount: sum_deposits(s.participants) as Balance },
            )
            &&& draw_next(s, now, rand).finished()
        },
        (draw_error(s, now) is None && s.winners.len() == 0) ==> !draw_next(
            s,
            now,
            rand,
        ).finished(),
{
}

/// One call to the raffle, with the host-supplied values it carries.
pub enum RaffleOp {
    Play { who: AccountId, balance: Balance },
    Draw { now: Timestamp, rand: Seq<u8> },
}

/// The state after one call.
pub open spec fn step(s: RaffleView, op: RaffleOp) -> RaffleView {
    match op {
        RaffleOp::Play { who, balance } => play_next(s, who, balance),
        RaffleOp::Draw { now, rand } => draw_next(s, now, rand),
    }
}

/// The payout one call instructs, if any.
pub open spec fn step_payout(s: RaffleView, op: RaffleOp) -> Option<Payout> {
    match op {
        RaffleOp::Play { .. } => None,
        RaffleOp::Draw { now, rand } => draw_payout(s, now, rand),
    }
}

/// The state after a whole sequence of calls.
pub open spec fn run(s: RaffleView, ops: Seq<RaffleOp>) -> RaffleView
    decreases ops.len(),
{
    if ops.len() == 0 {
        s
    } else {
        run(step(s, ops.first()), ops.drop_first())
    }
}

/// How many of the calls in `ops` instruct a payout.
pub open spec fn payouts_along(s: RaffleView, ops: Seq<RaffleOp>) -> int
    decreases ops.len(),
{
    if ops.len() == 0 {
        0
    } else {
        (if step_payout(s, ops.first()) is Some {
            1int
        } else {
            0int
        }) + payouts_along(step(s, ops.first()), ops.drop_first())
    }
}

/// Every draw in the sequence carries at least the four random bytes the
/// engine reads.
pub open spec fn ops_wf(ops: Seq<RaffleOp>) -> bool {
    forall|i: int|
        0 <= i < ops.len() ==> (#[trigger] ops[i] matches RaffleOp::Draw { rand, .. } ==> rand.len()
            >= 4)
}

/// Dropping the first call keeps the rest of the sequence well-formed.
proof fn lemma_ops_wf_drop_first(ops: Seq<RaffleOp>)
    requires
        ops_wf(ops),
        ops.len() > 0,
    ensures
        ops_wf(ops.drop_first()),
{
    let rest = ops.drop_first();
    assert forall|i: int|
        0 <= i < rest.len() implies (#[trigger] rest[i] matches RaffleOp::Draw {
        rand,
        ..
    } ==> rand.len() >= 4) by {
        assert(rest[i] == ops[i + 1]);
    }
}

/// A finished raffle never moves again: no sequence of further calls
/// changes its state or instructs another payout.
pub proof fn lemma_finished_run_fixed(s: RaffleView, ops: Seq<RaffleOp>)
    requires
        s.finished(),
    ensures
        run(s, ops) == s,
        payouts_along(s, ops) == 0,
    decreases ops.len(),
{
    if ops.len() > 0 {
        match ops.first() {
            RaffleOp::Play { who, balance } => {
                lemma_finished_absorbing(s, who, balance, 0, Seq::empty());
            },
            RaffleOp::Draw { now, rand } => {
                lemma_finished_absorbing(s, AccountId { id: 0 }, 0, now, rand);
            },
        }
        lemma_finished_run_fixed(s, ops.drop_first());
    }
}

/// The invariant holds along every sequence of calls: whatever mix of
/// entries and draws the host relays, no identity ever appears twice among
/// the participants, the winners remain duplicate-free prior entrants, and
/// never more than two are drawn.
pub proof fn lemma_run_preserves_wf(s: RaffleView, ops: Seq<RaffleOp>)
    requires
        s.wf(),
        ops_wf(ops),
    ensures
        run(s, ops).wf(),
    decreases ops.len(),
{
    if ops.len() > 0 {
        let op = ops.first();
        let rest = ops.drop_first();
        lemma_ops_wf_drop_first(ops);
        match op {
            RaffleOp::Play { who, balance } => {
                lemma_play_preserves_wf(s, who, balance);
            },
            RaffleOp::Draw { now, rand } => {
                assert(rand.len() >= 4);
                lemma_draw_preserves_wf(s, now, rand);
            },
        }
        lemma_run_preserves_wf(step(s, op), rest);
    }
}

/// The payout is instructed exactly once over the raffle's lifetime: along
/// every sequence of calls from a well-formed state, exactly one call
/// instructs a payout if the run ends with two winners drawn, and none
/// does otherwise.
pub proof fn lemma_payout_exactly_once(s: RaffleView, ops: Seq<RaffleOp>)
    requires
        s.wf(),
        ops_wf(ops),
    ensures
        payouts_along(s, ops) == (if !s.finished() && run(s, ops).finished() {
            1int
        } else {
            0int
        }),
    decreases ops.len(),
{
    if ops.len() > 0 {
        let op = ops.first();
        let t = step(s, op);
        let rest = ops.drop_first();
        lemma_ops_wf_drop_first(ops);
        match op {
            RaffleOp::Play { who, balance } => {
                lemma_play_preserves_wf(s, who, balance);
                lemma_payout_exactly_once(t, rest);
            },
            RaffleOp::Draw { now, rand } => {
                assert(rand.len() >= 4);
                lemma_draw_preserves_wf(s, now, rand);
                lemma_draw_monotone(s, now, rand);
                lemma_payout_exactly_once(t, rest);
                if step_payout(s, op) is Some {
                    // This draw was the second one: the raffle is finished
                    // from here on, so no later call pays again.
                    assert(t.finished());
                    lemma_finished_run_fixed(t, rest);
                } else {
                    assert(t.finished() == s.finished());
                }
            },
        }
    }
}

/// The sum of deposits in a well-formed state is nonnegative and at most
/// the participant count times the largest accepted deposit; in particular
/// it always fits in a `Balance`.
pub proof fn lemma_sum_deposits_bounds(s: Seq<Participant>)
    requires
        forall|i: int| 0 <= i < s.len() ==> valid_deposit(#[trigger] s[i].balance),
    ensures
        0 <= sum_deposits(s) <= s.len() * MAX_DEPOSIT,
    decreases s.len(),
{
    if s.len() > 0 {
        let t = s.drop_last();
        assert forall|i: int| 0 <= i < t.len() implies valid_deposit(#[trigger] t[i].balance) by {
            assert(t[i] == s[i]);
        }
        lemma_sum_deposits_bounds(t);
        assert(valid_deposit(s[s.len() - 1].balance));
        assert((s.len() - 1) * MAX_DEPOSIT + MAX_DEPOSIT == s.len() * MAX_DEPOSIT) by (
        nonlinear_arith);
    }
}

} // verus!
