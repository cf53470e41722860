//! The mathematical model of the raffle: its abstract state, the
//! well-formedness invariant, and the transition functions that the
//! executable engine is proved to follow.

use vstd::prelude::*;

verus! {

/// A deposit amount, in the host's fixed-point value unit.
pub type Balance = u128;

/// A point in time, in the host's time unit (the same unit as
/// [`COUNTDOWN_DURATION`]).
pub type Timestamp = u64;

/// The smallest deposit accepted by `play`.
pub const MIN_DEPOSIT: Balance = 10000000000000;

/// The largest deposit accepted by `play`.
pub const MAX_DEPOSIT: Balance = 100000000000000;

/// The number of participants that must have entered before a draw can
/// succeed.
pub const MIN_PLAYERS: usize = 5;

/// How long after construction the first draw becomes possible.
pub const COUNTDOWN_DURATION: Timestamp = 900000;

/// An opaque, comparable identity token for a participant or the
/// beneficiary.
#[derive(Clone, Copy, PartialEq, Eq, Structural, Debug)]
pub struct AccountId {
    pub id: u64,
}

/// One recorded entry: an identity and the amount it deposited.
/// Inserted exactly once per identity; never removed or mutated.
#[derive(Clone, Copy, PartialEq, Eq, Structural, Debug)]
pub struct Participant {
    pub who: AccountId,
    pub balance: Balance,
}

/// Why a call to `play` or `draw` was rejected. A rejected call leaves the
/// raffle unchanged.
#[derive(Clone, Copy, PartialEq, Eq, Structural, Debug)]
pub enum Error {
    /// The attached amount is outside `[MIN_DEPOSIT, MAX_DEPOSIT]`.
    InvalidDepositAmount,
    /// The caller has already entered this raffle.
    HasPlayed,
    /// Two winners have been drawn; the raffle accepts no further calls.
    Finished,
    /// The draw countdown has not elapsed yet.
    InDrawCountdown,
    /// Fewer than `MIN_PLAYERS` participants have entered.
    NotEnoughPlayer,
}

/// The one transfer the host must perform: move `amount` to `to`.
#[derive(Clone, Copy, PartialEq, Eq, Structural, Debug)]
pub struct Payout {
    pub to: AccountId,
    pub amount: Balance,
}

/// The abstract state of a raffle: what the executable engine's state
/// means, with every collection read as a sequence.
#[verifier::ext_equal]
pub struct RaffleView {
    pub beneficiary: AccountId,
    pub participants: Seq<Participant>,
    pub candidates: Seq<AccountId>,
    pub winners: Seq<AccountId>,
    pub draw_starts_at: Timestamp,
}

/// Whether `b` lies in the closed interval `[MIN_DEPOSIT, MAX_DEPOSIT]`.
pub open spec fn valid_deposit(b: Balance) -> bool {
    MIN_DEPOSIT <= b && b <= MAX_DEPOSIT
}

/// The sum of all recorded deposits, as an unbounded integer.
pub open spec fn sum_deposits(s: Seq<Participant>) -> int
    decreases s.len(),
{
    if s.len() == 0 {
        0
    } else {
        sum_deposits(s.drop_last()) + s.last().balance
    }
}

/// The first four random bytes read as a little-endian 32-bit integer.
pub open spec fn le_u32_of(bytes: Seq<u8>) -> int {
    bytes[0] + 0x100 * bytes[1] + 0x10000 * bytes[2] + 0x1000000 * bytes[3]
}

impl RaffleView {
    /// The identities that have entered, in order of entry.
    pub open spec fn pids(self) -> Seq<AccountId> {
        self.participants.map_values(|p: Participant| p.who)
    }

    /// Whether `who` has already entered.
    pub open spec fn has_participant(self, who: AccountId) -> bool {
        self.pids().contains(who)
    }

    /// The raffle is finished once the second winner has been drawn.
    pub open spec fn finished(self) -> bool {
        self.winners.len() == 2
    }

    /// Well-formedness: every state the engine can reach satisfies this.
    ///
    /// No identity appears twice among the participants; the candidates are
    /// exactly the participants not yet drawn (so candidates and winners are
    /// duplicate-free, disjoint, both drawn from the participants, and
    /// together as many as the participants); at most two winners exist; and
    /// every recorded deposit is within bounds.
    pub open spec fn wf(self) -> bool {
        &&& self.pids().no_duplicates()
        &&& self.candidates.no_duplicates()
        &&& self.winners.no_duplicates()
        &&& forall|i: int|
            0 <= i < self.candidates.len() ==> self.pids().contains(#[trigger] self.candidates[i])
        &&& forall|i: int|
            0 <= i < self.winners.len() ==> self.pids().contains(#[trigger] self.winners[i])
        &&& forall|x: AccountId| #[trigger]
            self.candidates.contains(x) ==> !self.winners.contains(x)
        &&& self.candidates.len() + self.winners.len() == self.participants.len()
        &&& self.winners.len() <= 2
        &&& forall|i: int|
            0 <= i < self.participants.len() ==> valid_deposit(
                #[trigger] self.participants[i].balance,
            )
    }
}

/// The freshly constructed raffle: no entries, no winners, and the draw
/// gated until `COUNTDOWN_DURATION` after `now`.
pub open spec fn initial(beneficiary: AccountId, now: Timestamp) -> RaffleView {
    RaffleView {
        beneficiary,
        participants: Seq::empty(),
        candidates: Seq::empty(),
        winners: Seq::empty(),
        draw_starts_at: (now + COUNTDOWN_DURATION) as Timestamp,
    }
}

/// Which error `play` returns for caller `who` attaching `balance`, or
/// `None` if the entry is accepted. The checks happen in this order:
/// finished, already entered, deposit out of bounds.
pub open spec fn play_error(s: RaffleView, who: AccountId, balance: Balance) -> Option<Error> {
    if s.finished() {
        Some(Error::Finished)
    } else if s.has_participant(who) {
        Some(Error::HasPlayed)
    } else if !valid_deposit(balance) {
        Some(Error::InvalidDepositAmount)
    } else {
        None
    }
}

/// The state after `play`: unchanged on a rejected call; otherwise the
/// caller is recorded with its deposit and appended to the candidates.
pub open spec fn play_next(s: RaffleView, who: AccountId, balance: Balance) -> RaffleView {
    if play_error(s, who, balance) is Some {
        s
    } else {
        RaffleView {
            participants: s.participants.push(Participant { who, balance }),
            candidates: s.candidates.push(who),
            ..s
        }
    }
}

/// Which error `draw` returns at time `now`, or `None` if a winner will be
/// drawn. The checks happen in this order: finished, countdown not elapsed,
/// not enough players.
pub open spec fn draw_error(s: RaffleView, now: Timestamp) -> Option<Error> {
    if s.finished() {
        Some(Error::Finished)
    } else if now < s.draw_starts_at {
        Some(Error::InDrawCountdown)
    } else if s.participants.len() < MIN_PLAYERS {
        Some(Error::NotEnoughPlayer)
    } else {
        None
    }
}

/// The candidate index a successful draw selects: the little-endian 32-bit
/// prefix of the random bytes, reduced modulo the candidate count. The
/// modulo bias when the candidate count does not divide `2^32` is accepted,
/// inherited behaviour.
pub open spec fn winner_index(s: RaffleView, rand: Seq<u8>) -> int {
    le_u32_of(rand) % (s.candidates.len() as int)
}

/// The identity a successful draw selects.
pub open spec fn draw_winner(s: RaffleView, rand: Seq<u8>) -> AccountId {
    s.candidates[winner_index(s, rand)]
}

/// The state after `draw`: unchanged on a rejected call; otherwise the
/// selected candidate is appended to the winners and removed from the
/// candidates by swapping the last candidate into its place.
pub open spec fn draw_next(s: RaffleView, now: Timestamp, rand: Seq<u8>) -> RaffleView {
    if draw_error(s, now) is Some {
        s
    } else {
        let i = winner_index(s, rand);
        RaffleView {
            candidates: s.candidates.update(i, s.candidates.last()).drop_last(),
            winners: s.winners.push(s.candidates[i]),
            ..s
        }
    }
}

/// The payout a call to `draw` instructs the host to perform: the sum of
/// all recorded deposits to the beneficiary, exactly when this draw is the
/// second successful one, and nothing otherwise.
pub open spec fn draw_payout(s: RaffleView, now: Timestamp, rand: Seq<u8>) -> Option<Payout> {
    if draw_error(s, now) is None && s.winners.len() == 1 {
        Some(Payout { to: s.beneficiary, amount: sum_deposits(s.participants) as Balance })
    } else {
        None
    }
}

} // verus!
