//! The executable raffle engine, proved to follow the model's transitions.
//!
//! The engine is a pure state machine. The host hands every call the values
//! it alone knows — the caller's identity, the attached deposit, the current
//! time, the random bytes its randomness source returned for this draw's
//! seed — and takes back the event to emit and, on the second successful
//! draw, the one payout to perform.

use vstd::prelude::*;

use crate::digest::blake2x128;
use crate::digest::blake2x128_of;
use crate::digest::le_u64_bytes;
use crate::digest::u64_le_bytes;
use crate::laws::lemma_draw_monotone;
use crate::laws::lemma_draw_preserves_wf;
use crate::laws::lemma_initial_wf;
use crate::laws::lemma_play_preserves_wf;
use crate::laws::lemma_sum_deposits_bounds;
use crate::laws::lemma_winner_index_in_range;
use crate::model::AccountId;
use crate::model::Balance;
use crate::model::COUNTDOWN_DURATION;
use crate::model::Error;
use crate::model::MAX_DEPOSIT;
use crate::model::MIN_DEPOSIT;
use crate::model::MIN_PLAYERS;
use crate::model::Participant;
use crate::model::Payout;
use crate::model::RaffleView;
use crate::model::Timestamp;
use crate::model::draw_error;
use crate::model::draw_next;
use crate::model::draw_payout;
use crate::model::draw_winner;
use crate::model::initial;
use crate::model::le_u32_of;
use crate::model::play_error;
use crate::model::play_next;
use crate::model::sum_deposits;
use crate::model::valid_deposit;
use crate::model::winner_index;

verus! {

/// The event a successful `play` asks the host to emit: who entered, and
/// how much they deposited.
#[derive(Clone, Copy, PartialEq, Eq, Structural, Debug)]
pub struct Played {
    /// Who played the raffle.
    pub who: AccountId,
    /// Transferred balance.
    pub balance: Balance,
}

/// What a successful `draw` asks the host to do: emit the winner, and, when
/// this draw finished the raffle, perform the one payout.
#[derive(Clone, Copy, PartialEq, Eq, Debug)]
pub struct DrawOutcome {
    /// The identity drawn by this call.
    pub winner: AccountId,
    /// The transfer owed to the beneficiary, present exactly when this draw
    /// was the second one.
    pub payout: Option<Payout>,
}

/// The raffle engine. The collected money is owed to `beneficiary` when the
/// second winner is drawn.
pub struct CharityRaffle {
    /// The fixed identity the collected deposits are owed to.
    beneficiary: AccountId,
    /// Everyone who entered, with their deposits, in order of entry.
    participants: Vec<Participant>,
    /// The entrants still eligible to be drawn.
    candidates: Vec<AccountId>,
    /// The winners, in the order drawn.
    winners: Vec<AccountId>,
    /// The earliest time a draw may succeed.
    draw_starts_at: Timestamp,
}

impl View for CharityRaffle {
    type V = RaffleView;

    closed spec fn view(&self) -> RaffleView {
        RaffleView {
            beneficiary: self.beneficiary,
            participants: self.participants@,
            candidates: self.candidates@,
            winners: self.winners@,
            draw_starts_at: self.draw_starts_at,
        }
    }
}

impl CharityRaffle {
    /// Constructor that fixes the beneficiary to the given identity and
    /// starts the draw countdown at `now`.
    pub fn new(beneficiary: AccountId, now: Timestamp) -> (raffle: Self)
        requires
            now + COUNTDOWN_DURATION <= u64::MAX,
        ensures
            raffle@ == initial(beneficiary, now),
            raffle@.wf(),
    {
        let raffle = CharityRaffle {
            beneficiary,
            participants: Vec::new(),
            candidates: Vec::new(),
            winners: Vec::new(),
            draw_starts_at: now + COUNTDOWN_DURATION,
        };
        proof {
            lemma_initial_wf(beneficiary, now);
            assert(raffle@ =~= initial(beneficiary, now));
        }
        raffle
    }

    /// Constructor that fixes the zero identity as the beneficiary.
    pub fn default(now: Timestamp) -> (raffle: Self)
        requires
            now + COUNTDOWN_DURATION <= u64::MAX,
        ensures
            raffle@ == initial(AccountId { id: 0 }, now),
            raffle@.wf(),
    {
        Self::new(AccountId { id: 0 }, now)
    }

    /// Whether two winners have been drawn and the raffle accepts no
    /// further calls.
    fn finished(&self) -> (r: bool)
        ensures
            r == self@.finished(),
    {
        self.winners.len() == 2
    }

    /// Whether `who` has entered already.
    fn contains_participant(&self, who: AccountId) -> (r: bool)
        ensures
            r == self@.has_participant(who),
    {
        let n = self.participants.len();
        let mut i: usize = 0;
        while i < n
            invariant
                n == self.participants.len(),
                i <= n,
                forall|j: int| 0 <= j < i ==> self.participants@[j].who != who,
            decreases n - i,
        {
            if self.participants[i].who == who {
                proof {
                    assert(self@.pids()[i as int] == who);
                }
                return true;
            }
            i = i + 1;
        }
        proof {
            if self@.has_participant(who) {
                let k = choose|k: int| 0 <= k < self@.pids().len() && self@.pids()[k] == who;
                assert(self.participants@[k].who == who);
            }
        }
        false
    }

    /// Enter the raffle: record the caller `who` with the attached deposit
    /// `balance` and make it a draw candidate.
    ///
    /// The entry is rejected with `Finished` once two winners are drawn,
    /// with `HasPlayed` if `who` entered before, and with
    /// `InvalidDepositAmount` if the deposit is outside
    /// `[MIN_DEPOSIT, MAX_DEPOSIT]`; a rejected call leaves the raffle
    /// unchanged. On success the returned `Played` event is handed to the
    /// host to emit.
    pub fn play(&mut self, who: AccountId, balance: Balance) -> (r: Result<Played, Error>)
        requires
            old(self)@.wf(),
        ensures
            final(self)@.wf(),
            final(self)@ == play_next(old(self)@, who, balance),
            (match r {
                Ok(ev) => play_error(old(self)@, who, balance) is None && ev == (Played {
                    who,
                    balance,
                }),
                Err(e) => play_error(old(self)@, who, balance) == Some(e),
            }),
            final(self)@.winners == old(self)@.winners,
    {
        if self.finished() {
            return Err(Error::Finished);
        }
        if self.contains_participant(who) {
            return Err(Error::HasPlayed);
        }
        if balance < MIN_DEPOSIT || balance > MAX_DEPOSIT {
            return Err(Error::InvalidDepositAmount);
        }
        self.participants.push(Participant { who, balance });
        self.candidates.push(who);
        proof {
            lemma_play_preserves_wf(old(self)@, who, balance);
            assert(self@ =~= play_next(old(self)@, who, balance));
        }
        Ok(Played { who, balance })
    }

    /// The seed for the next draw: unique even for two draws at the same
    /// time, since the count of winners already drawn enters it.
    ///
    /// [`Self::draw_digest`] hashes this seed; the host keys its randomness
    /// source with the digest, and the bytes that come back are handed to
    /// [`Self::draw`].
    pub fn draw_seed(&self, now: Timestamp) -> (seed: u64)
        requires
            self@.wf(),
            now <= (u64::MAX - 2) / 10,
        ensures
            seed == now * 10 + self@.winners.len(),
    {
        now * 10 + (self.winners.len() as u64)
    }

    /// The digest the host keys its randomness source with for the next
    /// draw: the BLAKE2b-128 hash of the draw seed's little-endian bytes.
    pub fn draw_digest(&self, now: Timestamp) -> (digest: Vec<u8>)
        requires
            self@.wf(),
            now <= (u64::MAX - 2) / 10,
        ensures
            digest@ == blake2x128_of(le_u64_bytes((now * 10 + self@.winners.len()) as u64)),
            digest@.len() == 16,
    {
        let seed = self.draw_seed(now);
        let bytes = u64_le_bytes(seed);
        blake2x128(&bytes)
    }

    /// Draw one winner: select a candidate by the host-provided random
    /// bytes, move it from the candidates to the winners, and, when it was
    /// the second winner, instruct the host to pay all collected deposits
    /// to the beneficiary.
    ///
    /// The draw is rejected with `Finished` once two winners are drawn,
    /// with `InDrawCountdown` while `now` is before the countdown's end,
    /// and with `NotEnoughPlayer` while fewer than `MIN_PLAYERS` have
    /// entered; a rejected call leaves the raffle unchanged. The first four
    /// random bytes are read as a little-endian 32-bit integer and reduced
    /// modulo the candidate count; the modulo bias is accepted, inherited
    /// behaviour.
    pub fn draw(&mut self, now: Timestamp, random: &Vec<u8>) -> (r: Result<DrawOutcome, Error>)
        requires
            old(self)@.wf(),
            random@.len() >= 4,
        ensures
            final(self)@.wf(),
            final(self)@ == draw_next(old(self)@, now, random@),
            (match r {
                Ok(outcome) => {
                    &&& draw_error(old(self)@, now) is None
                    &&& outcome.winner == draw_winner(old(self)@, random@)
                    &&& outcome.payout == draw_payout(old(self)@, now, random@)
                },
                Err(e) => draw_error(old(self)@, now) == Some(e),
            }),
            old(self)@.winners.is_prefix_of(final(self)@.winners),
            old(self)@.participants.len() < MIN_PLAYERS ==> r is Err,
            now < old(self)@.draw_starts_at ==> r is Err,
    {
        proof {
            lemma_draw_monotone(old(self)@, now, random@);
        }
        if self.finished() {
            return Err(Error::Finished);
        }
        if now < self.draw_starts_at {
            return Err(Error::InDrawCountdown);
        }
        if self.participants.len() < MIN_PLAYERS {
            return Err(Error::NotEnoughPlayer);
        }
        let b0 = random[0] as u32;
        let b1 = random[1] as u32;
        let b2 = random[2] as u32;
        let b3 = random[3] as u32;
        let rand_int: u32 = b0 + b1 * 0x100 + b2 * 0x10000 + b3 * 0x1000000;
        proof {
            assert(rand_int == le_u32_of(random@));
            lemma_winner_index_in_range(old(self)@, random@);
        }
        let n = self.candidates.len();
        let idx = (rand_int as usize) % n;
        proof {
            assert(idx == winner_index(old(self)@, random@));
        }
        let winner = self.candidates[idx];
        self.winners.push(winner);
        let _ = self.candidates.swap_remove(idx);
        let payout: Option<Payout> = if self.winners.len() == 2 {
            proof {
                assert forall|k: int| 0 <= k < self.participants@.len() implies valid_deposit(
                    #[trigger] self.participants@[k].balance,
                ) by {
                    assert(valid_deposit(old(self)@.participants[k].balance));
                }
            }
            let total = self.sum_deposits_total();
            proof {
                lemma_sum_deposits_bounds(old(self)@.participants);
            }
            Some(Payout { to: self.beneficiary, amount: total })
        } else {
            None
        };
        proof {
            lemma_draw_preserves_wf(old(self)@, now, random@);
            assert(self@ =~= draw_next(old(self)@, now, random@));
        }
        Ok(DrawOutcome { winner, payout })
    }

    /// The first-drawn and second-drawn winners, each absent while not yet
    /// drawn.
    pub fn winners(&self) -> (r: (Option<AccountId>, Option<AccountId>))
        ensures
            r.0 == (if self@.winners.len() >= 1 {
                Some(self@.winners[0])
            } else {
                None::<AccountId>
            }),
            r.1 == (if self@.winners.len() >= 2 {
                Some(self@.winners[1])
            } else {
                None::<AccountId>
            }),
    {
        let first = if self.winners.len() >= 1 {
            Some(self.winners[0])
        } else {
            None
        };
        let second = if self.winners.len() >= 2 {
            Some(self.winners[1])
        } else {
            None
        };
        (first, second)
    }

    /// The fixed identity the collected deposits are owed to.
    pub fn beneficiary(&self) -> (r: AccountId)
        ensures
            r == self@.beneficiary,
    {
        self.beneficiary
    }

    /// How many participants have entered.
    pub fn participant_count(&self) -> (n: usize)
        ensures
            n == self@.participants.len(),
    {
        self.participants.len()
    }

    /// How many entrants are still eligible to be drawn.
    pub fn candidate_count(&self) -> (n: usize)
        ensures
            n == self@.candidates.len(),
    {
        self.candidates.len()
    }

    /// The sum of all recorded deposits.
    fn sum_deposits_total(&self) -> (total: Balance)
        requires
            forall|i: int|
                0 <= i < self.participants@.len() ==> valid_deposit(
                    #[trigger] self.participants@[i].balance,
                ),
        ensures
            total as int == sum_deposits(self.participants@),
    {
        let n = self.participants.len();
        let mut total: Balance = 0;
        let mut i: usize = 0;
        while i < n
            invariant
                n == self.participants.len(),
                i <= n,
                forall|k: int|
                    0 <= k < self.participants@.len() ==> valid_deposit(
                        #[trigger] self.participants@[k].balance,
                    ),
                total as int == sum_deposits(self.participants@.take(i as int)),
                total as int <= (i as int) * MAX_DEPOSIT,
            decreases n - i,
        {
            let p = self.participants[i];
            proof {
                assert(self.participants@.take(i as int + 1).drop_last() =~= self.participants@.take(
                    i as int,
                ));
                assert(self.participants@.take(i as int + 1).last() == self.participants@[i as int]);
                assert(valid_deposit(p.balance));
                assert(usize::MAX as int <= u64::MAX as int);
                assert(total as int + p.balance <= (i as int + 1) * MAX_DEPOSIT);
                assert((i as int + 1) * MAX_DEPOSIT <= u128::MAX as int) by (nonlinear_arith)
                    requires
                        0 <= i as int,
                        i as int + 1 <= 0x10000000000000000,
                ;
            }
            total = total + p.balance;
            i = i + 1;
        }
        proof {
            assert(self.participants@.take(n as int) =~= self.participants@);
        }
        total
    }
}

} // verus!
