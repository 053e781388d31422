//! Pacing of packets with tokens.

use vstd::prelude::*;

use crate::time::since;
use crate::time::Duration;
use crate::time::Instant;

verus! {

/// A pacer: sending a byte takes a token, and tokens are earned over time.
#[derive(Debug)]
pub struct TokenPacer {
    /// Tokens that can be spent.
    pub tokens: usize,
    /// Tokens that are earned in a second.
    pub rate: usize,
    /// Largest number of tokens that are kept.
    pub buffer: usize,
    /// When tokens were last earned.
    pub last_action_instant: Instant,
}

impl TokenPacer {
    /// No more tokens are kept than fit the buffer.
    pub open spec fn wf(&self) -> bool {
        self.tokens <= self.buffer
    }

    /// The tokens once `earned` more are there.
    pub open spec fn refilled(&self, earned: usize) -> usize {
        if self.tokens + earned <= self.buffer {
            (self.tokens + earned) as usize
        } else {
            self.buffer
        }
    }

    /// A pacer without tokens for the rate of `rate` bits per second.
    pub fn new(rate: usize, buffer: usize, now: Instant) -> (p: TokenPacer)
        ensures
            p.wf(),
            p == (TokenPacer { tokens: 0, rate: rate / 8, buffer, last_action_instant: now }),
    {
        TokenPacer { tokens: 0, rate: rate / 8, buffer, last_action_instant: now }
    }

    /// How long ago tokens were last earned.
    pub fn elapsed(&self, now: Instant) -> (d: Duration)
        ensures
            d.nanos == since(now.nanos as int, self.last_action_instant.nanos as int),
    {
        now.duration_since(self.last_action_instant)
    }

    /// Adds the tokens `earned` at `now` since tokens were last earned: the elapsed
    /// seconds times the rate, rounded down, which the caller computes.
    pub fn update_tokens(&mut self, now: Instant, earned: usize)
        requires
            old(self).tokens + earned <= usize::MAX,
        ensures
            final(self).wf(),
            *final(self) == (TokenPacer {
                tokens: old(self).refilled(earned),
                last_action_instant: now,
                ..*old(self)
            }),
    {
        self.last_action_instant = now;
        self.tokens += earned;
        if self.tokens > self.buffer {
            self.tokens = self.buffer;
        }
    }

    /// Whether a packet of `size` bytes may be sent at `now`, which takes its
    /// tokens.
    pub fn send(&mut self, size: usize, now: Instant, earned: usize) -> (r: bool)
        requires
            old(self).tokens + earned <= usize::MAX,
        ensures
            final(self).wf(),
            r == (old(self).refilled(earned) >= size),
            *final(self) == old(self).after_send(size, now, earned),
    {
        self.update_tokens(now, earned);
        if self.tokens < size {
            return false;
        }
        self.tokens -= size;
        true
    }

    /// The pacer after a packet of `size` bytes was asked for.
    pub open spec fn after_send(&self, size: usize, now: Instant, earned: usize) -> TokenPacer {
        let refilled = self.refilled(earned);
        TokenPacer {
            tokens: if refilled >= size {
                (refilled - size) as usize
            } else {
                refilled
            },
            last_action_instant: now,
            ..*self
        }
    }
}

/// A packet may leave exactly when its length is covered both by the tokens that are there
/// with those that were earned, and by the buffer. Then it takes one token a byte; else
/// none is taken. Tokens beyond the buffer are lost, and the pacer notes the instant either
/// way.
pub proof fn a_byte_takes_a_token(p: TokenPacer, size: usize, now: Instant, earned: usize)
    requires
        p.tokens + earned <= usize::MAX,
    ensures
        ({
            let q = p.after_send(size, now, earned);
            let leaves = p.refilled(earned) >= size;
            &&& leaves <==> p.tokens + earned >= size && p.buffer >= size
            &&& leaves && p.tokens + earned <= p.buffer ==> q.tokens == p.tokens + earned - size
            &&& leaves && p.tokens + earned > p.buffer ==> q.tokens == p.buffer - size
            &&& !leaves && p.tokens + earned <= p.buffer ==> q.tokens == p.tokens + earned
            &&& !leaves && p.tokens + earned > p.buffer ==> q.tokens == p.buffer
            &&& q.last_action_instant == now
            &&& q.rate == p.rate
            &&& q.buffer == p.buffer
        }),
{
}

/// A request to send `size` bytes at `now`, when `earned` tokens were earned since
/// the last one.
pub struct Request {
    /// Bytes to send.
    pub size: usize,
    /// When they are to be sent.
    pub now: Instant,
    /// Tokens that were earned.
    pub earned: usize,
}

/// A pacer after some requests.
pub open spec fn after_requests(p: TokenPacer, reqs: Seq<Request>) -> TokenPacer
    decreases reqs.len(),
{
    if reqs.len() == 0 {
        p
    } else {
        after_requests(p, reqs.drop_last()).after_send(
            reqs.last().size,
            reqs.last().now,
            reqs.last().earned,
        )
    }
}

/// How many bytes some requests send.
pub open spec fn bytes_sent(p: TokenPacer, reqs: Seq<Request>) -> nat
    decreases reqs.len(),
{
    if reqs.len() == 0 {
        0
    } else {
        let q = after_requests(p, reqs.drop_last());
        bytes_sent(p, reqs.drop_last()) + if q.refilled(reqs.last().earned) >= reqs.last().size {
            reqs.last().size as nat
        } else {
            0
        }
    }
}

/// How many tokens some requests earn.
pub open spec fn tokens_earned(reqs: Seq<Request>) -> nat
    decreases reqs.len(),
{
    if reqs.len() == 0 {
        0
    } else {
        tokens_earned(reqs.drop_last()) + reqs.last().earned as nat
    }
}

/// No more bytes are sent than tokens were there or were earned, and no burst is
/// longer than the buffer.
pub proof fn pacer_never_overspends(p: TokenPacer, reqs: Seq<Request>)
    requires
        p.wf(),
    ensures
        after_requests(p, reqs).wf(),
        bytes_sent(p, reqs) + after_requests(p, reqs).tokens <= p.tokens + tokens_earned(reqs),
        after_requests(p, reqs).buffer == p.buffer,
        after_requests(p, reqs).rate == p.rate,
    decreases reqs.len(),
{
    if reqs.len() > 0 {
        pacer_never_overspends(p, reqs.drop_last());
    }
}

/// When the tokens of a pacer were last earned, after some requests.
pub open spec fn last_instant(p: TokenPacer, reqs: Seq<Request>) -> Instant {
    if reqs.len() == 0 {
        p.last_action_instant
    } else {
        reqs.last().now
    }
}

/// Whether some requests come one after the other, and each earns at most the tokens
/// of the time that has passed since the one before it.
pub open spec fn earned_in_time(p: TokenPacer, reqs: Seq<Request>) -> bool
    decreases reqs.len(),
{
    reqs.len() > 0 ==> {
        let before = last_instant(p, reqs.drop_last());
        &&& earned_in_time(p, reqs.drop_last())
        &&& before.nanos <= reqs.last().now.nanos
        &&& reqs.last().earned * 1_000_000_000 <= p.rate * (reqs.last().now.nanos - before.nanos)
    }
}

/// The rate is kept: no more bytes are sent than there were tokens at the start and
/// the rate allows in the time that has passed. A new pacer has no tokens, so it
/// sends at most what the rate allows.
pub proof fn pacer_keeps_the_rate(p: TokenPacer, reqs: Seq<Request>)
    requires
        p.wf(),
        earned_in_time(p, reqs),
    ensures
        p.last_action_instant.nanos <= last_instant(p, reqs).nanos,
        bytes_sent(p, reqs) * 1_000_000_000 <= p.tokens * 1_000_000_000 + p.rate * (last_instant(
            p,
            reqs,
        ).nanos - p.last_action_instant.nanos),
{
    pacer_never_overspends(p, reqs);
    lemma_earned(p, reqs);
}

/// Between any two requests, no more bytes are sent than the buffer holds and the rate
/// allows in the time between them.
pub proof fn bursts_are_bounded(p: TokenPacer, reqs: Seq<Request>, i: int)
    requires
        p.wf(),
        earned_in_time(p, reqs),
        0 <= i <= reqs.len(),
    ensures
        ({
            let q = after_requests(p, reqs.take(i));
            &&& q.wf()
            &&& q.buffer == p.buffer
            &&& bytes_sent(p, reqs) == bytes_sent(p, reqs.take(i)) + bytes_sent(q, reqs.skip(i))
            &&& bytes_sent(q, reqs.skip(i)) * 1_000_000_000 <= p.buffer * 1_000_000_000 + p.rate * (
            last_instant(p, reqs).nanos - last_instant(p, reqs.take(i)).nanos)
        }),
{
    let q = after_requests(p, reqs.take(i));
    pacer_never_overspends(p, reqs.take(i));
    lemma_requests_split(p, reqs, i);
    pacer_keeps_the_rate(q, reqs.skip(i));
    assert(q.last_action_instant == last_instant(p, reqs.take(i)));
    assert(last_instant(q, reqs.skip(i)) == last_instant(p, reqs)) by {
        if i < reqs.len() {
            assert(reqs.skip(i).last() == reqs.last());
        } else {
            assert(reqs.take(i) =~= reqs);
        }
    }
}

proof fn lemma_earned(p: TokenPacer, reqs: Seq<Request>)
    requires
        earned_in_time(p, reqs),
    ensures
        p.last_action_instant.nanos <= last_instant(p, reqs).nanos,
        tokens_earned(reqs) * 1_000_000_000 <= p.rate * (last_instant(p, reqs).nanos
            - p.last_action_instant.nanos),
    decreases reqs.len(),
{
    if reqs.len() > 0 {
        lemma_earned(p, reqs.drop_last());
        let a = last_instant(p, reqs.drop_last()).nanos - p.last_action_instant.nanos;
        let b = reqs.last().now.nanos - last_instant(p, reqs.drop_last()).nanos;
        assert(p.rate * a + p.rate * b == p.rate * (a + b)) by (nonlinear_arith);
    }
}

proof fn lemma_requests_split(p: TokenPacer, reqs: Seq<Request>, i: int)
    requires
        0 <= i <= reqs.len(),
        earned_in_time(p, reqs),
    ensures
        ({
            let q = after_requests(p, reqs.take(i));
            &&& q.rate == p.rate
            &&& q.last_action_instant == last_instant(p, reqs.take(i))
            &&& after_requests(p, reqs) == after_requests(q, reqs.skip(i))
            &&& bytes_sent(p, reqs) == bytes_sent(p, reqs.take(i)) + bytes_sent(q, reqs.skip(i))
            &&& earned_in_time(q, reqs.skip(i))
        }),
    decreases reqs.len(),
{
    if i == reqs.len() {
        assert(reqs.take(i) =~= reqs);
        if i > 0 {
            lemma_requests_split(p, reqs.drop_last(), i - 1);
            lemma_rate_stays(p, reqs);
        }
    } else {
        let front = reqs.drop_last();
        lemma_requests_split(p, front, i);
        assert(front.take(i) =~= reqs.take(i));
        assert(front.skip(i) =~= reqs.skip(i).drop_last());
        assert(reqs.skip(i).last() == reqs.last());
        let q = after_requests(p, reqs.take(i));
        assert(last_instant(q, front.skip(i)) == last_instant(p, front)) by {
            if i < front.len() {
                assert(front.skip(i).last() == front.last());
            } else {
                assert(front.take(i) =~= front);
            }
        }
    }
}

proof fn lemma_rate_stays(p: TokenPacer, reqs: Seq<Request>)
    ensures
        after_requests(p, reqs).rate == p.rate,
    decreases reqs.len(),
{
    if reqs.len() > 0 {
        lemma_rate_stays(p, reqs.drop_last());
    }
}

/// A bitrate that was scaled in floating point for each type of pacer.
#[derive(Clone, Copy, Debug, PartialEq, Eq, Structural)]
pub struct ScaledRates {
    /// One and a half times the bitrate.
    pub higher: usize,
    /// The bitrate with room for one frame out of thirty that is five times as
    /// large as the others.
    pub optimal: usize,
}

/// Types of pacers.
#[derive(Clone, Copy, Debug, PartialEq, Eq, Structural)]
pub enum PacerType {
    /// Use 1.5x the bitrate.
    Higher,
    /// Use the smallest bitrate that the flow needs.
    Optimal,
}

impl PacerType {
    /// A pacer of this type.
    pub fn get_pacer(&self, rates: ScaledRates, buffer: usize, now: Instant) -> (p: TokenPacer)
        ensures
            p.wf(),
            p == (TokenPacer {
                tokens: 0,
                rate: match self {
                    PacerType::Higher => rates.higher,
                    PacerType::Optimal => rates.optimal,
                } / 8,
                buffer,
                last_action_instant: now,
            }),
    {
        match self {
            PacerType::Higher => TokenPacer::new(rates.higher, buffer, now),
            PacerType::Optimal => TokenPacer::new(rates.optimal, buffer, now),
        }
    }

    /// The type with a name.
    pub fn parse(s: &str) -> (r: core::result::Result<PacerType, String>)
        ensures
            s@ == "optimal"@ ==> r == Ok::<PacerType, String>(PacerType::Optimal),
            s@ == "higher"@ ==> r == Ok::<PacerType, String>(PacerType::Higher),
            s@ != "optimal"@ && s@ != "higher"@ ==> r is Err && r->Err_0@ == "Invalid type"@,
    {
        let name: String = s.to_owned();
        proof {
            reveal_strlit("optimal");
            reveal_strlit("higher");
            assert("optimal"@.len() != "higher"@.len());
        }
        if name == "optimal".to_owned() {
            Ok(PacerType::Optimal)
        } else if name == "higher".to_owned() {
            Ok(PacerType::Higher)
        } else {
            Err("Invalid type".to_owned())
        }
    }
}

impl core::str::FromStr for PacerType {
    type Err = String;

    fn from_str(s: &str) -> (r: core::result::Result<PacerType, String>)
        ensures
            s@ == "optimal"@ ==> r == Ok::<PacerType, String>(PacerType::Optimal),
            s@ == "higher"@ ==> r == Ok::<PacerType, String>(PacerType::Higher),
            s@ != "optimal"@ && s@ != "higher"@ ==> r is Err && r->Err_0@ == "Invalid type"@,
    {
        PacerType::parse(s)
    }
}

/// A new pacer earns a byte for each eight bits of the rate, rounded down, and has no tokens yet.
pub proof fn new_pacers_earn_a_byte_for_eight_bits(
    rate: usize,
    buffer: usize,
    now: Instant,
    p: TokenPacer,
)
    requires
        call_ensures(TokenPacer::new, (rate, buffer, now), p),
    ensures
        p.rate * 8 <= rate < p.rate * 8 + 8,
        p.tokens == 0,
        p.buffer == buffer,
        p.last_action_instant == now,
{
}

/// A pacer has the rate of its type.
pub proof fn pacers_have_the_rate_of_their_type(
    t: PacerType,
    rates: ScaledRates,
    buffer: usize,
    now: Instant,
    p: TokenPacer,
)
    requires
        call_ensures(PacerType::get_pacer, (&t, rates, buffer, now), p),
    ensures
        t is Higher ==> p.rate * 8 <= rates.higher < p.rate * 8 + 8,
        t is Optimal ==> p.rate * 8 <= rates.optimal < p.rate * 8 + 8,
        p.tokens == 0,
        p.buffer == buffer,
{
}

/// Tokens that are earned are there from then on, up to the buffer.
pub proof fn earned_tokens_are_kept_up_to_the_buffer(p: &mut TokenPacer, now: Instant, earned: usize)
    requires
        call_ensures(TokenPacer::update_tokens, (p, now, earned), ()),
        old(p).tokens + earned <= usize::MAX,
    ensures
        final(p).tokens <= old(p).tokens + earned,
        final(p).tokens <= old(p).buffer,
        final(p).tokens == old(p).tokens + earned || final(p).tokens == old(p).buffer,
        final(p).last_action_instant == now,
        final(p).rate == old(p).rate,
        final(p).buffer == old(p).buffer,
{
}

/// A pacer that lets a packet go has as many tokens less as the packet has bytes than one that
/// was asked for an empty packet at the same time; one that holds it back has the same.
pub proof fn only_packets_that_leave_cost_tokens(
    p: &mut TokenPacer,
    size: usize,
    now: Instant,
    earned: usize,
    r: bool,
)
    requires
        call_ensures(TokenPacer::send, (p, size, now, earned), r),
        old(p).tokens + earned <= usize::MAX,
    ensures
        ({
            let there = if old(p).tokens + earned <= old(p).buffer {
                old(p).tokens + earned
            } else {
                old(p).buffer as int
            };
            &&& r <==> size <= there
            &&& r ==> final(p).tokens + size == there
            &&& !r ==> final(p).tokens == there
        }),
{
}

} // verus!
