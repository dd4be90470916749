//! The generator behind the record sizes: splitmix64, and how a session seeds it.

use vstd::prelude::*;

verus! {

/// What one draw adds to the generator's state.
pub const GAMMA: u64 = 0x9E37_79B9_7F4A_7C15;

/// The first multiplier of the output mix.
pub const MIX_FIRST: u64 = 0xBF58_476D_1CE4_E5B9;

/// The second multiplier of the output mix.
pub const MIX_SECOND: u64 = 0x94D0_49BB_1331_11EB;

/// The state that follows `state`.
pub open spec fn next_state(state: u64) -> u64 {
    state.wrapping_add(GAMMA)
}

/// The output mix of splitmix64: two rounds of shift, xor and multiply, then a last
/// shift and xor.
pub open spec fn mixed(z: u64) -> u64 {
    let first: u64 = (z ^ (z >> 30u64)).wrapping_mul(MIX_FIRST);
    let second: u64 = (first ^ (first >> 27u64)).wrapping_mul(MIX_SECOND);
    second ^ (second >> 31u64)
}

/// What the process's reading of the clock contributes to its seeds: the nanoseconds, kept
/// to 64 bits, or zero where the clock stood before the Unix epoch.
pub open spec fn clock_bits(epoch: Option<u128>) -> u64 {
    match epoch {
        Some(nanos) => (nanos % 0x1_0000_0000_0000_0000) as u64,
        None => 0,
    }
}

/// The seed of session number `session` in a process whose one reading of the clock is
/// `epoch`.
pub open spec fn session_seed(epoch: Option<u128>, session: u64) -> u64 {
    mixed(clock_bits(epoch) ^ session.wrapping_mul(GAMMA))
}

/// Mixes `z` into an output word.
pub fn mix(z: u64) -> (word: u64)
    ensures
        word == mixed(z),
{
    let first: u64 = (z ^ (z >> 30u64)).wrapping_mul(MIX_FIRST);
    let second: u64 = (first ^ (first >> 27u64)).wrapping_mul(MIX_SECOND);
    second ^ (second >> 31u64)
}

/// The seed of session number `session` in a process whose one reading of the clock is
/// `epoch`.
///
/// The reading tells processes apart and the number tells the sessions of one process apart.
/// A reading for each session would undo the latter: it could make up for the difference
/// between two numbers.
pub fn fresh_seed(epoch: Option<u128>, session: u64) -> (seed: u64)
    ensures
        seed == session_seed(epoch, session),
        (unmixed(seed) ^ session.wrapping_mul(GAMMA)) as nat == match epoch {
            Some(nanos) => nanos as nat % 0x1_0000_0000_0000_0000,
            None => 0,
        },
{
    proof {
        law_a_seed_gives_back_its_reading(epoch, session);
    }
    let bits: u64 = match epoch {
        Some(nanos) => {
            let low: u128 = nanos % 0x1_0000_0000_0000_0000;
            low as u64
        },
        None => 0,
    };
    mix(bits ^ session.wrapping_mul(GAMMA))
}

/// `std::time::SystemTime::elapsed` on `std::time::UNIX_EPOCH`, as a count of
/// nanoseconds; `None` where the clock stands before the epoch.
///
/// The reading rests on the machine's clock, so nothing is claimed of it.
#[verifier::external_body]
fn nanos_since_epoch() -> (nanos: Option<u128>) {
    match std::time::UNIX_EPOCH.elapsed() {
        Ok(elapsed) => Some(elapsed.as_nanos()),
        Err(_) => None,
    }
}

/// A seed source in the abstract.
pub struct SeedModel {
    /// The process's reading of the clock.
    pub epoch: Option<u128>,
    /// The number of the next session.
    pub issued: u64,
}

impl SeedModel {
    /// The source after one more session.
    pub open spec fn next(self) -> Self {
        SeedModel { issued: self.issued.wrapping_add(1), ..self }
    }

    /// The source after `n` more sessions.
    pub open spec fn after(self, n: nat) -> Self
        decreases n,
    {
        if n == 0 {
            self
        } else {
            self.after((n - 1) as nat).next()
        }
    }

    /// The seed of the session that is numbered next.
    pub open spec fn seed(self) -> u64 {
        session_seed(self.epoch, self.issued)
    }
}

/// The process-wide seed source, so that two sessions never draw the same sequence: one
/// reading of the clock, and the numbers of the sessions.
#[derive(Debug)]
pub struct SeedSource {
    epoch: Option<u128>,
    issued: u64,
}

impl View for SeedSource {
    type V = SeedModel;

    closed spec fn view(&self) -> SeedModel {
        SeedModel { epoch: self.epoch, issued: self.issued }
    }
}

impl SeedSource {
    /// The source of a process, which reads the clock now and not again. What the clock reads
    /// is not claimed.
    pub fn new() -> (source: Self)
        ensures
            source@.issued == 0,
    {
        Self::at(nanos_since_epoch())
    }

    /// The source of a process whose reading of the clock is `epoch`.
    pub fn at(epoch: Option<u128>) -> (source: Self)
        ensures
            source@ == (SeedModel { epoch, issued: 0 }),
    {
        SeedSource { epoch, issued: 0 }
    }

    /// The process's reading of the clock.
    pub fn epoch(&self) -> (epoch: Option<u128>)
        ensures
            epoch == self@.epoch,
    {
        self.epoch
    }

    /// A number for a new session. Numbers wrap at 64 bits.
    pub fn next_session(&mut self) -> (session: u64)
        ensures
            session == old(self)@.issued,
            final(self)@ == old(self)@.next(),
    {
        let session: u64 = self.issued;
        self.issued = session.wrapping_add(1);
        session
    }
}

/// The inverse of [`GAMMA`] modulo 2^64.
pub const GAMMA_INVERSE: u64 = 0xF1DE_83E1_9937_733D;

/// The inverse of [`MIX_FIRST`] modulo 2^64.
pub const MIX_FIRST_INVERSE: u64 = 0x96DE_1B17_3F11_9089;

/// The inverse of [`MIX_SECOND`] modulo 2^64.
pub const MIX_SECOND_INVERSE: u64 = 0x3196_42B2_D24D_8EC3;

/// The word that [`mixed`] turns into `word`.
pub open spec fn unmixed(word: u64) -> u64 {
    let second: u64 = word ^ (word >> 31u64) ^ (word >> 62u64);
    let y: u64 = second.wrapping_mul(MIX_SECOND_INVERSE);
    let first: u64 = y ^ (y >> 27u64) ^ (y >> 54u64);
    let x: u64 = first.wrapping_mul(MIX_FIRST_INVERSE);
    x ^ (x >> 30u64) ^ (x >> 60u64)
}

/// The generator's state after `draws` draws from the seed `seed`.
pub open spec fn state_after(seed: u64, draws: nat) -> u64
    decreases draws,
{
    if draws == 0 {
        seed
    } else {
        next_state(state_after(seed, (draws - 1) as nat))
    }
}

/// Drawing `a` times and then `b` times is drawing as often as both.
pub proof fn lemma_state_after_adds(seed: u64, a: nat, b: nat)
    ensures
        state_after(state_after(seed, a), b) == state_after(seed, a + b),
    decreases b,
{
    if b > 0 {
        lemma_state_after_adds(seed, a, (b - 1) as nat);
        assert((a + b - 1) as nat == a + (b - 1) as nat);
    }
}

/// Multiplying by `c` and then by an inverse of `c` modulo 2^64 changes nothing.
proof fn lemma_wrapping_mul_undone(x: u64, c: u64, d: u64)
    requires
        (c as int * d as int) % 0x1_0000_0000_0000_0000 == 1,
    ensures
        x.wrapping_mul(c).wrapping_mul(d) == x,
{
    let m: int = 0x1_0000_0000_0000_0000;
    let (x, c, d): (int, int, int) = (x as int, c as int, d as int);
    vstd::arithmetic::div_mod::lemma_mul_mod_noop_left(x * c, d, m);
    vstd::arithmetic::mul::lemma_mul_is_associative(x, c, d);
    vstd::arithmetic::div_mod::lemma_mul_mod_noop_right(x, c * d, m);
    vstd::arithmetic::div_mod::lemma_small_mod(x as nat, m as nat);
}

/// [`unmixed`] undoes [`mixed`].
pub proof fn lemma_unmixed_mixed(z: u64)
    ensures
        unmixed(mixed(z)) == z,
{
    let x: u64 = z ^ (z >> 30u64);
    let first: u64 = x.wrapping_mul(MIX_FIRST);
    let y: u64 = first ^ (first >> 27u64);
    let second: u64 = y.wrapping_mul(MIX_SECOND);
    let word: u64 = second ^ (second >> 31u64);
    assert(word ^ (word >> 31u64) ^ (word >> 62u64) == second) by (bit_vector)
        requires
            word == second ^ (second >> 31u64),
    ;
    lemma_wrapping_mul_undone(y, MIX_SECOND, MIX_SECOND_INVERSE);
    assert(y ^ (y >> 27u64) ^ (y >> 54u64) == first) by (bit_vector)
        requires
            y == first ^ (first >> 27u64),
    ;
    lemma_wrapping_mul_undone(x, MIX_FIRST, MIX_FIRST_INVERSE);
    assert(x ^ (x >> 30u64) ^ (x >> 60u64) == z) by (bit_vector)
        requires
            x == z ^ (z >> 30u64),
    ;
}

/// [`mixed`] undoes [`unmixed`].
pub proof fn lemma_mixed_unmixed(word: u64)
    ensures
        mixed(unmixed(word)) == word,
{
    let second: u64 = word ^ (word >> 31u64) ^ (word >> 62u64);
    let y: u64 = second.wrapping_mul(MIX_SECOND_INVERSE);
    let first: u64 = y ^ (y >> 27u64) ^ (y >> 54u64);
    let x: u64 = first.wrapping_mul(MIX_FIRST_INVERSE);
    let z: u64 = x ^ (x >> 30u64) ^ (x >> 60u64);
    assert(z ^ (z >> 30u64) == x) by (bit_vector)
        requires
            z == x ^ (x >> 30u64) ^ (x >> 60u64),
    ;
    lemma_wrapping_mul_undone(first, MIX_FIRST_INVERSE, MIX_FIRST);
    assert(first ^ (first >> 27u64) == y) by (bit_vector)
        requires
            first == y ^ (y >> 27u64) ^ (y >> 54u64),
    ;
    lemma_wrapping_mul_undone(second, MIX_SECOND_INVERSE, MIX_SECOND);
    assert(second ^ (second >> 31u64) == word) by (bit_vector)
        requires
            second == word ^ (word >> 31u64) ^ (word >> 62u64),
    ;
}

/// Law: the output mix loses nothing. Every word is the mix of exactly one input.
pub proof fn law_mix_is_a_bijection(a: u64, b: u64, word: u64)
    ensures
        mixed(a) == mixed(b) ==> a == b,
        mixed(a) == word <==> a == unmixed(word),
{
    lemma_unmixed_mixed(a);
    lemma_unmixed_mixed(b);
    lemma_mixed_unmixed(word);
}

/// Law: two sessions of one process get different seeds.
pub proof fn law_sessions_get_distinct_seeds(epoch: Option<u128>, a: u64, b: u64)
    requires
        a != b,
    ensures
        session_seed(epoch, a) != session_seed(epoch, b),
{
    let bits: u64 = clock_bits(epoch);
    let x: u64 = a.wrapping_mul(GAMMA);
    let y: u64 = b.wrapping_mul(GAMMA);
    lemma_wrapping_mul_undone(a, GAMMA, GAMMA_INVERSE);
    lemma_wrapping_mul_undone(b, GAMMA, GAMMA_INVERSE);
    assert(bits ^ x != bits ^ y) by (bit_vector)
        requires
            x != y,
    ;
    law_mix_is_a_bijection(bits ^ x, bits ^ y, 0);
}

/// Law: two seeds that differ never agree on a draw. The words that the generator puts out
/// for them differ at every step.
pub proof fn law_distinct_seeds_never_agree(a: u64, b: u64, draws: nat)
    requires
        a != b,
    ensures
        state_after(a, draws) != state_after(b, draws),
        mixed(state_after(a, draws)) != mixed(state_after(b, draws)),
    decreases draws,
{
    if draws > 0 {
        law_distinct_seeds_never_agree(a, b, (draws - 1) as nat);
    }
    law_mix_is_a_bijection(state_after(a, draws), state_after(b, draws), 0);
}

/// The number that follows `n` more sessions.
proof fn lemma_sessions_are_numbered(source: SeedModel, n: nat)
    ensures
        source.after(n).epoch == source.epoch,
        source.after(n).issued as nat == (source.issued as nat + n) % 0x1_0000_0000_0000_0000,
    decreases n,
{
    if n > 0 {
        lemma_sessions_are_numbered(source, (n - 1) as nat);
    }
}

/// Law: two sessions never draw the same sequence. Of the sessions that a seed source numbers,
/// as many as there are numbers, no two get the same seed, and no two agree on any draw.
pub proof fn law_sessions_never_draw_alike(source: SeedModel, i: nat, j: nat, draws: nat)
    requires
        i < j < i + 0x1_0000_0000_0000_0000,
    ensures
        source.after(i).seed() != source.after(j).seed(),
        mixed(state_after(source.after(i).seed(), draws)) != mixed(
            state_after(source.after(j).seed(), draws),
        ),
{
    lemma_sessions_are_numbered(source, i);
    lemma_sessions_are_numbered(source, j);
    law_sessions_get_distinct_seeds(
        source.epoch,
        source.after(i).issued,
        source.after(j).issued,
    );
    law_distinct_seeds_never_agree(source.after(i).seed(), source.after(j).seed(), draws);
}

/// Law: the output mix is splitmix64's. Undoing the last shift, the second multiplication, the
/// second shift, the first multiplication and the first shift of a mixed word, in that order,
/// gives back what was mixed.
pub proof fn law_mix_is_undone_step_by_step(z: u64)
    ensures
        ({
            let word: u64 = mixed(z);
            let second: u64 = word ^ (word >> 31u64) ^ (word >> 62u64);
            let y: u64 = second.wrapping_mul(0x3196_42B2_D24D_8EC3);
            let first: u64 = y ^ (y >> 27u64) ^ (y >> 54u64);
            let x: u64 = first.wrapping_mul(0x96DE_1B17_3F11_9089);
            x ^ (x >> 30u64) ^ (x >> 60u64) == z
        }),
{
    lemma_unmixed_mixed(z);
}

/// Law: every draw moves the generator on by one and the same odd step, modulo 2^64.
pub proof fn law_draws_move_the_generator(state: u64, draws: nat)
    ensures
        (next_state(state) - state) % 0x1_0000_0000_0000_0000 == 0x9E37_79B9_7F4A_7C15,
        state_after(state, draws) as nat == (state as nat + draws * 0x9E37_79B9_7F4A_7C15)
            % 0x1_0000_0000_0000_0000,
    decreases draws,
{
    let m: int = 0x1_0000_0000_0000_0000;
    let step: int = 0x9E37_79B9_7F4A_7C15;
    lemma_next_state(state);
    if draws == 0 {
        vstd::arithmetic::div_mod::lemma_small_mod(state as nat, m as nat);
    } else {
        let before: nat = (draws - 1) as nat;
        law_draws_move_the_generator(state, before);
        lemma_next_state(state_after(state, before));
        vstd::arithmetic::div_mod::lemma_add_mod_noop(state + before * step, step, m);
        vstd::arithmetic::div_mod::lemma_small_mod(step as nat, m as nat);
        assert(draws * step == before * step + step) by (nonlinear_arith)
            requires
                draws == before + 1,
        ;
    }
}

/// One draw adds the step, modulo 2^64.
proof fn lemma_next_state(state: u64)
    ensures
        next_state(state) as int == (state + 0x9E37_79B9_7F4A_7C15) % 0x1_0000_0000_0000_0000,
        (next_state(state) - state) % 0x1_0000_0000_0000_0000 == 0x9E37_79B9_7F4A_7C15,
{
}

/// Law: the generator does not repeat itself. Of the 2^64 states that follow a seed, and of
/// the words that they put out, no two are the same.
pub proof fn law_draws_do_not_repeat(seed: u64, i: nat, j: nat)
    requires
        i < j < i + 0x1_0000_0000_0000_0000,
    ensures
        state_after(seed, i) != state_after(seed, j),
        mixed(state_after(seed, i)) != mixed(state_after(seed, j)),
{
    let m: int = 0x1_0000_0000_0000_0000;
    let g: int = GAMMA as int;
    let gap: u64 = (j - i) as u64;
    law_draws_move_the_generator(seed, i);
    law_draws_move_the_generator(seed, j);
    if state_after(seed, i) == state_after(seed, j) {
        let low: int = seed + i * g;
        let high: int = seed + j * g;
        assert(high - low == gap * g) by (nonlinear_arith)
            requires
                low == seed + i * g,
                high == seed + j * g,
                gap == j - i,
        ;
        vstd::arithmetic::div_mod::lemma_mod_equivalence(high, low, m);
        assert((gap * g) % m == 0);
        assert(gap.wrapping_mul(GAMMA) == 0);
        lemma_wrapping_mul_undone(gap, GAMMA, GAMMA_INVERSE);
        assert(0u64.wrapping_mul(GAMMA_INVERSE) == 0);
    }
    law_mix_is_a_bijection(state_after(seed, i), state_after(seed, j), 0);
}

/// Law: the reading tells processes apart. Readings of the clock that differ in their low 64
/// bits give any one session number different seeds.
pub proof fn law_readings_get_distinct_seeds(a: u128, b: u128, session: u64)
    requires
        a % 0x1_0000_0000_0000_0000 != b % 0x1_0000_0000_0000_0000,
    ensures
        session_seed(Some(a), session) != session_seed(Some(b), session),
{
    law_a_seed_gives_back_its_reading(Some(a), session);
    law_a_seed_gives_back_its_reading(Some(b), session);
}

/// Law: a seed loses nothing of the reading. The mix undone, and the session's multiple of the
/// generator's step taken out again, what is left of a seed is the low 64 bits of the reading;
/// and zero where the clock stood before the epoch.
pub proof fn law_a_seed_gives_back_its_reading(epoch: Option<u128>, session: u64)
    ensures
        (unmixed(session_seed(epoch, session)) ^ session.wrapping_mul(0x9E37_79B9_7F4A_7C15)) as nat
            == match epoch {
            Some(nanos) => nanos as nat % 0x1_0000_0000_0000_0000,
            None => 0,
        },
        epoch is None ==> session_seed(epoch, session) == session_seed(Some(0), session),
{
    let bits: u64 = clock_bits(epoch);
    let x: u64 = session.wrapping_mul(GAMMA);
    lemma_unmixed_mixed(bits ^ x);
    assert((bits ^ x) ^ x == bits) by (bit_vector);
}

/// Law: sessions are numbered one after the other. After `n` more sessions the next number is
/// `n` further, modulo 2^64, and the reading of the clock is the one it was.
pub proof fn law_sessions_are_numbered_in_turn(source: SeedModel, n: nat)
    ensures
        source.after(n).epoch == source.epoch,
        source.after(n).issued as nat == (source.issued as nat + n) % 0x1_0000_0000_0000_0000,
        source.after(n).seed() == session_seed(source.epoch, source.after(n).issued),
{
    lemma_sessions_are_numbered(source, n);
}

} // verus!
