use vstd::prelude::*;

verus! {

/// The short name of a room, typed by hand to find it. It is unique among
/// the registered rooms and never changes.
pub type RoomCode = String;

/// The secret that is bound to a room when it is created. Only the host role
/// needs it, and it dies with the room.
pub type JoinToken = String;

/// How many symbols a room code has.
pub const CODE_LENGTH: usize = 4;

/// How many symbols a join token has.
pub const TOKEN_LENGTH: usize = 24;

/// The size of the alphabet of codes and tokens: the digits, then the capital
/// letters.
pub const SYMBOLS: u64 = 36;

/// The multiplier of the generator's step.
pub const MULTIPLIER: u64 = 6364136223846793005;

/// The increment of the generator's step.
pub const INCREMENT: u64 = 1442695040888963407;

/// `String::push` appends the given character to the end of the string and
/// leaves the rest of it as it was.
pub assume_specification[ String::push ](text: &mut String, ch: char)
    ensures
        final(text)@ == old(text)@.push(ch),
;

/// The symbol that stands for the digit `d` of the alphabet: `'0'` to `'9'`
/// for 0 to 9, `'A'` to `'Z'` for 10 to 35.
pub open spec fn symbol(d: u64) -> char
    recommends
        d < SYMBOLS,
{
    if d < 10 {
        (48 + d) as u8 as char
    } else {
        (55 + d) as u8 as char
    }
}

/// One step of the generator: a linear congruential step modulo 2^64.
pub open spec fn step(state: u64) -> u64 {
    state.wrapping_mul(MULTIPLIER).wrapping_add(INCREMENT)
}

/// The state after `steps` steps.
pub open spec fn advance(state: u64, steps: nat) -> u64
    decreases steps,
{
    if steps == 0 {
        state
    } else {
        step(advance(state, (steps - 1) as nat))
    }
}

/// The symbol that a state shows: its upper bits, reduced to the alphabet.
pub open spec fn shown(state: u64) -> char {
    symbol((state >> 33) % SYMBOLS)
}

/// The `n` symbols that a generator in `state` draws next: one per step.
#[verifier::opaque]
pub open spec fn drawn(state: u64, n: nat) -> Seq<char> {
    Seq::new(n, |i: int| shown(advance(state, (i + 1) as nat)))
}

/// Steps add up.
pub proof fn lemma_advance_add(state: u64, a: nat, b: nat)
    ensures
        advance(advance(state, a), b) == advance(state, a + b),
    decreases b,
{
    if b > 0 {
        lemma_advance_add(state, a, (b - 1) as nat);
    }
}

/// Every drawn symbol is a digit or a capital letter, so a drawn text can be
/// typed by hand.
pub proof fn theorem_drawn_is_typable(state: u64, n: nat)
    ensures
        drawn(state, n).len() == n,
        forall|i: int|
            0 <= i < n ==> {
                let c = #[trigger] drawn(state, n)[i];
                ('0' <= c <= '9') || ('A' <= c <= 'Z')
            },
{
    reveal(drawn);
    assert forall|i: int| 0 <= i < n implies {
        let c = #[trigger] drawn(state, n)[i];
        ('0' <= c <= '9') || ('A' <= c <= 'Z')
    } by {
        let s = advance(state, (i + 1) as nat);
        let d = (s >> 33) % SYMBOLS;
        assert(d < 36);
    }
}

/// The deterministic source of room codes and join tokens.
pub struct Generator {
    state: u64,
}

impl Generator {
    /// The state from which the next symbol is drawn.
    pub closed spec fn state(&self) -> u64 {
        self.state
    }

    /// A generator that starts from `seed`.
    pub fn new(seed: u64) -> (generator: Generator)
        ensures
            generator.state() == seed,
    {
        Generator { state: seed }
    }

    /// Draws a text of `n` symbols and moves the generator `n` steps on.
    pub fn draw(&mut self, n: usize) -> (text: String)
        ensures
            text@ == drawn(old(self).state(), n as nat),
            final(self).state() == advance(old(self).state(), n as nat),
    {
        let ghost start = self.state;
        let mut text = String::new();
        proof {
            reveal(drawn);
        }
        let mut i: usize = 0;
        while i < n
            invariant
                i <= n,
                self.state == advance(start, i as nat),
                text@ == drawn(start, i as nat),
            decreases n - i,
        {
            self.state = self.state.wrapping_mul(MULTIPLIER).wrapping_add(INCREMENT);
            let d: u64 = (self.state >> 33) % SYMBOLS;
            let byte: u8 = if d < 10 {
                (48 + d) as u8
            } else {
                (55 + d) as u8
            };
            text.push(byte as char);
            i += 1;
            proof {
                reveal(drawn);
                assert(text@ =~= drawn(start, i as nat));
            }
        }
        text
    }
}

} // verus!
