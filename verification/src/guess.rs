//! A number guessing game: a secret between 1 and 100, guesses typed in
//! as text, and for each guess the word whether it is too small, too big
//! or right.

use crate::chance::one_to_hundred;
use crate::text::{trim, trimmed};
use vstd::prelude::*;
use vstd::string::*;
use vstd::utf8::encode_utf8;

verus! {

/// A guess that is known to lie between 1 and 100.
pub struct Guess {
    value: i32,
}

impl Guess {
    #[verifier::type_invariant]
    spec fn in_range(self) -> bool {
        1 <= self.value <= 100
    }

    /// The number guessed.
    pub closed spec fn number(&self) -> i32 {
        self.value
    }

    /// The guess `value`, which must lie between 1 and 100.
    pub fn new(value: i32) -> (guess: Guess)
        requires
            1 <= value <= 100,
        ensures
            guess.number() == value,
    {
        Guess { value }
    }

    /// The guess `value` if it lies between 1 and 100.
    pub fn checked(value: i32) -> (guess: Option<Guess>)
        ensures
            guess is Some <==> 1 <= value <= 100,
            guess matches Some(g) ==> g.number() == value,
    {
        if value < 1 || value > 100 {
            None
        } else {
            Some(Guess::new(value))
        }
    }

    /// The number guessed. It lies between 1 and 100.
    pub fn value(&self) -> (value: i32)
        ensures
            value == self.number(),
            1 <= value <= 100,
    {
        proof {
            use_type_invariant(self);
        }
        self.value
    }
}

/// A byte is a decimal digit.
pub open spec fn is_digit(byte: u8) -> bool {
    0x30 <= byte <= 0x39
}

/// The number that a row of digits writes; zero for no digit.
pub open spec fn digits_value(digits: Seq<u8>) -> nat
    decreases digits.len(),
{
    if digits.len() == 0 {
        0
    } else {
        digits_value(digits.drop_last()) * 10 + (digits.last() - 0x30) as nat
    }
}

/// The number that a text writes: digits, with a plus sign before them
/// or not, and nothing else, for a number that fits 32 bits.
pub open spec fn parse_number(bytes: Seq<u8>) -> Option<u32> {
    let digits = unsigned_part(bytes);
    if digits.len() > 0 && all_digits(digits) && digits_value(digits) <= u32::MAX {
        Some(digits_value(digits) as u32)
    } else {
        None
    }
}

/// The text without the plus sign that may stand first.
pub open spec fn unsigned_part(bytes: Seq<u8>) -> Seq<u8> {
    if bytes.len() > 0 && bytes[0] == 0x2b {
        bytes.skip(1)
    } else {
        bytes
    }
}

/// Every byte is a decimal digit.
pub open spec fn all_digits(digits: Seq<u8>) -> bool {
    forall|i: int| 0 <= i < digits.len() ==> is_digit(#[trigger] digits[i])
}

/// A longer row of digits writes no smaller number.
pub proof fn lemma_digits_value_grows(digits: Seq<u8>, upto: int)
    requires
        0 <= upto <= digits.len(),
        all_digits(digits),
    ensures
        digits_value(digits.take(upto)) <= digits_value(digits),
    decreases digits.len() - upto,
{
    if upto < digits.len() {
        lemma_digits_value_grows(digits, upto + 1);
        assert(digits.take(upto + 1).drop_last() =~= digits.take(upto));
    } else {
        assert(digits.take(upto) =~= digits);
    }
}

/// Reads a number as [`parse_number`] describes.
pub fn parse_u32(text: &str) -> (n: Option<u32>)
    ensures
        n == parse_number(text.spec_bytes()),
{
    let bytes = text.as_bytes();
    let start: usize = if bytes.len() > 0 && bytes[0] == 0x2b {
        1
    } else {
        0
    };
    let ghost digits = unsigned_part(bytes@);
    if start >= bytes.len() {
        return None;
    }
    let mut value: u64 = 0;
    let mut i: usize = start;
    while i < bytes.len()
        invariant
            start <= i <= bytes@.len(),
            start < bytes@.len(),
            bytes@ == text.spec_bytes(),
            digits == unsigned_part(bytes@),
            digits == bytes@.skip(start as int),
            forall|j: int| 0 <= j < i - start ==> is_digit(#[trigger] digits[j]),
            value == digits_value(digits.take(i - start)),
            value <= u32::MAX,
        decreases bytes.len() - i,
    {
        let byte = bytes[i];
        if byte < 0x30 || byte > 0x39 {
            proof {
                assert(digits[i - start] == byte);
            }
            return None;
        }
        proof {
            assert(digits.take(i - start + 1).drop_last() =~= digits.take(i - start));
        }
        value = value * 10 + (byte - 0x30) as u64;
        if value > u32::MAX as u64 {
            proof {
                if all_digits(digits) {
                    lemma_digits_value_grows(digits, i - start + 1);
                }
            }
            return None;
        }
        i = i + 1;
    }
    proof {
        assert(digits.take(i - start) =~= digits);
    }
    Some(value as u32)
}

/// How a guess compares to the secret.
#[derive(Clone, Copy, Debug, PartialEq, Eq, Structural)]
pub enum Verdict {
    TooSmall,
    TooBig,
    Win,
}

/// What the game says to a line of input.
#[derive(Clone, Copy, Debug, PartialEq, Eq, Structural)]
pub enum Reply {
    /// The line is no number: the player is asked again.
    Unreadable,
    /// The line is this guess, and this is how it compares.
    Told { guess: u32, verdict: Verdict },
}

/// How `guess` compares to `secret`.
pub open spec fn verdict_of(guess: u32, secret: u32) -> Verdict {
    if guess < secret {
        Verdict::TooSmall
    } else if guess > secret {
        Verdict::TooBig
    } else {
        Verdict::Win
    }
}

/// What the game with `secret` says to a guess that was read or not.
pub open spec fn reply_of(secret: u32, guess: Option<u32>) -> Reply {
    match guess {
        Some(guess) => Reply::Told { guess, verdict: verdict_of(guess, secret) },
        None => Reply::Unreadable,
    }
}

/// How `guess` compares to `secret`.
pub fn judge(guess: u32, secret: u32) -> (verdict: Verdict)
    ensures
        verdict == verdict_of(guess, secret),
{
    if guess < secret {
        Verdict::TooSmall
    } else if guess > secret {
        Verdict::TooBig
    } else {
        Verdict::Win
    }
}

/// A game in progress.
pub struct Game {
    secret: u32,
    won: bool,
}

impl Game {
    /// The number to be guessed.
    pub closed spec fn secret(&self) -> u32 {
        self.secret
    }

    /// The secret has been guessed.
    pub closed spec fn won(&self) -> bool {
        self.won
    }

    /// A new game with the given secret.
    pub fn with_secret(secret: u32) -> (game: Game)
        ensures
            game.secret() == secret,
            !game.won(),
    {
        Game { secret, won: false }
    }

    /// A new game with a secret drawn at random between 1 and 100.
    pub fn start() -> (game: Game)
        ensures
            1 <= game.secret() <= 100,
            !game.won(),
    {
        Game::with_secret(one_to_hundred())
    }

    /// The number to be guessed, for whoever runs the game.
    pub fn secret_number(&self) -> (secret: u32)
        ensures
            secret == self.secret(),
    {
        self.secret
    }

    /// Whether the secret has been guessed.
    pub fn is_won(&self) -> (won: bool)
        ensures
            won == self.won(),
    {
        self.won
    }

    /// Takes a guess that was read, or the fact that none could be read,
    /// and says how it compares. The game is won with the first right
    /// guess and stays won.
    pub fn answer(&mut self, guess: Option<u32>) -> (reply: Reply)
        ensures
            reply == reply_of(old(self).secret(), guess),
            final(self).secret() == old(self).secret(),
            final(self).won() == (old(self).won() || guess == Some(old(self).secret())),
    {
        match guess {
            Some(guess) => {
                let verdict = judge(guess, self.secret);
                if guess == self.secret {
                    self.won = true;
                }
                Reply::Told { guess, verdict }
            },
            None => Reply::Unreadable,
        }
    }

    /// Takes a line of input: the white space around it is dropped, what
    /// is left is read as a number, and the answer is as for [`answer`].
    ///
    /// [`answer`]: Game::answer
    pub fn turn(&mut self, line: &str) -> (reply: Reply)
        ensures
            reply == reply_of(old(self).secret(), parse_number(encode_utf8(trimmed(line@)))),
            final(self).secret() == old(self).secret(),
            final(self).won() == (old(self).won() || parse_number(encode_utf8(trimmed(line@))) == Some(
                old(self).secret(),
            )),
    {
        let guess = parse_u32(trim(line));
        self.answer(guess)
    }
}

} // verus!
