//! What the store answers: outcomes of an insert, denials, statistics.

use crate::printed;
use vstd::prelude::*;

verus! {

/// Outcome of a successful insert or replacement.
#[derive(Debug, Clone, Copy, PartialEq, Eq, Structural)]
pub enum InsertOutcome {
    /// Fresh entry admitted to the store.
    Stored {
        /// Bytes reserved for this entry.
        charged: usize,
    },
    /// Existing key replaced in place.
    Replaced {
        /// Bytes released from the previous value.
        freed: usize,
        /// Bytes reserved for the new value.
        charged: usize,
    },
}

/// Returned when an insert exceeds the budget; hands the key-value pair back.
#[derive(PartialEq, Eq)]
#[non_exhaustive]
pub struct Denied<K, V> {
    key: K,
    value: V,
    required: usize,
    available: usize,
}

/// What a denial says.
pub struct Denial<K, V> {
    pub key: K,
    pub value: V,
    pub required: usize,
    pub available: usize,
}

impl<K, V> View for Denied<K, V> {
    type V = Denial<K, V>;

    closed spec fn view(&self) -> Denial<K, V> {
        Denial {
            key: self.key,
            value: self.value,
            required: self.required,
            available: self.available,
        }
    }
}

/// The decimal digits of `n`, most significant first; `0` for zero.
pub open spec fn decimal(n: nat) -> Seq<char>
    decreases n,
{
    let digit = seq![(('0' as int) + (n % 10)) as char];
    if n < 10 {
        digit
    } else {
        decimal(n / 10) + digit
    }
}

/// The number that a row of decimal digits stands for.
pub open spec fn digits_value(digits: Seq<char>) -> int
    decreases digits.len(),
{
    if digits.len() == 0 {
        0
    } else {
        digits_value(digits.drop_last()) * 10 + (digits.last() as int - '0' as int)
    }
}

/// A number is written in decimal digits that stand for it, without a leading
/// zero.
pub proof fn law_decimal_reads_back(n: nat)
    ensures
        digits_value(decimal(n)) == n,
        decimal(n).len() > 0,
        forall|i: int| 0 <= i < decimal(n).len() ==> '0' <= #[trigger] decimal(n)[i] <= '9',
        n > 0 ==> decimal(n)[0] != '0',
        n == 0 ==> decimal(n).len() == 1,
    decreases n,
{
    reveal_with_fuel(digits_value, 2);
    let digit = seq![(('0' as int) + (n % 10)) as char];
    if n < 10 {
        assert(decimal(n) == digit);
        assert(decimal(n).drop_last() =~= Seq::empty());
    } else {
        law_decimal_reads_back(n / 10);
        let front = decimal(n / 10);
        assert(decimal(n) == front + digit);
        assert(decimal(n).drop_last() =~= front);
        assert forall|i: int| 0 <= i < decimal(n).len() implies '0' <= #[trigger] decimal(
            n,
        )[i] <= '9' by {
            if i < front.len() {
                assert(decimal(n)[i] == front[i]);
            }
        }
        assert(decimal(n)[0] == front[0]);
    }
}

/// The text of one decimal digit.
fn digit_text(d: usize) -> (text: &'static str)
    requires
        d < 10,
    ensures
        text@ == seq![(('0' as int) + d) as char],
{
    proof {
        reveal_strlit("0");
        reveal_strlit("1");
        reveal_strlit("2");
        reveal_strlit("3");
        reveal_strlit("4");
        reveal_strlit("5");
        reveal_strlit("6");
        reveal_strlit("7");
        reveal_strlit("8");
        reveal_strlit("9");
    }
    match d {
        0 => "0",
        1 => "1",
        2 => "2",
        3 => "3",
        4 => "4",
        5 => "5",
        6 => "6",
        7 => "7",
        8 => "8",
        _ => "9",
    }
}

/// Writes a number in decimal.
fn decimal_text(n: usize) -> (text: String)
    ensures
        text@ == decimal(n as nat),
    decreases n,
{
    if n < 10 {
        digit_text(n).to_string()
    } else {
        let mut text = decimal_text(n / 10);
        text.append(digit_text(n % 10));
        text
    }
}

impl<K, V> Denied<K, V> {
    /// A denial of the given pair.
    pub(crate) fn new(key: K, value: V, required: usize, available: usize) -> (denied: Self)
        ensures
            denied@ == (Denial { key, value, required, available }),
    {
        Denied { key, value, required, available }
    }

    /// Reference to the rejected key.
    pub fn key(&self) -> (key: &K)
        ensures
            *key == self@.key,
    {
        &self.key
    }

    /// Reference to the rejected value.
    pub fn value(&self) -> (value: &V)
        ensures
            *value == self@.value,
    {
        &self.value
    }

    /// Bytes required by the rejected entry.
    pub fn required(&self) -> (required: usize)
        ensures
            required == self@.required,
    {
        self.required
    }

    /// Unreserved headroom at the time of the denial.
    pub fn available(&self) -> (available: usize)
        ensures
            available == self@.available,
    {
        self.available
    }

    /// Takes the original key and value back.
    pub fn into_pair(self) -> (pair: (K, V))
        ensures
            pair == (self@.key, self@.value),
    {
        (self.key, self.value)
    }

    /// What is shown of the denial when it is printed for debugging: the key
    /// and the reason, not the value.
    pub fn printed(&self) -> (shown: printed::Denied<'_, K>)
        ensures
            *shown.key == self@.key,
            shown.required == self@.required,
            shown.available == self@.available,
    {
        printed::Denied { key: &self.key, required: self.required, available: self.available }
    }

    /// The denial as a sentence, with `key_text` standing for the key.
    pub fn message(&self, key_text: &str) -> (text: String)
        ensures
            text@ == "budget denied insert for key "@ + key_text@ + ": required "@ + decimal(
                self@.required as nat,
            ) + " bytes, available "@ + decimal(self@.available as nat),
    {
        let mut text = "budget denied insert for key ".to_string();
        text.append(key_text);
        text.append(": required ");
        text.append(decimal_text(self.required).as_str());
        text.append(" bytes, available ");
        text.append(decimal_text(self.available).as_str());
        text
    }
}

/// `std::fmt::Formatter`, opaque.
#[verifier::external_type_specification]
#[verifier::external_body]
pub struct ExFormatter<'a>(std::fmt::Formatter<'a>);

/// `std::fmt::Error`, opaque.
#[verifier::external_type_specification]
#[verifier::external_body]
pub struct ExFormatError(std::fmt::Error);

impl<K: std::fmt::Debug, V: std::fmt::Debug> std::fmt::Debug for Denied<K, V> {
    /// `std::fmt::Debug::fmt` on what [`Denied::printed`] gives. Nothing is
    /// claimed of the text.
    #[verifier::external_body]
    fn fmt(&self, f: &mut std::fmt::Formatter<'_>) -> Result<(), std::fmt::Error> {
        std::fmt::Debug::fmt(&self.printed(), f)
    }
}

/// Point-in-time statistics snapshot.
#[derive(Debug, Clone, Copy, PartialEq, Eq, Structural)]
pub struct Stats {
    /// Maximum capacity in bytes.
    pub capacity: usize,
    /// Currently reserved bytes.
    pub reserved: usize,
    /// Entries in the store.
    pub len: usize,
    /// Entries that carry an expiry.
    pub ttl_count: usize,
    /// Lifetime admission denials count.
    pub denials: usize,
}

/// Capacity utilization as an exact fraction. Over a denominator of zero it
/// stands for more than any number.
#[derive(Debug, Clone, Copy, PartialEq, Eq, Structural)]
pub struct Pressure {
    /// Reserved bytes.
    pub numerator: usize,
    /// Capacity in bytes, or one where both it and the reserved bytes are zero.
    pub denominator: usize,
}

} // verus!
