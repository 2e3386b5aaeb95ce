//! Random draws, and bearings in whole degrees.

use rand::distributions::Alphanumeric;
use rand::seq::SliceRandom;
use rand::Rng;
use vstd::prelude::*;
use vstd::string::StringExecFns;

use crate::grid::coords::Dir;

verus! {

/// Draws a number with `rand::Rng::gen_range` from the thread's generator.
/// The draw lies in `low..high`, whatever the generator gives; the call
/// panics on an empty range, which `requires` leaves out.
#[verifier::external_body]
pub(crate) fn random_in_range(low: i32, high: i32) -> (n: i32)
    requires
        low < high,
    ensures
        low <= n < high,
{
    rand::thread_rng().gen_range(low, high)
}

/// Picks one item with `rand::seq::SliceRandom::choose` from the thread's
/// generator: none of an empty list, else one of the items of the list.
#[verifier::external_body]
pub(crate) fn pick_one<T: Copy>(items: &Vec<T>) -> (picked: Option<T>)
    ensures
        items@.len() == 0 ==> picked is None,
        items@.len() > 0 ==> picked is Some && items@.contains(picked->0),
{
    items.choose(&mut rand::thread_rng()).copied()
}

/// Reorders a list in place with `rand::seq::SliceRandom::shuffle` from the
/// thread's generator: the list holds the same items afterwards, each as
/// often as before.
#[verifier::external_body]
pub(crate) fn shuffle_items<T>(items: &mut Vec<T>)
    ensures
        final(items)@.to_multiset() == old(items)@.to_multiset(),
{
    items.shuffle(&mut rand::thread_rng());
}

/// Whether a character is a letter of the English alphabet or a digit.
pub open spec fn is_alphanumeric(c: char) -> bool {
    ('a' <= c && c <= 'z') || ('A' <= c && c <= 'Z') || ('0' <= c && c <= '9')
}

/// Draws `n` characters with `rand::Rng::sample_iter` over
/// `rand::distributions::Alphanumeric` from the thread's generator: `n`
/// letters and digits, whatever the generator gives.
#[verifier::external_body]
pub fn random_string(n: usize) -> (s: String)
    ensures
        s@.len() == n,
        forall|i: int| 0 <= i < n ==> is_alphanumeric(#[trigger] s@[i]),
{
    rand::thread_rng().sample_iter(&Alphanumeric).take(n).collect()
}

/// Whether two names hold the same characters.
pub(crate) fn same_name(a: &str, b: &str) -> (same: bool)
    ensures
        same == (a@ == b@),
{
    String::from_str(a) == String::from_str(b)
}

/// The bearing of a target whose planar angle from the vertical is `angle`
/// degrees, for an observer facing `dir`: the difference of the two, taken
/// once into the range from -180 to 180.
pub open spec fn bearing(dir: Dir, angle: int) -> int {
    let b = angle - dir.degrees();
    if b > 180 {
        b - 360
    } else if b < -180 {
        b + 360
    } else {
        b
    }
}

/// Get the bearing of a target seen under the planar angle `angle` by an
/// observer facing `dir`
pub fn get_bearing(dir: Dir, angle: i32) -> (b: i32)
    ensures
        b == bearing(dir, angle as int),
        0 <= angle <= 360 ==> -180 <= b <= 180,
{
    let a1: i64 = dir.to_degrees() as i64;
    let mut b: i64 = angle as i64 - a1;
    if b > 180 {
        b = b - 360;
    } else if b < -180 {
        b = b + 360;
    }
    b as i32
}

/// The character that stands for a digit.
pub open spec fn digit_char(d: int) -> char {
    if d == 0 {
        '0'
    } else if d == 1 {
        '1'
    } else if d == 2 {
        '2'
    } else if d == 3 {
        '3'
    } else if d == 4 {
        '4'
    } else if d == 5 {
        '5'
    } else if d == 6 {
        '6'
    } else if d == 7 {
        '7'
    } else if d == 8 {
        '8'
    } else {
        '9'
    }
}

/// The digits of a number that is not negative, the highest first.
pub open spec fn digits_text(n: int) -> Seq<char>
    decreases n,
{
    if n < 10 {
        seq![digit_char(n)]
    } else {
        digits_text(n / 10).push(digit_char(n % 10))
    }
}

/// A number as it is written in decimal, with a minus sign before it where
/// it is negative.
pub open spec fn decimal_text(n: int) -> Seq<char> {
    if n < 0 {
        seq!['-'] + digits_text(-n)
    } else {
        digits_text(n)
    }
}

/// A digit as text.
fn digit_str(d: u64) -> (s: &'static str)
    requires
        d < 10,
    ensures
        s@ == seq![digit_char(d as int)],
{
    proof {
        reveal_strlit("0");
        reveal_strlit("1");
        reveal_strlit("2");
        reveal_strlit("3");
        reveal_strlit("4");
        reveal_strlit("5");
        reveal_strlit("6");
        reveal_strlit("7");
        reveal_strlit("8");
        reveal_strlit("9");
    }
    let s = if d == 0 {
        "0"
    } else if d == 1 {
        "1"
    } else if d == 2 {
        "2"
    } else if d == 3 {
        "3"
    } else if d == 4 {
        "4"
    } else if d == 5 {
        "5"
    } else if d == 6 {
        "6"
    } else if d == 7 {
        "7"
    } else if d == 8 {
        "8"
    } else {
        "9"
    };
    assert(s@ =~= seq![digit_char(d as int)]);
    s
}

/// The digits of a number, the highest first.
fn digits(n: u64) -> (s: String)
    ensures
        s@ == digits_text(n as int),
    decreases n,
{
    if n < 10 {
        String::from_str(digit_str(n))
    } else {
        let mut s = digits(n / 10);
        s.append(digit_str(n % 10));
        assert(s@ =~= digits_text(n as int / 10).push(digit_char(n as int % 10)));
        s
    }
}

/// Writes a number in decimal.
pub fn number_text(n: i64) -> (s: String)
    ensures
        s@ == decimal_text(n as int),
{
    if n < 0 {
        proof {
            reveal_strlit("-");
        }
        let magnitude: u64 = (-(n as i128)) as u64;
        let mut s = String::from_str("-");
        let tail = digits(magnitude);
        s.append(tail.as_str());
        assert(s@ =~= seq!['-'] + digits_text(-(n as int)));
        s
    } else {
        digits(n as u64)
    }
}

} // verus!
