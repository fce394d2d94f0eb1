//! The names of the files in the spool.
//!
//! A file is named after the time at which it was written, as a count of
//! nanoseconds in twenty digits. All names have the same length, so their
//! order as names is their order in time.

use vstd::prelude::*;
use vstd::utf8::encode_utf8;
use crate::backlog::{lemma_lex_push, lex_le};
use crate::util::string_of;

verus! {

/// The last second that a name can hold.
pub const MAX_SECONDS: u64 = 99_999_999_999;

/// How many nanoseconds a second has.
pub const NANOS_PER_SECOND: u32 = 1_000_000_000;

/// How many digits a name has.
pub const DIGITS: u32 = 20;

/// A point in time: seconds since the beginning of 1970, and nanoseconds
/// of the second.
#[derive(Clone, Copy, Debug, PartialEq, Eq, Structural)]
pub struct Stamp {
    seconds: u64,
    nanos: u32,
}

/// The digits of `n`, the last `width` of them, as ASCII.
pub open spec fn decimal(n: int, width: int) -> Seq<u8>
    decreases width,
{
    if width <= 0 {
        Seq::empty()
    } else {
        decimal(n / 10, width - 1).push((48 + n % 10) as u8)
    }
}

/// Ten to the power of `width`.
pub open spec fn pow10(width: int) -> int
    decreases width,
{
    if width <= 0 {
        1
    } else {
        10 * pow10(width - 1)
    }
}

/// Numbers with the same digits are the same number.
pub proof fn lemma_decimal_injective(a: int, b: int, width: int)
    requires
        0 <= a < pow10(width),
        0 <= b < pow10(width),
        decimal(a, width) == decimal(b, width),
    ensures
        a == b,
    decreases width,
{
    if width > 0 {
        let pa = decimal(a / 10, width - 1);
        let pb = decimal(b / 10, width - 1);
        assert(decimal(a, width).drop_last() =~= pa);
        assert(decimal(b, width).drop_last() =~= pb);
        assert(decimal(a, width).last() == (48 + a % 10) as u8);
        assert(decimal(b, width).last() == (48 + b % 10) as u8);
        lemma_decimal_injective(a / 10, b / 10, width - 1);
    }
}

/// A number has `width` digits.
pub proof fn lemma_decimal_len(n: int, width: int)
    requires
        0 <= width,
    ensures
        decimal(n, width).len() == width,
        forall|i: int| 0 <= i < width ==> 48 <= #[trigger] decimal(n, width)[i] <= 57,
    decreases width,
{
    if width > 0 {
        lemma_decimal_len(n / 10, width - 1);
    }
}

/// The digits of the smaller of two numbers come first.
pub proof fn lemma_decimal_order(a: int, b: int, width: int)
    requires
        0 <= width,
        0 <= a <= b < pow10(width),
    ensures
        lex_le(decimal(a, width), decimal(b, width)),
        a < b ==> decimal(a, width) != decimal(b, width),
    decreases width,
{
    if width > 0 {
        lemma_decimal_order(a / 10, b / 10, width - 1);
        lemma_decimal_len(a / 10, width - 1);
        lemma_decimal_len(b / 10, width - 1);
        let pa = decimal(a / 10, width - 1);
        let pb = decimal(b / 10, width - 1);
        lemma_lex_push(pa, pb, (48 + a % 10) as u8, (48 + b % 10) as u8);
        if pa == pb {
            lemma_decimal_injective(a / 10, b / 10, width - 1);
        }
        if a < b && decimal(a, width) == decimal(b, width) {
            lemma_decimal_injective(a, b, width);
        }
    }
}

/// The end of every name.
pub open spec fn suffix() -> Seq<u8> {
    seq![46u8, 112u8, 110u8, 103u8]
}

impl Stamp {
    pub closed spec fn seconds(self) -> int {
        self.seconds as int
    }

    pub closed spec fn nanos(self) -> int {
        self.nanos as int
    }

    /// What every stamp satisfies: it is a time that a name can hold.
    #[verifier::type_invariant]
    pub open spec fn wf(self) -> bool {
        0 <= self.seconds() <= MAX_SECONDS && 0 <= self.nanos() < NANOS_PER_SECOND
    }

    /// The nanoseconds since the beginning of 1970.
    pub open spec fn value(self) -> int {
        self.seconds() * NANOS_PER_SECOND + self.nanos()
    }

    /// The bytes of the name of the file that is written at this time.
    pub open spec fn name_bytes(self) -> Seq<u8> {
        decimal(self.value(), DIGITS as int) + suffix()
    }

    /// The name of the file that is written at this time.
    pub open spec fn name(self) -> Seq<char> {
        Seq::new(self.name_bytes().len(), |i: int| self.name_bytes()[i] as char)
    }

    /// The time nearest to the given one that a name can hold: a time
    /// before 1970 becomes the beginning of 1970, and a part of a second
    /// that is no part of a second becomes the nearest that is one.
    pub fn new(seconds: i64, nanos: i32) -> (stamp: Stamp)
        ensures
            stamp.wf(),
            stamp.seconds() == (if seconds < 0 {
                0
            } else if seconds > MAX_SECONDS {
                MAX_SECONDS as int
            } else {
                seconds as int
            }),
            stamp.nanos() == (if seconds < 0 || nanos < 0 {
                0
            } else if nanos >= NANOS_PER_SECOND {
                NANOS_PER_SECOND - 1
            } else {
                nanos as int
            }),
    {
        if seconds < 0 {
            return Stamp { seconds: 0, nanos: 0 };
        }
        let seconds: u64 = if seconds as u64 > MAX_SECONDS {
            MAX_SECONDS
        } else {
            seconds as u64
        };
        let nanos: u32 = if nanos < 0 {
            0
        } else if nanos as u32 >= NANOS_PER_SECOND {
            NANOS_PER_SECOND - 1
        } else {
            nanos as u32
        };
        Stamp { seconds, nanos }
    }

    /// The time one nanosecond later, if a name can hold it.
    pub fn later(self) -> (next: Option<Stamp>)
        ensures
            self.wf(),
            next.is_some() <==> self.value() < MAX_SECONDS * NANOS_PER_SECOND + NANOS_PER_SECOND
                - 1,
            next.is_some() ==> next.unwrap().wf() && next.unwrap().value() == self.value() + 1,
    {
        proof {
            use_type_invariant(&self);
            assert(self.seconds * 1_000_000_000 <= 99_999_999_999 * 1_000_000_000)
                by (nonlinear_arith)
                requires
                    self.seconds <= 99_999_999_999,
            ;
        }
        if self.nanos + 1 < NANOS_PER_SECOND {
            Some(Stamp { seconds: self.seconds, nanos: self.nanos + 1 })
        } else if self.seconds < MAX_SECONDS {
            assert((self.seconds + 1) * 1_000_000_000 == self.seconds * 1_000_000_000
                + 1_000_000_000) by (nonlinear_arith);
            Some(Stamp { seconds: self.seconds + 1, nanos: 0 })
        } else {
            None
        }
    }

    /// Whether this time comes before the other.
    pub fn is_before(self, other: Stamp) -> (r: bool)
        ensures
            r == (self.value() < other.value()),
    {
        proof {
            use_type_invariant(&self);
            use_type_invariant(&other);
            let a = self.seconds as int;
            let b = other.seconds as int;
            assert(a < b ==> a * 1_000_000_000 + 1_000_000_000 <= b * 1_000_000_000)
                by (nonlinear_arith);
            assert(b < a ==> b * 1_000_000_000 + 1_000_000_000 <= a * 1_000_000_000)
                by (nonlinear_arith);
        }
        self.seconds < other.seconds || (self.seconds == other.seconds && self.nanos
            < other.nanos)
    }

    /// The name of the file that is written at this time.
    pub fn file_name(self) -> (name: String)
        ensures
            name@ == self.name(),
            encode_utf8(name@) == self.name_bytes(),
    {
        proof {
            use_type_invariant(&self);
            assert(self.seconds * 1_000_000_000 <= 99_999_999_999 * 1_000_000_000)
                by (nonlinear_arith)
                requires
                    self.seconds <= 99_999_999_999,
            ;
        }
        let value: u128 = self.seconds as u128 * 1_000_000_000 + self.nanos as u128;
        let mut chars: Vec<char> = Vec::new();
        push_decimal(value, 20, &mut chars);
        chars.push('.');
        chars.push('p');
        chars.push('n');
        chars.push('g');
        proof {
            lemma_decimal_len(value as int, 20);
            let bytes = self.name_bytes();
            let digits = decimal(value as int, 20);
            assert(value as int == self.value());
            assert(bytes.len() == 24);
            assert(chars@.len() == 24);
            assert forall|i: int| 0 <= i < 24 implies chars@[i] == bytes[i] as char by {
                if i < 20 {
                    assert(chars@[0 + i] == digits[i] as char);
                    assert(bytes[i] == digits[i]);
                } else {
                    assert(bytes[i] == suffix()[i - 20]);
                }
            }
            assert(chars@ =~= self.name());
            assert(vstd::utf8::is_ascii_chars(chars@));
            vstd::utf8::is_ascii_chars_encode_utf8(chars@);
            assert(encode_utf8(chars@) =~= bytes);
        }
        string_of(&chars)
    }
}

/// The time one nanosecond after `stamp`.
pub closed spec fn next_after(stamp: Stamp) -> Stamp {
    if stamp.nanos + 1 < NANOS_PER_SECOND {
        Stamp { seconds: stamp.seconds, nanos: (stamp.nanos + 1) as u32 }
    } else {
        Stamp { seconds: (stamp.seconds + 1) as u64, nanos: 0 }
    }
}

/// A time that a name can hold, one nanosecond after `stamp`, is the time
/// one nanosecond after `stamp`.
pub proof fn lemma_next_after(stamp: Stamp, next: Stamp)
    requires
        stamp.wf(),
        next.wf(),
        next.value() == stamp.value() + 1,
    ensures
        next == next_after(stamp),
{
    let a = stamp.seconds as int;
    let b = next.seconds as int;
    assert(a < b ==> a * 1_000_000_000 + 1_000_000_000 <= b * 1_000_000_000)
        by (nonlinear_arith);
    assert(b < a ==> b * 1_000_000_000 + 1_000_000_000 <= a * 1_000_000_000)
        by (nonlinear_arith);
}

/// Writes the last `width` digits of `n` behind `out`.
fn push_decimal(n: u128, width: u32, out: &mut Vec<char>)
    ensures
        final(out)@.len() == old(out)@.len() + width,
        forall|i: int| 0 <= i < old(out)@.len() ==> final(out)@[i] == old(out)@[i],
        forall|i: int|
            0 <= i < width ==> #[trigger] final(out)@[old(out)@.len() + i] == decimal(
                n as int,
                width as int,
            )[i] as char,
    decreases width,
{
    if width > 0 {
        let ghost start = out@;
        push_decimal(n / 10, width - 1, out);
        let ghost middle = out@;
        let digit: u8 = (n % 10) as u8;
        let c: char = if digit == 0 {
            '0'
        } else if digit == 1 {
            '1'
        } else if digit == 2 {
            '2'
        } else if digit == 3 {
            '3'
        } else if digit == 4 {
            '4'
        } else if digit == 5 {
            '5'
        } else if digit == 6 {
            '6'
        } else if digit == 7 {
            '7'
        } else if digit == 8 {
            '8'
        } else {
            '9'
        };
        assert(c == (48 + n % 10) as u8 as char);
        out.push(c);
        proof {
            lemma_decimal_len(n as int / 10, width - 1);
            assert forall|i: int| 0 <= i < width implies #[trigger] out@[start.len() + i]
                == decimal(n as int, width as int)[i] as char by {
                if i < width - 1 {
                    assert(out@[start.len() + i] == middle[start.len() + i]);
                }
            }
        }
    }
}

/// The names of the files sort as the files were written: of two times
/// the earlier has the name that comes first, and the names differ.
pub proof fn lemma_names_sort_by_time(a: Stamp, b: Stamp)
    requires
        a.wf(),
        b.wf(),
        a.value() < b.value(),
    ensures
        lex_le(a.name_bytes(), b.name_bytes()),
        !lex_le(b.name_bytes(), a.name_bytes()),
        a.name_bytes().len() == b.name_bytes().len(),
{
    let va = a.value();
    let vb = b.value();
    reveal_with_fuel(pow10, 21);
    assert(pow10(20) == 100_000_000_000_000_000_000int);
    assert(0 <= va && vb < pow10(20)) by (nonlinear_arith)
        requires
            va == a.seconds() * 1_000_000_000 + a.nanos(),
            vb == b.seconds() * 1_000_000_000 + b.nanos(),
            0 <= a.seconds(),
            0 <= a.nanos(),
            b.seconds() <= 99_999_999_999,
            b.nanos() < 1_000_000_000,
            pow10(20) == 100_000_000_000_000_000_000int,
    ;
    lemma_decimal_order(va, vb, 20);
    lemma_decimal_len(va, 20);
    lemma_decimal_len(vb, 20);
    let da = decimal(va, 20);
    let db = decimal(vb, 20);
    lemma_lex_push(da, db, 46, 46);
    lemma_lex_push(da.push(46), db.push(46), 112, 112);
    lemma_lex_push(da.push(46).push(112), db.push(46).push(112), 110, 110);
    lemma_lex_push(da.push(46).push(112).push(110), db.push(46).push(112).push(110), 103, 103);
    assert(a.name_bytes() =~= da.push(46).push(112).push(110).push(103));
    assert(b.name_bytes() =~= db.push(46).push(112).push(110).push(103));
    assert(da.push(46) != db.push(46)) by {
        assert(da.push(46).drop_last() =~= da);
        assert(db.push(46).drop_last() =~= db);
    }
    assert(da.push(46).push(112) != db.push(46).push(112)) by {
        assert(da.push(46).push(112).drop_last() =~= da.push(46));
        assert(db.push(46).push(112).drop_last() =~= db.push(46));
    }
    assert(da.push(46).push(112).push(110) != db.push(46).push(112).push(110)) by {
        assert(da.push(46).push(112).push(110).drop_last() =~= da.push(46).push(112));
        assert(db.push(46).push(112).push(110).drop_last() =~= db.push(46).push(112));
    }
    assert(a.name_bytes() != b.name_bytes()) by {
        assert(a.name_bytes().drop_last() =~= da.push(46).push(112).push(110));
        assert(b.name_bytes().drop_last() =~= db.push(46).push(112).push(110));
    }
    if lex_le(b.name_bytes(), a.name_bytes()) {
        crate::backlog::lemma_lex_antisymmetric(a.name_bytes(), b.name_bytes());
    }
}

/// The time of the system clock as a `jiff::Timestamp`: whole seconds since
/// the beginning of 1970 and the part of a second in nanoseconds. There is
/// none where the clock shows a time that `jiff` cannot hold. Nothing else
/// is known of it.
#[verifier::external_body]
fn clock() -> (time: Option<(i64, i32)>) {
    let now = jiff::Timestamp::try_from(std::time::SystemTime::now()).ok()?;
    Some((now.as_second(), now.subsec_nanosecond()))
}

/// The time now, if the system clock shows a time that can be told.
pub fn now() -> (stamp: Option<Stamp>)
    ensures
        stamp.is_some() ==> stamp.unwrap().wf(),
{
    match clock() {
        Some((seconds, nanos)) => Some(Stamp::new(seconds, nanos)),
        None => None,
    }
}

} // verus!
