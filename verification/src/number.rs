//! Decimal numbers in path parameters.

use crate::request::FromUri;
use crate::text::chars_of;
use vstd::prelude::*;

verus! {

/// An ASCII digit.
pub open spec fn is_digit(c: char) -> bool {
    '0' <= c && c <= '9'
}

/// One or more ASCII digits.
pub open spec fn is_digits(s: Seq<char>) -> bool {
    s.len() > 0 && forall|i: int| 0 <= i < s.len() ==> is_digit(#[trigger] s[i])
}

/// The number that a run of digits writes in base ten.
pub open spec fn digits_value(s: Seq<char>) -> nat
    decreases s.len(),
{
    if s.len() == 0 {
        0
    } else {
        digits_value(s.drop_last()) * 10 + ((s.last() as u32 - 48) as nat)
    }
}

/// Whether the text starts with a minus sign.
pub open spec fn is_negative(s: Seq<char>) -> bool {
    s.len() > 0 && s[0] == '-'
}

/// The text without its sign, if it starts with `+` or `-`.
pub open spec fn unsigned_part(s: Seq<char>) -> Seq<char> {
    if s.len() > 0 && (s[0] == '-' || s[0] == '+') {
        s.skip(1)
    } else {
        s
    }
}

/// The integer that a text writes: an optional sign and one or more digits.
pub open spec fn integer_value(s: Seq<char>) -> Option<int> {
    if is_digits(unsigned_part(s)) {
        if is_negative(s) {
            Some(-(digits_value(unsigned_part(s)) as int))
        } else {
            Some(digits_value(unsigned_part(s)) as int)
        }
    } else {
        None
    }
}

/// The first digits of a number write no more than all of them.
pub proof fn lemma_digits_prefix(s: Seq<char>, k: int)
    requires
        0 <= k <= s.len(),
    ensures
        digits_value(s.take(k)) <= digits_value(s),
    decreases s.len() - k,
{
    if k == s.len() {
        assert(s.take(k) =~= s);
    } else {
        assert(s.drop_last().take(k) =~= s.take(k));
        lemma_digits_prefix(s.drop_last(), k);
    }
}

/// The number that the digits `chars[from..]` write, where they are digits and
/// write no more than `limit`.
pub fn read_digits(chars: &Vec<char>, from: usize, limit: u64) -> (r: Option<u64>)
    requires
        from <= chars.len(),
        limit <= 0x1_0000_0000,
    ensures
        r is Some <==> is_digits(chars@.skip(from as int)) && digits_value(
            chars@.skip(from as int),
        ) <= limit,
        r is Some ==> r->Some_0 == digits_value(chars@.skip(from as int)),
{
    let ghost s = chars@.skip(from as int);
    if from == chars.len() {
        return None;
    }
    let mut acc: u64 = 0;
    let mut i: usize = from;
    assert(s.take(0) =~= Seq::<char>::empty());
    while i < chars.len()
        invariant
            from <= i <= chars.len(),
            limit <= 0x1_0000_0000,
            s == chars@.skip(from as int),
            forall|k: int| 0 <= k < i - from ==> is_digit(#[trigger] s[k]),
            acc == digits_value(s.take(i - from)),
            acc <= limit,
        decreases chars.len() - i,
    {
        let c = chars[i];
        assert(s[i - from] == c);
        if !('0' <= c && c <= '9') {
            return None;
        }
        let digit: u64 = (c as u32 - 48) as u64;
        acc = acc * 10 + digit;
        proof {
            let more = s.take(i - from + 1);
            assert(more.drop_last() =~= s.take(i - from));
            assert(more.last() == c);
            assert(acc == digits_value(more));
            lemma_digits_prefix(s, i - from + 1);
        }
        if acc > limit {
            return None;
        }
        i += 1;
    }
    assert(s.take(i - from) =~= s);
    Some(acc)
}

impl FromUri for u32 {
    open spec fn accepts(data: Seq<char>) -> bool {
        !is_negative(data) && integer_value(data) is Some && integer_value(data)->Some_0
            <= u32::MAX
    }

    open spec fn reads_as(data: Seq<char>, value: u32) -> bool {
        integer_value(data) == Some(value as int)
    }

    fn from_uri(data: &str) -> (r: Option<u32>) {
        let chars = chars_of(data);
        if chars.len() > 0 && chars[0] == '-' {
            return None;
        }
        let from: usize = if chars.len() > 0 && chars[0] == '+' {
            1
        } else {
            0
        };
        assert(chars@.skip(0) =~= chars@);
        match read_digits(&chars, from, 0xffff_ffff) {
            Some(v) => Some(v as u32),
            None => None,
        }
    }
}

impl FromUri for i32 {
    open spec fn accepts(data: Seq<char>) -> bool {
        integer_value(data) is Some && i32::MIN <= integer_value(data)->Some_0 <= i32::MAX
    }

    open spec fn reads_as(data: Seq<char>, value: i32) -> bool {
        integer_value(data) == Some(value as int)
    }

    fn from_uri(data: &str) -> (r: Option<i32>) {
        let chars = chars_of(data);
        let negative = chars.len() > 0 && chars[0] == '-';
        let from: usize = if chars.len() > 0 && (chars[0] == '-' || chars[0] == '+') {
            1
        } else {
            0
        };
        assert(chars@.skip(0) =~= chars@);
        if negative {
            match read_digits(&chars, from, 0x8000_0000) {
                Some(v) => Some((-(v as i64)) as i32),
                None => None,
            }
        } else {
            match read_digits(&chars, from, 0x7fff_ffff) {
                Some(v) => Some(v as i32),
                None => None,
            }
        }
    }
}

} // verus!
