//! Text made of ASCII characters: its characters, its value as a decimal
//! number, and cutting it out of a string.
use crate::token::CharClass;
use vstd::prelude::*;
use vstd::string::*;
use vstd::utf8::*;

verus! {

/// The characters that ASCII bytes stand for.
pub open spec fn ascii_chars(bytes: Seq<u8>) -> Seq<char> {
    Seq::new(bytes.len(), |i: int| bytes[i] as char)
}

/// Whether every byte is an ASCII character.
pub open spec fn is_ascii_bytes(bytes: Seq<u8>) -> bool {
    forall|i: int| 0 <= i < bytes.len() ==> #[trigger] bytes[i] < 0x80
}

/// Whether every byte of the input before `pos` is an ASCII character.
pub open spec fn ascii_before(input: Seq<u8>, pos: int) -> bool {
    forall|i: int| 0 <= i < pos ==> #[trigger] input[i] < 0x80
}

/// Whether every byte belongs to the class.
pub open spec fn all_in_class(bytes: Seq<u8>, class: CharClass) -> bool {
    forall|i: int| 0 <= i < bytes.len() ==> class.contains(#[trigger] bytes[i])
}

/// The value of a digit character.
pub open spec fn digit_value(b: u8) -> nat {
    (b - '0' as u8) as nat
}

/// The number that a run of digits denotes in base ten; leading zeros do
/// not count.
pub open spec fn decimal_value(digits: Seq<u8>) -> nat
    decreases digits.len(),
{
    if digits.len() == 0 {
        0
    } else {
        decimal_value(digits.drop_last()) * 10 + digit_value(digits.last())
    }
}

/// The digit that stands for a value below ten.
pub open spec fn digit_char(d: nat) -> u8 {
    ('0' as u8 + d) as u8
}

/// A number written in base ten, without leading zeros.
pub open spec fn decimal_digits(n: nat) -> Seq<u8>
    decreases n,
{
    if n < 10 {
        seq![digit_char(n)]
    } else {
        decimal_digits(n / 10).push(digit_char(n % 10))
    }
}

/// A number written in base ten is one or more digits that denote it.
pub proof fn lemma_decimal_digits(n: nat)
    ensures
        decimal_digits(n).len() >= 1,
        all_in_class(decimal_digits(n), CharClass::Digit),
        decimal_value(decimal_digits(n)) == n,
    decreases n,
{
    let digits = decimal_digits(n);
    if n < 10 {
        assert(digits.drop_last().len() == 0);
        assert(decimal_value(digits.drop_last()) == 0);
    } else {
        lemma_decimal_digits(n / 10);
        assert(digits.drop_last() =~= decimal_digits(n / 10));
        assert(digits.last() == digit_char(n % 10));
        assert forall|i: int| 0 <= i < digits.len() implies CharClass::Digit.contains(
            #[trigger] digits[i],
        ) by {
            if i < digits.len() - 1 {
                assert(digits[i] == decimal_digits(n / 10)[i]);
            }
        }
    }
}

/// ASCII bytes are valid UTF-8 and decode to one character each.
pub proof fn lemma_decode_ascii(bytes: Seq<u8>)
    requires
        is_ascii_bytes(bytes),
    ensures
        valid_utf8(bytes),
        decode_utf8(bytes) == ascii_chars(bytes),
{
    let chars = ascii_chars(bytes);
    assert(is_ascii_chars(chars)) by {
        assert forall|i: int| 0 <= i < chars.len() implies '\0' <= #[trigger] chars[i]
            <= '\u{7f}' by {
            assert(bytes[i] < 0x80);
        }
    }
    is_ascii_chars_encode_utf8(chars);
    assert(encode_utf8(chars) =~= bytes) by {
        assert forall|i: int| 0 <= i < bytes.len() implies encode_utf8(chars)[i] == bytes[i] by {
            assert(bytes[i] < 0x80);
            assert(chars[i] as u8 == bytes[i]);
        }
    }
    encode_utf8_valid_utf8(chars);
    encode_utf8_decode_utf8(chars);
}

/// In valid UTF-8 that begins with `k` ASCII bytes, a character ends at `k`.
pub proof fn lemma_ascii_prefix_boundary(bytes: Seq<u8>, k: int)
    requires
        valid_utf8(bytes),
        0 <= k <= bytes.len(),
        ascii_before(bytes, k),
    ensures
        is_char_boundary(bytes, k),
    decreases k,
{
    if k > 0 {
        assert(bytes[0] < 0x80);
        assert(is_leading_byte_width_1(bytes[0]));
        let rest = pop_first_scalar(bytes);
        assert(rest =~= bytes.subrange(1, bytes.len() as int));
        assert(valid_utf8(rest));
        assert forall|i: int| 0 <= i < k - 1 implies #[trigger] rest[i] < 0x80 by {
            assert(rest[i] == bytes[i + 1]);
        }
        assert(ascii_before(rest, k - 1));
        lemma_ascii_prefix_boundary(rest, k - 1);
    }
}

/// The text between two offsets of a string, where it is made of ASCII
/// characters.
pub fn ascii_slice(input: &str, start: usize, end: usize) -> (r: String)
    requires
        start < end <= input.spec_bytes().len(),
        is_ascii_bytes(input.spec_bytes().subrange(start as int, end as int)),
    ensures
        r@ == ascii_chars(input.spec_bytes().subrange(start as int, end as int)),
{
    let ghost bytes = input.spec_bytes();
    let ghost part = bytes.subrange(start as int, end as int);
    proof {
        encode_utf8_valid_utf8(input@);
        assert(part[0] < 0x80);
        assert(bytes[start as int] == part[0]);
        is_char_boundary_iff_not_is_continuation_byte(bytes, start as int);
    }
    let (_, tail) = input.split_at(start);
    proof {
        encode_utf8_valid_utf8(tail@);
        assert forall|i: int| 0 <= i < end - start implies #[trigger] tail.spec_bytes()[i]
            < 0x80 by {
            assert(tail.spec_bytes()[i] == part[i]);
        }
        assert(ascii_before(tail.spec_bytes(), end - start));
        lemma_ascii_prefix_boundary(tail.spec_bytes(), end - start);
    }
    let (name, _) = tail.split_at(end - start);
    proof {
        assert(name.spec_bytes() =~= part);
        encode_utf8_decode_utf8(name@);
        lemma_decode_ascii(part);
    }
    name.to_owned()
}

/// The value of a run of digits, if it fits in 32 bits.
pub fn decimal(input: &[u8], start: usize, end: usize) -> (r: Option<u32>)
    requires
        start <= end <= input@.len(),
        all_in_class(input@.subrange(start as int, end as int), CharClass::Digit),
    ensures
        match r {
            Some(value) => value == decimal_value(input@.subrange(start as int, end as int)),
            None => decimal_value(input@.subrange(start as int, end as int)) > u32::MAX,
        },
{
    let mut value: u64 = 0;
    let mut fits = true;
    let mut i = start;
    while i < end
        invariant
            start <= i <= end <= input@.len(),
            all_in_class(input@.subrange(start as int, end as int), CharClass::Digit),
            fits ==> value == decimal_value(input@.subrange(start as int, i as int)),
            fits ==> value <= u32::MAX,
            !fits ==> decimal_value(input@.subrange(start as int, i as int)) > u32::MAX,
        decreases end - i,
    {
        let b = input[i];
        proof {
            let next = input@.subrange(start as int, i + 1);
            assert(next.drop_last() =~= input@.subrange(start as int, i as int));
            assert(next.last() == b);
            assert(input@.subrange(start as int, end as int)[i - start] == b);
            assert(CharClass::Digit.contains(b));
        }
        if fits {
            value = value * 10 + (b - 0x30) as u64;
            if value > 0xffff_ffff {
                fits = false;
            }
        }
        i = i + 1;
    }
    if fits {
        Some(value as u32)
    } else {
        None
    }
}

/// The text of a digit.
fn digit_text(d: usize) -> (r: &'static str)
    requires
        d < 10,
    ensures
        r@ == ascii_chars(seq![digit_char(d as nat)]),
{
    let r = if d == 0 {
        "0"
    } else if d == 1 {
        "1"
    } else if d == 2 {
        "2"
    } else if d == 3 {
        "3"
    } else if d == 4 {
        "4"
    } else if d == 5 {
        "5"
    } else if d == 6 {
        "6"
    } else if d == 7 {
        "7"
    } else if d == 8 {
        "8"
    } else {
        "9"
    };
    proof {
        reveal_strlit("0");
        reveal_strlit("1");
        reveal_strlit("2");
        reveal_strlit("3");
        reveal_strlit("4");
        reveal_strlit("5");
        reveal_strlit("6");
        reveal_strlit("7");
        reveal_strlit("8");
        reveal_strlit("9");
        assert(r@ =~= ascii_chars(seq![digit_char(d as nat)]));
    }
    r
}

/// Writes a number in base ten at the end of a text.
pub fn push_decimal(out: &mut String, n: usize)
    ensures
        final(out)@ == old(out)@ + ascii_chars(decimal_digits(n as nat)),
    decreases n,
{
    if n >= 10 {
        push_decimal(out, n / 10);
    }
    out.append(digit_text(n % 10));
    proof {
        let last = seq![digit_char((n % 10) as nat)];
        if n >= 10 {
            let front = decimal_digits((n / 10) as nat);
            assert(ascii_chars(front) + ascii_chars(last) =~= ascii_chars(front.push(last[0])));
            assert(out@ =~= old(out)@ + (ascii_chars(front) + ascii_chars(last)));
        }
    }
}

} // verus!
