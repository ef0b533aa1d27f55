//! Text at the boundary between the two models: decimal text for integer
//! table keys, and UTF-8 conversion of runtime byte strings.
//!
//! An integer table key is coerced to a string key by writing it in decimal,
//! exactly as the scripting runtime prints an integer. `nat_text` / `int_text`
//! give that text at the specification level, `format_int` computes it.
//! Runtime strings are raw bytes; `bytes_to_string` turns them into document
//! text exactly when they are valid UTF-8.

use vstd::prelude::*;
use vstd::string::StrSliceExecFns;
use vstd::utf8::{
    decode_utf8, encode_utf8, encode_utf8_decode_utf8, encode_utf8_valid_utf8, is_ascii_chars,
    is_ascii_chars_encode_utf8, valid_utf8,
};

verus! {

/// The character for one decimal digit.
pub open spec fn digit_char(d: nat) -> char
    recommends
        d < 10,
{
    if d == 0 {
        '0'
    } else if d == 1 {
        '1'
    } else if d == 2 {
        '2'
    } else if d == 3 {
        '3'
    } else if d == 4 {
        '4'
    } else if d == 5 {
        '5'
    } else if d == 6 {
        '6'
    } else if d == 7 {
        '7'
    } else if d == 8 {
        '8'
    } else {
        '9'
    }
}

/// The byte for one decimal digit.
pub open spec fn digit_byte(d: nat) -> u8
    recommends
        d < 10,
{
    (0x30 + d) as u8
}

/// The decimal digits of a non-negative number, most significant first.
pub open spec fn nat_text(n: nat) -> Seq<char>
    decreases n,
{
    if n < 10 {
        seq![digit_char(n)]
    } else {
        nat_text(n / 10).push(digit_char(n % 10))
    }
}

/// The decimal digit bytes of a non-negative number, most significant first.
pub open spec fn nat_bytes(n: nat) -> Seq<u8>
    decreases n,
{
    if n < 10 {
        seq![digit_byte(n)]
    } else {
        nat_bytes(n / 10).push(digit_byte(n % 10))
    }
}

/// The decimal text of an integer: its digits, with a leading `-` when it is
/// negative. This is the string key that an integer table key coerces to.
pub open spec fn int_text(i: int) -> Seq<char> {
    if i >= 0 {
        nat_text(i as nat)
    } else {
        seq!['-'] + nat_text((-i) as nat)
    }
}

/// The UTF-8 bytes of the decimal text of an integer.
pub open spec fn int_bytes(i: int) -> Seq<u8> {
    if i >= 0 {
        nat_bytes(i as nat)
    } else {
        seq![0x2d as u8] + nat_bytes((-i) as nat)
    }
}

/// Decimal digit text consists of the characters `'0'` through `'9'`, one
/// per digit byte, and is its own UTF-8 encoding byte for byte.
pub proof fn lemma_nat_text_bytes(n: nat)
    ensures
        nat_text(n).len() == nat_bytes(n).len(),
        nat_text(n).len() >= 1,
        forall|k: int| 0 <= k < nat_text(n).len() ==> '0' <= #[trigger] nat_text(n)[k] <= '9',
        forall|k: int|
            0 <= k < nat_text(n).len() ==> (#[trigger] nat_text(n)[k]) as u8 == nat_bytes(n)[k],
        is_ascii_chars(nat_text(n)),
        encode_utf8(nat_text(n)) == nat_bytes(n),
    decreases n,
{
    if n >= 10 {
        lemma_nat_text_bytes(n / 10);
        assert forall|k: int| 0 <= k < nat_text(n).len() implies '0' <= #[trigger] nat_text(
            n,
        )[k] <= '9' && nat_text(n)[k] as u8 == nat_bytes(n)[k] by {
            if k < nat_text(n).len() - 1 {
                assert(nat_text(n)[k] == nat_text(n / 10)[k]);
                assert(nat_bytes(n)[k] == nat_bytes(n / 10)[k]);
            }
        }
    }
    assert(is_ascii_chars(nat_text(n))) by {
        assert(forall|k: int|
            0 <= k < nat_text(n).len() ==> '\0' <= #[trigger] nat_text(n)[k] <= '\u{7f}');
    }
    is_ascii_chars_encode_utf8(nat_text(n));
    assert(encode_utf8(nat_text(n)) =~= nat_bytes(n));
}

/// The text of an integer is ASCII and is its own UTF-8 encoding.
pub proof fn lemma_int_text_bytes(i: int)
    ensures
        int_text(i).len() == int_bytes(i).len(),
        int_text(i).len() >= 1,
        is_ascii_chars(int_text(i)),
        encode_utf8(int_text(i)) == int_bytes(i),
{
    lemma_nat_text_bytes(if i >= 0 {
        i as nat
    } else {
        (-i) as nat
    });
    assert forall|k: int| 0 <= k < int_text(i).len() implies '\0' <= #[trigger] int_text(
        i,
    )[k] <= '\u{7f}' && int_text(i)[k] as u8 == int_bytes(i)[k] by {
        if i < 0 && k >= 1 {
            assert(int_text(i)[k] == nat_text((-i) as nat)[k - 1]);
            assert(int_bytes(i)[k] == nat_bytes((-i) as nat)[k - 1]);
        }
    }
    is_ascii_chars_encode_utf8(int_text(i));
    assert(encode_utf8(int_text(i)) =~= int_bytes(i));
}

/// Distinct non-negative numbers have distinct decimal text.
pub proof fn lemma_nat_text_injective(m: nat, n: nat)
    requires
        nat_text(m) == nat_text(n),
    ensures
        m == n,
    decreases m,
{
    lemma_nat_text_bytes(m);
    lemma_nat_text_bytes(n);
    if m < 10 && n < 10 {
        assert(nat_text(m)[0] == nat_text(n)[0]);
    } else if m < 10 || n < 10 {
        // One text is a single digit, the other at least two characters.
        assert(nat_text(m).len() == nat_text(n).len());
        lemma_nat_text_bytes(m / 10);
        lemma_nat_text_bytes(n / 10);
    } else {
        let lm = nat_text(m).len();
        assert(nat_text(m)[lm - 1] == digit_char(m % 10));
        assert(nat_text(n)[lm - 1] == digit_char(n % 10));
        assert(m % 10 == n % 10);
        assert(nat_text(m / 10) =~= nat_text(m).subrange(0, lm - 1));
        assert(nat_text(n / 10) =~= nat_text(n).subrange(0, lm - 1));
        lemma_nat_text_injective(m / 10, n / 10);
        assert(m == (m / 10) * 10 + (m % 10)) by (nonlinear_arith);
        assert(n == (n / 10) * 10 + (n % 10)) by (nonlinear_arith);
    }
}

/// Relies on `core::str::from_utf8`: it accepts exactly the valid UTF-8
/// byte sequences, and on success the string slice is their decoding.
#[verifier::external_body]
pub(crate) fn bytes_to_string(bytes: &Vec<u8>) -> (r: Option<String>)
    ensures
        r is Some <==> valid_utf8(bytes@),
        r matches Some(s) ==> s@ == decode_utf8(bytes@),
{
    match core::str::from_utf8(bytes.as_slice()) {
        Ok(s) => Some(s.to_owned()),
        Err(_) => None,
    }
}

/// Formats an integer in decimal, as the runtime coerces an integer key.
pub fn format_int(i: i64) -> (s: String)
    ensures
        s@ == int_text(i as int),
{
    let neg: bool = i < 0;
    let mut rest: u64 = if i >= 0 {
        i as u64
    } else {
        ((-(i + 1)) as u64) + 1
    };
    let ghost m: nat = rest as nat;
    proof {
        assert(m == if i >= 0 {
            i as int
        } else {
            -(i as int)
        });
    }
    let mut low: Vec<u8> = Vec::new();
    while rest >= 10
        invariant
            nat_bytes(m) =~= nat_bytes(rest as nat) + low@.reverse(),
        decreases rest,
    {
        let d: u8 = (rest % 10) as u8;
        proof {
            assert((low@.push((d + 0x30) as u8)).reverse() =~= seq![(d + 0x30) as u8] + low@.reverse());
            assert(nat_bytes(rest as nat) == nat_bytes((rest / 10) as nat).push(
                digit_byte((rest % 10) as nat),
            ));
            assert(nat_bytes((rest / 10) as nat).push(digit_byte((rest % 10) as nat))
                + low@.reverse() =~= nat_bytes((rest / 10) as nat) + (seq![(d + 0x30) as u8]
                + low@.reverse()));
        }
        low.push(d + 0x30);
        rest = rest / 10;
    }
    let d: u8 = rest as u8;
    proof {
        assert((low@.push((d + 0x30) as u8)).reverse() =~= seq![(d + 0x30) as u8] + low@.reverse());
        assert(nat_bytes(rest as nat) =~= seq![digit_byte(rest as nat)]);
        assert(nat_bytes(m) =~= (low@.push((d + 0x30) as u8)).reverse());
    }
    low.push(d + 0x30);
    let mut out: Vec<u8> = Vec::new();
    if neg {
        out.push(0x2d);
    }
    let ghost sign: Seq<u8> = if neg {
        seq![0x2d as u8]
    } else {
        Seq::empty()
    };
    assert(out@ =~= sign);
    let mut j: usize = low.len();
    while j > 0
        invariant
            j <= low@.len(),
            out@ =~= sign + low@.subrange(j as int, low@.len() as int).reverse(),
        decreases j,
    {
        j = j - 1;
        proof {
            assert(low@.subrange(j as int, low@.len() as int) =~= seq![low@[j as int]]
                + low@.subrange(j as int + 1, low@.len() as int));
            assert(low@.subrange(j as int, low@.len() as int).reverse() =~= low@.subrange(
                j as int + 1,
                low@.len() as int,
            ).reverse().push(low@[j as int]));
        }
        out.push(low[j]);
    }
    proof {
        assert(low@.subrange(0, low@.len() as int) =~= low@);
        assert(out@ =~= sign + nat_bytes(m));
        lemma_int_text_bytes(i as int);
        assert(out@ =~= int_bytes(i as int));
        encode_utf8_valid_utf8(int_text(i as int));
        encode_utf8_decode_utf8(int_text(i as int));
    }
    let r = bytes_to_string(&out);
    r.unwrap()
}

/// The UTF-8 bytes of document text, as the runtime stores a string.
pub fn text_to_bytes(s: &str) -> (r: Vec<u8>)
    ensures
        r@ == encode_utf8(s@),
{
    s.as_bytes_vec()
}

} // verus!
