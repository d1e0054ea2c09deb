//! The custom percent-encoding used by the signing protocol.
//!
//! Unreserved characters (`A-Z a-z 0-9 - . _ ~`) pass through unchanged;
//! every other character, the space included, becomes `%` followed by the
//! upper-case hexadecimal digits of its Unicode scalar value, padded to at
//! least two digits.  The encoder walks characters (scalar values), not
//! bytes.

use vstd::prelude::*;

use crate::strutil::push_char;

verus! {

/// A character the encoder passes through unchanged.
pub open spec fn is_unreserved(c: char) -> bool {
    let n = c as u32;
    (97 <= n <= 122)  // a-z
     || (65 <= n <= 90)  // A-Z
     || (48 <= n <= 57)  // 0-9
     || n == 45 || n == 46 || n == 95 || n == 126  // - . _ ~
}

/// The upper-case hexadecimal digit character for a value below sixteen.
pub open spec fn hex_digit(d: int) -> char
    recommends
        0 <= d < 16,
{
    if d < 10 {
        ((48 + d) as u8) as char
    } else {
        ((55 + d) as u8) as char
    }
}

/// The upper-case hexadecimal rendering of a natural number, most
/// significant digit first, without leading zeros.
pub open spec fn hex_of(n: int) -> Seq<char>
    recommends
        n >= 0,
    decreases n,
{
    if n < 16 {
        seq![hex_digit(n)]
    } else {
        hex_of(n / 16).push(hex_digit(n % 16))
    }
}

/// `%XX`: a percent sign and the scalar value in upper-case hexadecimal,
/// at least two digits wide.
pub open spec fn percent_hex(n: int) -> Seq<char>
    recommends
        n >= 0,
{
    if n < 16 {
        seq!['%', '0'] + hex_of(n)
    } else {
        seq!['%'] + hex_of(n)
    }
}

/// The encoding of one character.
pub open spec fn encode_char(c: char) -> Seq<char> {
    if is_unreserved(c) {
        seq![c]
    } else {
        percent_hex(c as u32 as int)
    }
}

/// The encoding of a character sequence: each character's encoding in turn.
pub open spec fn encode_seq(s: Seq<char>) -> Seq<char>
    decreases s.len(),
{
    if s.len() == 0 {
        Seq::empty()
    } else {
        encode_char(s[0]) + encode_seq(s.drop_first())
    }
}

/// Encoding distributes over concatenation.
pub proof fn lemma_encode_seq_concat(a: Seq<char>, b: Seq<char>)
    ensures
        encode_seq(a + b) == encode_seq(a) + encode_seq(b),
    decreases a.len(),
{
    if a.len() == 0 {
        assert(a + b =~= b);
        assert(encode_seq(a) + encode_seq(b) =~= encode_seq(b));
    } else {
        assert((a + b).drop_first() =~= a.drop_first() + b);
        lemma_encode_seq_concat(a.drop_first(), b);
        assert(encode_seq(a + b) =~= encode_seq(a) + encode_seq(b));
    }
}

/// Growing the input by one character grows the encoding by that
/// character's encoding.
proof fn lemma_encode_seq_snoc(s: Seq<char>, i: int)
    requires
        0 <= i < s.len(),
    ensures
        encode_seq(s.take(i + 1)) == encode_seq(s.take(i)) + encode_char(s[i]),
{
    assert(s.take(i + 1) =~= s.take(i) + seq![s[i]]);
    lemma_encode_seq_concat(s.take(i), seq![s[i]]);
    assert(encode_seq(seq![s[i]].drop_first()) == Seq::<char>::empty());
    assert(encode_seq(seq![s[i]]) =~= encode_char(s[i]));
}

/// On input made only of unreserved characters, the encoder is the
/// identity.
pub proof fn lemma_encode_unreserved_identity(s: Seq<char>)
    requires
        forall|i: int| 0 <= i < s.len() ==> is_unreserved(s[i]),
    ensures
        encode_seq(s) == s,
    decreases s.len(),
{
    if s.len() == 0 {
        assert(encode_seq(s) =~= s);
    } else {
        lemma_encode_unreserved_identity(s.drop_first());
        assert(encode_seq(s) =~= s);
    }
}

/// The space character encodes to exactly `%20`.
pub proof fn lemma_encode_space()
    ensures
        encode_char(' ') == seq!['%', '2', '0'],
{
    assert(' ' as u32 == 32);
    crate::strutil::lemma_char_inj(hex_digit(2), '2');
    crate::strutil::lemma_char_inj(hex_digit(0), '0');
    assert(hex_of(2) =~= seq!['2']);
    assert(hex_of(32) == hex_of(2).push(hex_digit(0)));
    assert(hex_of(32) =~= seq!['2', '0']);
    assert(encode_char(' ') =~= seq!['%', '2', '0']);
}

fn hex_digit_char(d: u32) -> (r: char)
    requires
        d < 16,
    ensures
        r == hex_digit(d as int),
{
    if d < 10 {
        (48 + d as u8) as char
    } else {
        (55 + d as u8) as char
    }
}

fn push_hex(out: &mut String, n: u32)
    ensures
        final(out)@ == old(out)@ + hex_of(n as int),
    decreases n,
{
    if n < 16 {
        push_char(out, hex_digit_char(n));
    } else {
        push_hex(out, n / 16);
        push_char(out, hex_digit_char(n % 16));
    }
    proof {
        assert(final(out)@ =~= old(out)@ + hex_of(n as int));
    }
}

/// The custom percent-encoder.  Unreserved characters pass through; every
/// other character becomes `%XX` with upper-case hexadecimal digits of its
/// scalar value (the space, in particular, becomes `%20`).
pub fn encode_rfc3986(input: &str) -> (r: String)
    ensures
        r@ == encode_seq(input@),
{
    let n = input.unicode_len();
    let mut r = String::new();
    let mut i: usize = 0;
    while i < n
        invariant
            n == input@.len(),
            i <= n,
            r@ == encode_seq(input@.take(i as int)),
        decreases n - i,
    {
        let c = input.get_char(i);
        let code = c as u32;
        let unreserved = (97 <= code && code <= 122) || (65 <= code && code <= 90) || (48 <= code
            && code <= 57) || code == 45 || code == 46 || code == 95 || code == 126;
        if unreserved {
            push_char(&mut r, c);
        } else {
            push_char(&mut r, '%');
            if code < 16 {
                push_char(&mut r, '0');
            }
            push_hex(&mut r, code);
        }
        proof {
            lemma_encode_seq_snoc(input@, i as int);
            assert(r@ =~= encode_seq(input@.take(i + 1)));
        }
        i += 1;
    }
    proof {
        assert(input@.take(n as int) =~= input@);
    }
    r
}

} // verus!
