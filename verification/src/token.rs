//! Share tokens: 128-bit capability identifiers, their canonical
//! hyphenated lower-case hexadecimal text, and the strict parser for
//! that text.  Formatting and parsing invert each other, so a minted
//! token's link always leads back to the same token.
use vstd::prelude::*;
use crate::chars::{hex_char, hex_digits, push_hex};

verus! {

/// A capability token: 128 random bits.  Whoever presents it may read
/// the one file it was minted for; it carries no identity.
#[derive(Clone, Copy, Debug, PartialEq, Eq, Hash, Structural)]
pub struct ShareToken {
    /// The most significant 64 bits.
    pub hi: u64,
    /// The least significant 64 bits.
    pub lo: u64,
}

/// The canonical text of a token: five hyphen-separated groups of
/// lower-case hexadecimal digits, 8-4-4-4-12.
pub open spec fn token_text(hi: u64, lo: u64) -> Seq<char> {
    hex_digits((hi >> 32) as nat, 8) + seq!['-'] + hex_digits(((hi >> 16) & 0xffff) as nat, 4)
        + seq!['-'] + hex_digits((hi & 0xffff) as nat, 4) + seq!['-'] + hex_digits(
        (lo >> 48) as nat,
        4,
    ) + seq!['-'] + hex_digits((lo & 0xffff_ffff_ffff) as nat, 12)
}

/// Renders a token as its canonical text.
pub fn token_to_string(t: &ShareToken) -> (r: String)
    ensures
        r@ == token_text(t.hi, t.lo),
{
    let mut s: String = String::new();
    push_hex(t.hi >> 32, 8, &mut s);
    s.push('-');
    push_hex((t.hi >> 16) & 0xffff, 4, &mut s);
    s.push('-');
    push_hex(t.hi & 0xffff, 4, &mut s);
    s.push('-');
    push_hex(t.lo >> 48, 4, &mut s);
    s.push('-');
    push_hex(t.lo & 0xffff_ffff_ffff, 12, &mut s);
    proof {
        assert(s@ =~= token_text(t.hi, t.lo));
    }
    s
}

/// Value of a lower-case hexadecimal digit; 16 marks every other
/// character as invalid.
pub open spec fn hex_val(c: char) -> int {
    if c == '0' { 0 }
    else if c == '1' { 1 }
    else if c == '2' { 2 }
    else if c == '3' { 3 }
    else if c == '4' { 4 }
    else if c == '5' { 5 }
    else if c == '6' { 6 }
    else if c == '7' { 7 }
    else if c == '8' { 8 }
    else if c == '9' { 9 }
    else if c == 'a' { 10 }
    else if c == 'b' { 11 }
    else if c == 'c' { 12 }
    else if c == 'd' { 13 }
    else if c == 'e' { 14 }
    else if c == 'f' { 15 }
    else { 16 }
}

/// The number a sequence of hexadecimal digits denotes, most
/// significant first; negative when some character is no digit.
pub open spec fn parse_hex(s: Seq<char>) -> int
    decreases s.len(),
{
    if s.len() == 0 {
        0
    } else if hex_val(s.last()) >= 16 {
        -1
    } else {
        let rest = parse_hex(s.drop_last());
        if rest < 0 {
            -1
        } else {
            rest * 16 + hex_val(s.last())
        }
    }
}

/// Sixteen to the `w`.
pub open spec fn pow16(w: nat) -> int
    decreases w,
{
    if w == 0 {
        1
    } else {
        16 * pow16((w - 1) as nat)
    }
}

pub proof fn lemma_pow16_pos(w: nat)
    ensures
        pow16(w) >= 1,
    decreases w,
{
    if w > 0 {
        lemma_pow16_pos((w - 1) as nat);
    }
}

pub proof fn lemma_pow16_mono(a: nat, b: nat)
    requires
        a <= b,
    ensures
        pow16(a) <= pow16(b),
    decreases b,
{
    lemma_pow16_pos(a);
    if a < b {
        lemma_pow16_mono(a, (b - 1) as nat);
    }
}

pub proof fn lemma_pow16_vals()
    ensures
        pow16(4) == 0x10000,
        pow16(8) == 0x1_0000_0000,
        pow16(11) == 0x1000_0000_0000,
        pow16(12) == 0x1_0000_0000_0000,
{
    assert(pow16(0) == 1);
    assert(pow16(1) == 16);
    assert(pow16(2) == 256);
    assert(pow16(3) == 4096);
    assert(pow16(4) == 0x10000);
    assert(pow16(5) == 0x10_0000);
    assert(pow16(6) == 0x100_0000);
    assert(pow16(7) == 0x1000_0000);
    assert(pow16(8) == 0x1_0000_0000);
    assert(pow16(9) == 0x10_0000_0000);
    assert(pow16(10) == 0x100_0000_0000);
    assert(pow16(11) == 0x1000_0000_0000);
    assert(pow16(12) == 0x1_0000_0000_0000);
}

pub proof fn lemma_parse_hex_bound(s: Seq<char>)
    ensures
        -1 <= parse_hex(s),
        parse_hex(s) < pow16(s.len() as nat),
    decreases s.len(),
{
    lemma_pow16_pos(s.len() as nat);
    if s.len() > 0 {
        lemma_parse_hex_bound(s.drop_last());
    }
}

pub proof fn lemma_parse_hex_invalid(s: Seq<char>, i: int)
    requires
        0 <= i < s.len(),
        hex_val(s[i]) >= 16,
    ensures
        parse_hex(s) < 0,
    decreases s.len(),
{
    if i < s.len() - 1 {
        assert(s.drop_last()[i] == s[i]);
        lemma_parse_hex_invalid(s.drop_last(), i);
    }
}

pub proof fn lemma_hex_digits_len(n: nat, w: nat)
    ensures
        hex_digits(n, w).len() == w,
    decreases w,
{
    if w > 0 {
        lemma_hex_digits_len(n / 16, (w - 1) as nat);
    }
}

/// Every rendered digit parses back: reading the fixed-width rendering
/// of a bounded number yields that number.
pub proof fn lemma_parse_hex_of_digits(n: nat, w: nat)
    requires
        n < pow16(w),
    ensures
        parse_hex(hex_digits(n, w)) == n,
    decreases w,
{
    if w == 0 {
    } else {
        let d = (n % 16) as int;
        assert(hex_val(hex_char(d)) == d);
        lemma_hex_digits_len(n / 16, (w - 1) as nat);
        assert(hex_digits(n, w).drop_last() =~= hex_digits(n / 16, (w - 1) as nat));
        assert(hex_digits(n, w).last() == hex_char(d));
        lemma_pow16_pos((w - 1) as nat);
        assert(n / 16 < pow16((w - 1) as nat)) by (nonlinear_arith)
            requires
                n < 16 * pow16((w - 1) as nat),
                pow16((w - 1) as nat) >= 1,
        {}
        lemma_parse_hex_of_digits(n / 16, (w - 1) as nat);
    }
}

/// The strict reading of a token's text: exactly 36 characters, the
/// four hyphens in place, every other character a lower-case
/// hexadecimal digit; anything else reads as nothing.
pub open spec fn spec_parse_token(s: Seq<char>) -> Option<(u64, u64)> {
    if s.len() != 36 {
        None
    } else if s[8] != '-' || s[13] != '-' || s[18] != '-' || s[23] != '-' {
        None
    } else {
        let g1 = parse_hex(s.subrange(0, 8));
        let g2 = parse_hex(s.subrange(9, 13));
        let g3 = parse_hex(s.subrange(14, 18));
        let g4 = parse_hex(s.subrange(19, 23));
        let g5 = parse_hex(s.subrange(24, 36));
        if g1 < 0 || g2 < 0 || g3 < 0 || g4 < 0 || g5 < 0 {
            None
        } else {
            let hi = ((g1 as u64) << 32) | ((g2 as u64) << 16) | (g3 as u64);
            let lo = ((g4 as u64) << 48) | (g5 as u64);
            Some((hi, lo))
        }
    }
}

fn hex_val_of(c: char) -> (r: u64)
    ensures
        r as int == hex_val(c),
{
    match c {
        '0' => 0,
        '1' => 1,
        '2' => 2,
        '3' => 3,
        '4' => 4,
        '5' => 5,
        '6' => 6,
        '7' => 7,
        '8' => 8,
        '9' => 9,
        'a' => 10,
        'b' => 11,
        'c' => 12,
        'd' => 13,
        'e' => 14,
        'f' => 15,
        _ => 16,
    }
}

fn parse_hex_range(s: &str, from: usize, to: usize) -> (r: Option<u64>)
    requires
        from <= to <= s@.len(),
        to - from <= 12,
    ensures
        r matches Some(v) ==> parse_hex(s@.subrange(from as int, to as int)) == v as int,
        r is None ==> parse_hex(s@.subrange(from as int, to as int)) < 0,
{
    let mut v: u64 = 0;
    let mut i: usize = from;
    proof {
        assert(s@.subrange(from as int, from as int) =~= Seq::<char>::empty());
    }
    while i < to
        invariant
            from <= i <= to,
            to <= s@.len(),
            to - from <= 12,
            v as int == parse_hex(s@.subrange(from as int, i as int)),
            0 <= parse_hex(s@.subrange(from as int, i as int)),
        decreases to - i,
    {
        let c: char = s.get_char(i);
        let d: u64 = hex_val_of(c);
        let ghost whole = s@.subrange(from as int, to as int);
        let ghost pre = s@.subrange(from as int, i as int);
        let ghost pre1 = s@.subrange(from as int, i as int + 1);
        proof {
            assert(pre1.last() == s@[i as int]);
            assert(pre1.drop_last() =~= pre);
        }
        if d >= 16 {
            proof {
                assert(whole[i - from] == s@[i as int]);
                lemma_parse_hex_invalid(whole, i - from);
            }
            return None;
        }
        proof {
            lemma_parse_hex_bound(pre);
            lemma_pow16_mono(pre.len() as nat, 11);
            lemma_pow16_vals();
            assert(v < 0x1000_0000_0000);
        }
        v = v * 16 + d;
        i += 1;
    }
    proof {
        lemma_parse_hex_bound(s@.subrange(from as int, to as int));
    }
    Some(v)
}

/// Reads a token from text, accepting exactly the canonical rendering.
pub fn parse_token(s: &str) -> (r: Option<ShareToken>)
    ensures
        r matches Some(t) ==> spec_parse_token(s@) == Some((t.hi, t.lo)),
        r is None ==> spec_parse_token(s@) is None,
{
    let n: usize = s.unicode_len();
    if n != 36 {
        return None;
    }
    if s.get_char(8) != '-' || s.get_char(13) != '-' || s.get_char(18) != '-' || s.get_char(23)
        != '-' {
        return None;
    }
    let g1: u64 = match parse_hex_range(s, 0, 8) {
        Some(v) => v,
        None => {
            return None;
        },
    };
    let g2: u64 = match parse_hex_range(s, 9, 13) {
        Some(v) => v,
        None => {
            return None;
        },
    };
    let g3: u64 = match parse_hex_range(s, 14, 18) {
        Some(v) => v,
        None => {
            return None;
        },
    };
    let g4: u64 = match parse_hex_range(s, 19, 23) {
        Some(v) => v,
        None => {
            return None;
        },
    };
    let g5: u64 = match parse_hex_range(s, 24, 36) {
        Some(v) => v,
        None => {
            return None;
        },
    };
    let hi: u64 = (g1 << 32) | (g2 << 16) | g3;
    let lo: u64 = (g4 << 48) | g5;
    proof {
        lemma_parse_hex_bound(s@.subrange(0, 8));
        lemma_parse_hex_bound(s@.subrange(9, 13));
        lemma_parse_hex_bound(s@.subrange(14, 18));
        lemma_parse_hex_bound(s@.subrange(19, 23));
        lemma_parse_hex_bound(s@.subrange(24, 36));
    }
    Some(ShareToken { hi, lo })
}

/// Formatting then parsing gives the token back: every minted link
/// leads to exactly the token it was minted from.
pub proof fn lemma_token_round_trip(hi: u64, lo: u64)
    ensures
        spec_parse_token(token_text(hi, lo)) == Some((hi, lo)),
{
    let s = token_text(hi, lo);
    let a1 = (hi >> 32) as nat;
    let a2 = ((hi >> 16) & 0xffff) as nat;
    let a3 = (hi & 0xffff) as nat;
    let a4 = (lo >> 48) as nat;
    let a5 = (lo & 0xffff_ffff_ffff) as nat;
    lemma_hex_digits_len(a1, 8);
    lemma_hex_digits_len(a2, 4);
    lemma_hex_digits_len(a3, 4);
    lemma_hex_digits_len(a4, 4);
    lemma_hex_digits_len(a5, 12);
    assert(s.len() == 36);
    assert(s.subrange(0, 8) =~= hex_digits(a1, 8));
    assert(s[8] == '-');
    assert(s.subrange(9, 13) =~= hex_digits(a2, 4));
    assert(s[13] == '-');
    assert(s.subrange(14, 18) =~= hex_digits(a3, 4));
    assert(s[18] == '-');
    assert(s.subrange(19, 23) =~= hex_digits(a4, 4));
    assert(s[23] == '-');
    assert(s.subrange(24, 36) =~= hex_digits(a5, 12));
    lemma_pow16_vals();
    assert(hi >> 32 <= 0xffff_ffff) by (bit_vector);
    assert((hi >> 16) & 0xffff <= 0xffff) by (bit_vector);
    assert(hi & 0xffff <= 0xffff) by (bit_vector);
    assert(lo >> 48 <= 0xffff) by (bit_vector);
    assert(lo & 0xffff_ffff_ffff <= 0xffff_ffff_ffff) by (bit_vector);
    lemma_parse_hex_of_digits(a1, 8);
    lemma_parse_hex_of_digits(a2, 4);
    lemma_parse_hex_of_digits(a3, 4);
    lemma_parse_hex_of_digits(a4, 4);
    lemma_parse_hex_of_digits(a5, 12);
    assert(((hi >> 32) << 32) | (((hi >> 16) & 0xffff) << 16) | (hi & 0xffff) == hi)
        by (bit_vector);
    assert(((lo >> 48) << 48) | (lo & 0xffff_ffff_ffff) == lo) by (bit_vector);
}

} // verus!
