//! Segment file names: the start offset as 16 lowercase hex digits, then `.log`.
use vstd::prelude::*;
use vstd::string::StrSliceExecFns;
use vstd::arithmetic::div_mod::lemma_mod_breakdown;

verus! {

/// The lowercase hex digit for `d < 16`.
pub open spec fn hex_char(d: nat) -> char {
    if d < 10 {
        (48 + d) as u8 as char
    } else {
        (87 + d) as u8 as char
    }
}

/// The value of a lowercase hex digit.
pub open spec fn hex_value(c: char) -> Option<nat> {
    if '0' <= c && c <= '9' {
        Some((c as u32 - 48) as nat)
    } else if 'a' <= c && c <= 'f' {
        Some((c as u32 - 87) as nat)
    } else {
        None
    }
}

/// The last `k` hex digits of `x`, most significant first.
pub open spec fn hex_digits(x: nat, k: nat) -> Seq<char>
    decreases k,
{
    if k == 0 {
        Seq::empty()
    } else {
        hex_digits(x / 16, (k - 1) as nat).push(hex_char(x % 16))
    }
}

/// `16^k`.
pub open spec fn pow16(k: nat) -> nat
    decreases k,
{
    if k == 0 {
        1
    } else {
        16 * pow16((k - 1) as nat)
    }
}

/// The number that a run of lowercase hex digits spells.
pub open spec fn hex_number(s: Seq<char>) -> nat
    decreases s.len(),
{
    if s.len() == 0 {
        0
    } else {
        hex_number(s.drop_last()) * 16 + match hex_value(s.last()) {
            Some(v) => v,
            None => 0,
        }
    }
}

/// The file name of the segment that starts at `start`.
pub open spec fn segment_name(start: u64) -> Seq<char> {
    hex_digits(start as nat, 16) + seq!['.', 'l', 'o', 'g']
}

/// Whether `name` has the shape of a segment file name.
pub open spec fn is_segment_name(name: Seq<char>) -> bool {
    &&& name.len() == 20
    &&& name.subrange(16, 20) == seq!['.', 'l', 'o', 'g']
    &&& forall|i: int| 0 <= i < 16 ==> (#[trigger] hex_value(name[i])) is Some
}

/// The start offset that a file name gives, if it is a segment file name.
pub open spec fn parse_name(name: Seq<char>) -> Option<u64> {
    if is_segment_name(name) {
        Some(hex_number(name.subrange(0, 16)) as u64)
    } else {
        None
    }
}

/// Relies on std's `format!` with `{:016x}`: the value in lowercase hex,
/// zero-padded to 16 digits.
#[verifier::external_body]
fn format_segment_name(start: u64) -> (r: String)
    ensures
        r@ == segment_name(start),
{
    format!("{:016x}.log", start)
}

/// The file name of the segment that starts at `start`.
pub fn segment_file_name(start: u64) -> (r: String)
    ensures
        r@ == segment_name(start),
        parse_name(r@) == Some(start),
{
    proof {
        lemma_name_round_trip(start);
    }
    format_segment_name(start)
}

proof fn lemma_pow16_bounds(k: nat)
    requires
        k <= 15,
    ensures
        pow16(k) <= pow16(15),
        pow16(15) == 0x1000_0000_0000_0000,
        pow16(16) == 0x1_0000_0000_0000_0000,
    decreases 15 - k,
{
    reveal_with_fuel(pow16, 17);
    if k < 15 {
        lemma_pow16_bounds(k + 1);
    }
}

proof fn lemma_hex_number_bound(s: Seq<char>)
    ensures
        hex_number(s) < pow16(s.len()),
    decreases s.len(),
{
    if s.len() > 0 {
        lemma_hex_number_bound(s.drop_last());
        let a = hex_number(s.drop_last());
        let p = pow16((s.len() - 1) as nat);
        let d = match hex_value(s.last()) {
            Some(v) => v,
            None => 0,
        };
        assert(d < 16);
        assert(a * 16 + d < 16 * p) by (nonlinear_arith)
            requires
                a < p,
                d < 16,
        ;
    }
}

/// Reads the start offset out of a segment file name; any other name gives
/// `None`.
pub fn parse_segment_file_name(name: &str) -> (r: Option<u64>)
    ensures
        r == parse_name(name@),
{
    let n = name.unicode_len();
    if n != 20 {
        return None;
    }
    if name.get_char(16) != '.' || name.get_char(17) != 'l' || name.get_char(18) != 'o'
        || name.get_char(19) != 'g' {
        assert(name@.subrange(16, 20) != seq!['.', 'l', 'o', 'g']) by {
            let t = name@.subrange(16, 20);
            assert(t[0] == name@[16] && t[1] == name@[17] && t[2] == name@[18] && t[3]
                == name@[19]);
        }
        return None;
    }
    assert(name@.subrange(16, 20) =~= seq!['.', 'l', 'o', 'g']);
    let mut acc: u64 = 0;
    let mut i: usize = 0;
    while i < 16
        invariant
            i <= 16,
            name@.len() == 20,
            acc as nat == hex_number(name@.subrange(0, i as int)),
            forall|j: int| 0 <= j < i ==> (#[trigger] hex_value(name@[j])) is Some,
        decreases 16 - i,
    {
        let c = name.get_char(i);
        let d: u64 = if '0' <= c && c <= '9' {
            (c as u32 - 48) as u64
        } else if 'a' <= c && c <= 'f' {
            (c as u32 - 87) as u64
        } else {
            assert(hex_value(name@[i as int]) is None);
            return None;
        };
        proof {
            lemma_hex_number_bound(name@.subrange(0, i as int));
            lemma_pow16_bounds(i as nat);
            let s = name@.subrange(0, i as int + 1);
            assert(s.drop_last() =~= name@.subrange(0, i as int));
        }
        acc = acc * 16 + d;
        i = i + 1;
    }
    Some(acc)
}

proof fn lemma_pow16_positive(k: nat)
    ensures
        pow16(k) > 0,
    decreases k,
{
    if k > 0 {
        lemma_pow16_positive((k - 1) as nat);
    }
}

proof fn lemma_hex_digits_number(x: nat, k: nat)
    ensures
        hex_digits(x, k).len() == k,
        hex_number(hex_digits(x, k)) == x % pow16(k),
        forall|i: int| 0 <= i < k ==> (#[trigger] hex_value(hex_digits(x, k)[i])) is Some,
    decreases k,
{
    if k > 0 {
        let km = (k - 1) as nat;
        lemma_hex_digits_number(x / 16, km);
        let s = hex_digits(x, k);
        assert(s.drop_last() =~= hex_digits(x / 16, km));
        let d = x % 16;
        assert(hex_value(hex_char(d)) == Some(d));
        lemma_pow16_positive(km);
        lemma_mod_breakdown(x as int, 16, pow16(km) as int);
        assert forall|i: int| 0 <= i < k implies (#[trigger] hex_value(s[i])) is Some by {
            if i < km {
                assert(s[i] == hex_digits(x / 16, km)[i]);
            }
        }
    } else {
        assert(x % 1 == 0);
    }
}

/// Reading the name of a segment gives back its start offset.
pub proof fn lemma_name_round_trip(start: u64)
    ensures
        parse_name(segment_name(start)) == Some(start),
{
    let name = segment_name(start);
    let digits = hex_digits(start as nat, 16);
    lemma_hex_digits_number(start as nat, 16);
    lemma_pow16_bounds(0);
    assert(name.subrange(0, 16) =~= digits);
    assert(name.subrange(16, 20) =~= seq!['.', 'l', 'o', 'g']);
    assert forall|i: int| 0 <= i < 16 implies (#[trigger] hex_value(name[i])) is Some by {
        assert(name[i] == digits[i]);
    }
}

} // verus!
