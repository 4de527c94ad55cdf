//! Parsing of inbound messages into commands.
//!
//! Two channels feed the controller. The state channel carries one of the
//! words `OFF`, `MAN`, `HAND` or `COUNTDOWN`; the count channel carries a
//! plain decimal number. Anything else — an unknown word, an unparsable
//! number, an unknown channel — yields no command and the message is
//! dropped.

use vstd::prelude::*;

use crate::command::Command;

verus! {

/// An ASCII whitespace byte: space, or one of the control characters tab,
/// line feed, vertical tab, form feed and carriage return.
pub open spec fn is_space(b: u8) -> bool {
    b == 32 || b == 9 || b == 10 || b == 11 || b == 12 || b == 13
}

/// A two-byte UTF-8 whitespace character: next line (U+0085) or no-break
/// space (U+00A0).
pub open spec fn is_space2(a: u8, b: u8) -> bool {
    a == 0xC2 && (b == 0x85 || b == 0xA0)
}

/// A three-byte UTF-8 whitespace character: the Ogham space mark (U+1680),
/// the typographic spaces U+2000 through U+200A, the line and paragraph
/// separators (U+2028, U+2029), the narrow and medium spaces (U+202F and
/// U+205F), or the ideographic space (U+3000).
pub open spec fn is_space3(a: u8, b: u8, c: u8) -> bool {
    ||| (a == 0xE1 && b == 0x9A && c == 0x80)
    ||| (a == 0xE2 && b == 0x80 && (0x80 <= c <= 0x8A || c == 0xA8 || c == 0xA9 || c == 0xAF))
    ||| (a == 0xE2 && b == 0x81 && c == 0x9F)
    ||| (a == 0xE3 && b == 0x80 && c == 0x80)
}

/// The byte length of the whitespace character at the front of the input —
/// one, two or three — or zero where the input starts with anything else.
pub open spec fn ws_prefix_len(s: Seq<u8>) -> int {
    if s.len() >= 1 && is_space(s[0]) {
        1
    } else if s.len() >= 2 && is_space2(s[0], s[1]) {
        2
    } else if s.len() >= 3 && is_space3(s[0], s[1], s[2]) {
        3
    } else {
        0
    }
}

/// The byte length of the whitespace character at the back of the input —
/// one, two or three — or zero where the input ends with anything else.
pub open spec fn ws_suffix_len(s: Seq<u8>) -> int {
    if s.len() >= 1 && is_space(s[s.len() - 1]) {
        1
    } else if s.len() >= 2 && is_space2(s[s.len() - 2], s[s.len() - 1]) {
        2
    } else if s.len() >= 3 && is_space3(s[s.len() - 3], s[s.len() - 2], s[s.len() - 1]) {
        3
    } else {
        0
    }
}

/// The input without its leading whitespace characters.
pub open spec fn trim_front(s: Seq<u8>) -> Seq<u8>
    decreases s.len(),
{
    if ws_prefix_len(s) > 0 {
        trim_front(s.subrange(ws_prefix_len(s), s.len() as int))
    } else {
        s
    }
}

/// The input without its trailing whitespace characters.
pub open spec fn trim_back(s: Seq<u8>) -> Seq<u8>
    decreases s.len(),
{
    if ws_suffix_len(s) > 0 {
        trim_back(s.subrange(0, s.len() - ws_suffix_len(s)))
    } else {
        s
    }
}

/// The input without leading and trailing whitespace characters.
pub open spec fn spec_trim(s: Seq<u8>) -> Seq<u8> {
    trim_back(trim_front(s))
}

/// A decimal digit byte.
pub open spec fn is_digit(b: u8) -> bool {
    48 <= b <= 57
}

/// Every byte of the input is a decimal digit.
pub open spec fn all_digits(s: Seq<u8>) -> bool {
    forall|k: int| 0 <= k < s.len() ==> is_digit(#[trigger] s[k])
}

/// The numeric value of a string of decimal digit bytes, most significant
/// digit first.
pub open spec fn digits_value(s: Seq<u8>) -> int
    decreases s.len(),
{
    if s.len() == 0 {
        0
    } else {
        digits_value(s.drop_last()) * 10 + (s.last() - 48)
    }
}

/// The step count a count payload denotes: an optional leading plus sign,
/// then at least one decimal digit, with a value that fits the count's
/// machine-sized type. Anything else denotes no count.
pub open spec fn spec_parse_count(p: Seq<u8>) -> Option<u64> {
    let digits = if p.len() > 0 && p[0] == '+' as u8 {
        p.subrange(1, p.len() as int)
    } else {
        p
    };
    if digits.len() > 0 && all_digits(digits) && digits_value(digits) <= u64::MAX {
        Some(digits_value(digits) as u64)
    } else {
        None
    }
}

/// The bytes of the word `OFF`.
pub open spec fn off_word() -> Seq<u8> {
    seq!['O' as u8, 'F' as u8, 'F' as u8]
}

/// The bytes of the word `MAN`.
pub open spec fn man_word() -> Seq<u8> {
    seq!['M' as u8, 'A' as u8, 'N' as u8]
}

/// The bytes of the word `HAND`.
pub open spec fn hand_word() -> Seq<u8> {
    seq!['H' as u8, 'A' as u8, 'N' as u8, 'D' as u8]
}

/// The bytes of the word `COUNTDOWN`.
pub open spec fn countdown_word() -> Seq<u8> {
    seq![
        'C' as u8,
        'O' as u8,
        'U' as u8,
        'N' as u8,
        'T' as u8,
        'D' as u8,
        'O' as u8,
        'W' as u8,
        'N' as u8,
    ]
}

/// The bytes of the state channel's name.
pub open spec fn state_topic() -> Seq<u8> {
    seq![
        'c' as u8,
        'r' as u8,
        'o' as u8,
        's' as u8,
        's' as u8,
        'w' as u8,
        'a' as u8,
        'l' as u8,
        'k' as u8,
        '/' as u8,
        's' as u8,
        't' as u8,
        'a' as u8,
        't' as u8,
        'e' as u8,
    ]
}

/// The bytes of the count channel's name.
pub open spec fn count_topic() -> Seq<u8> {
    seq![
        'c' as u8,
        'r' as u8,
        'o' as u8,
        's' as u8,
        's' as u8,
        'w' as u8,
        'a' as u8,
        'l' as u8,
        'k' as u8,
        '/' as u8,
        'c' as u8,
        'o' as u8,
        'u' as u8,
        'n' as u8,
        't' as u8,
    ]
}

/// The command a state payload (already trimmed) spells, if any.
pub open spec fn spec_state_word(p: Seq<u8>) -> Option<Command> {
    if p == off_word() {
        Some(Command::Off)
    } else if p == man_word() {
        Some(Command::Man)
    } else if p == hand_word() {
        Some(Command::Hand)
    } else if p == countdown_word() {
        Some(Command::Countdown)
    } else {
        None
    }
}

/// The command a message denotes: on the state channel one of the four
/// state words, on the count channel a decimal step count, each taken
/// after trimming whitespace; anything else denotes no command.
pub open spec fn spec_parse_command(topic: Seq<u8>, payload: Seq<u8>) -> Option<Command> {
    if topic == state_topic() {
        spec_state_word(spec_trim(payload))
    } else if topic == count_topic() {
        match spec_parse_count(spec_trim(payload)) {
            Some(n) => Some(Command::Count(n)),
            None => None,
        }
    } else {
        None
    }
}

/// Whitespace test on a concrete byte.
fn is_space_byte(b: u8) -> (r: bool)
    ensures
        r == is_space(b),
{
    b == 32 || b == 9 || b == 10 || b == 11 || b == 12 || b == 13
}

/// Whether three bytes spell a three-byte UTF-8 whitespace character.
fn is_space3_bytes(a: u8, b: u8, c: u8) -> (r: bool)
    ensures
        r == is_space3(a, b, c),
{
    (a == 0xE1 && b == 0x9A && c == 0x80) || (a == 0xE2 && b == 0x80 && (0x80 <= c && c <= 0x8A
        || c == 0xA8 || c == 0xA9 || c == 0xAF)) || (a == 0xE2 && b == 0x81 && c == 0x9F) || (a
        == 0xE3 && b == 0x80 && c == 0x80)
}

/// The byte length of the whitespace character starting at position `i`,
/// or zero.
fn ws_at(s: &[u8], i: usize) -> (k: usize)
    requires
        i <= s@.len(),
    ensures
        k as int == ws_prefix_len(s@.subrange(i as int, s@.len() as int)),
        i + k <= s@.len(),
{
    let n = s.len();
    let ghost t = s@.subrange(i as int, s@.len() as int);
    proof {
        if t.len() >= 1 {
            assert(t[0] == s@[i as int]);
        }
        if t.len() >= 2 {
            assert(t[1] == s@[i as int + 1]);
        }
        if t.len() >= 3 {
            assert(t[2] == s@[i as int + 2]);
        }
    }
    if i < n && is_space_byte(s[i]) {
        1
    } else if n - i >= 2 && s[i] == 0xC2 && (s[i + 1] == 0x85 || s[i + 1] == 0xA0) {
        2
    } else if n - i >= 3 && is_space3_bytes(s[i], s[i + 1], s[i + 2]) {
        3
    } else {
        0
    }
}

/// The byte length of the whitespace character that ends just before
/// position `j`, looking no further back than `lo`, or zero.
fn ws_before(s: &[u8], lo: usize, j: usize) -> (k: usize)
    requires
        lo <= j <= s@.len(),
    ensures
        k as int == ws_suffix_len(s@.subrange(lo as int, j as int)),
        k <= j - lo,
{
    let ghost t = s@.subrange(lo as int, j as int);
    proof {
        if t.len() >= 1 {
            assert(t[t.len() - 1] == s@[j - 1]);
        }
        if t.len() >= 2 {
            assert(t[t.len() - 2] == s@[j - 2]);
        }
        if t.len() >= 3 {
            assert(t[t.len() - 3] == s@[j - 3]);
        }
    }
    if j > lo && is_space_byte(s[j - 1]) {
        1
    } else if j - lo >= 2 && s[j - 2] == 0xC2 && (s[j - 1] == 0x85 || s[j - 1] == 0xA0) {
        2
    } else if j - lo >= 3 && is_space3_bytes(s[j - 3], s[j - 2], s[j - 1]) {
        3
    } else {
        0
    }
}

/// The bounds within the input that trimming whitespace keeps.
fn trim(s: &[u8]) -> (r: (usize, usize))
    ensures
        r.0 <= r.1 <= s@.len(),
        spec_trim(s@) == s@.subrange(r.0 as int, r.1 as int),
{
    let n = s.len();
    proof {
        assert(s@.subrange(0, n as int) =~= s@);
    }
    let mut lo: usize = 0;
    let mut step = ws_at(s, lo);
    while step > 0
        invariant
            lo <= n,
            n == s@.len(),
            lo + step <= n,
            step as int == ws_prefix_len(s@.subrange(lo as int, n as int)),
            trim_front(s@) == trim_front(s@.subrange(lo as int, n as int)),
        decreases n - lo,
    {
        proof {
            assert(s@.subrange(lo as int, n as int).subrange(step as int, (n - lo) as int) =~= s@
                .subrange((lo + step) as int, n as int));
        }
        lo = lo + step;
        step = ws_at(s, lo);
    }
    proof {
        assert(trim_front(s@) == s@.subrange(lo as int, n as int));
    }
    let mut hi: usize = n;
    let mut back = ws_before(s, lo, hi);
    while back > 0
        invariant
            lo <= hi <= n,
            n == s@.len(),
            back <= hi - lo,
            back as int == ws_suffix_len(s@.subrange(lo as int, hi as int)),
            trim_front(s@) == s@.subrange(lo as int, n as int),
            trim_back(s@.subrange(lo as int, n as int)) == trim_back(
                s@.subrange(lo as int, hi as int),
            ),
        decreases hi,
    {
        proof {
            assert(s@.subrange(lo as int, hi as int).subrange(0, (hi - lo - back) as int) =~= s@
                .subrange(lo as int, (hi - back) as int));
        }
        hi = hi - back;
        back = ws_before(s, lo, hi);
    }
    proof {
        assert(spec_trim(s@) == s@.subrange(lo as int, hi as int));
    }
    (lo, hi)
}

/// The command a state payload (already trimmed) spells, if any.
fn state_word(p: &[u8]) -> (r: Option<Command>)
    ensures
        r == spec_state_word(p@),
{
    if p.len() == 3 && p[0] == 'O' as u8 && p[1] == 'F' as u8 && p[2] == 'F' as u8 {
        proof {
            assert(p@ =~= off_word());
        }
        Some(Command::Off)
    } else if p.len() == 3 && p[0] == 'M' as u8 && p[1] == 'A' as u8 && p[2] == 'N' as u8 {
        proof {
            assert(p@ =~= man_word());
        }
        Some(Command::Man)
    } else if p.len() == 4 && p[0] == 'H' as u8 && p[1] == 'A' as u8 && p[2] == 'N' as u8 && p[3]
        == 'D' as u8 {
        proof {
            assert(p@ =~= hand_word());
        }
        Some(Command::Hand)
    } else if p.len() == 9 && p[0] == 'C' as u8 && p[1] == 'O' as u8 && p[2] == 'U' as u8 && p[3]
        == 'N' as u8 && p[4] == 'T' as u8 && p[5] == 'D' as u8 && p[6] == 'O' as u8 && p[7] == 'W'
        as u8 && p[8] == 'N' as u8 {
        proof {
            assert(p@ =~= countdown_word());
        }
        Some(Command::Countdown)
    } else {
        None
    }
}

/// The value of a digit string is never negative.
proof fn lemma_digits_nonneg(s: Seq<u8>)
    requires
        all_digits(s),
    ensures
        digits_value(s) >= 0,
    decreases s.len(),
{
    if s.len() > 0 {
        assert forall|k: int| 0 <= k < s.drop_last().len() implies is_digit(
            #[trigger] s.drop_last()[k],
        ) by {
            assert(s.drop_last()[k] == s[k]);
        }
        lemma_digits_nonneg(s.drop_last());
    }
}

/// The value of every prefix of a digit string is at most the value of the
/// whole string.
proof fn lemma_digits_prefix_bound(s: Seq<u8>, i: int)
    requires
        0 <= i <= s.len(),
        all_digits(s),
    ensures
        0 <= digits_value(s.subrange(0, i)),
        digits_value(s.subrange(0, i)) <= digits_value(s),
    decreases s.len() - i,
{
    assert forall|k: int| 0 <= k < s.subrange(0, i).len() implies is_digit(
        #[trigger] s.subrange(0, i)[k],
    ) by {
        assert(s.subrange(0, i)[k] == s[k]);
    }
    lemma_digits_nonneg(s.subrange(0, i));
    if i == s.len() {
        assert(s.subrange(0, i) =~= s);
    } else {
        lemma_digits_prefix_bound(s, i + 1);
        assert(s.subrange(0, i + 1).drop_last() =~= s.subrange(0, i));
        assert(s.subrange(0, i + 1).last() == s[i]);
    }
}

/// The step count a count payload (already trimmed) denotes, if any.
fn parse_count(p: &[u8]) -> (r: Option<u64>)
    ensures
        r == spec_parse_count(p@),
{
    let start: usize = if p.len() > 0 && p[0] == '+' as u8 {
        1
    } else {
        0
    };
    let ghost digits = if start == 1 {
        p@.subrange(1, p@.len() as int)
    } else {
        p@
    };
    if p.len() == start {
        return None;
    }
    let mut acc: u128 = 0;
    let mut i: usize = start;
    while i < p.len()
        invariant
            start <= i <= p@.len(),
            start == 0 || start == 1,
            (start == 1) == (p@.len() > 0 && p@[0] == '+' as u8),
            digits == (if start == 1 {
                p@.subrange(1, p@.len() as int)
            } else {
                p@
            }),
            all_digits(p@.subrange(start as int, i as int)),
            acc <= u64::MAX,
            acc == digits_value(p@.subrange(start as int, i as int)),
        decreases p@.len() - i,
    {
        let b = p[i];
        if b < 48 || b > 57 {
            proof {
                assert(digits[i - start] == p@[i as int]);
                assert(!all_digits(digits));
            }
            return None;
        }
        proof {
            assert(p@.subrange(start as int, i + 1).drop_last() =~= p@.subrange(
                start as int,
                i as int,
            ));
            assert(p@.subrange(start as int, i + 1).last() == p@[i as int]);
        }
        acc = acc * 10 + ((b - 48) as u128);
        i = i + 1;
        if acc > u64::MAX as u128 {
            proof {
                if all_digits(digits) {
                    assert(p@.subrange(start as int, i as int) =~= digits.subrange(
                        0,
                        i - start,
                    ));
                    lemma_digits_prefix_bound(digits, i - start);
                }
            }
            return None;
        }
    }
    proof {
        assert(p@.subrange(start as int, p@.len() as int) =~= digits);
    }
    Some(acc as u64)
}

/// Turn an inbound message — its channel name and its raw payload — into
/// the command it denotes, or `None` where the message is to be dropped.
pub fn parse_command(topic: &[u8], payload: &[u8]) -> (r: Option<Command>)
    ensures
        r == spec_parse_command(topic@, payload@),
{
    if is_state_topic(topic) {
        let (lo, hi) = trim(payload);
        let word = vstd::slice::slice_subrange(payload, lo, hi);
        state_word(word)
    } else if is_count_topic(topic) {
        let (lo, hi) = trim(payload);
        let num = vstd::slice::slice_subrange(payload, lo, hi);
        match parse_count(num) {
            Some(n) => Some(Command::Count(n)),
            None => None,
        }
    } else {
        None
    }
}

/// Does the channel name spell the state channel?
fn is_state_topic(t: &[u8]) -> (r: bool)
    ensures
        r == (t@ == state_topic()),
{
    let r = t.len() == 15 && t[0] == 'c' as u8 && t[1] == 'r' as u8 && t[2] == 'o' as u8 && t[3]
        == 's' as u8 && t[4] == 's' as u8 && t[5] == 'w' as u8 && t[6] == 'a' as u8 && t[7] == 'l'
        as u8 && t[8] == 'k' as u8 && t[9] == '/' as u8 && t[10] == 's' as u8 && t[11] == 't' as u8
        && t[12] == 'a' as u8 && t[13] == 't' as u8 && t[14] == 'e' as u8;
    proof {
        if r {
            assert(t@ =~= state_topic());
        }
    }
    r
}

/// Does the channel name spell the count channel?
fn is_count_topic(t: &[u8]) -> (r: bool)
    ensures
        r == (t@ == count_topic()),
{
    let r = t.len() == 15 && t[0] == 'c' as u8 && t[1] == 'r' as u8 && t[2] == 'o' as u8 && t[3]
        == 's' as u8 && t[4] == 's' as u8 && t[5] == 'w' as u8 && t[6] == 'a' as u8 && t[7] == 'l'
        as u8 && t[8] == 'k' as u8 && t[9] == '/' as u8 && t[10] == 'c' as u8 && t[11] == 'o' as u8
        && t[12] == 'u' as u8 && t[13] == 'n' as u8 && t[14] == 't' as u8;
    proof {
        if r {
            assert(t@ =~= count_topic());
        }
    }
    r
}

} // verus!
