//! Numbers, bytes and derivation paths as text.

use vstd::prelude::*;
use vstd::string::{StrSliceExecFns, StringExecFns};

verus! {

/// A decimal digit as a character.
pub open spec fn digit_char(d: nat) -> char {
    (('0' as u8 + d) as u8) as char
}

/// The decimal digits of a number, without leading zeros.
pub open spec fn decimal(n: nat) -> Seq<char>
    decreases n,
{
    if n < 10 {
        seq![digit_char(n)]
    } else {
        decimal(n / 10).push(digit_char(n % 10))
    }
}

/// A signed number in decimal digits.
pub open spec fn signed_decimal(n: int) -> Seq<char> {
    if n < 0 {
        seq!['-'] + decimal((-n) as nat)
    } else {
        decimal(n as nat)
    }
}

pub open spec fn is_digit(c: char) -> bool {
    '0' <= c <= '9'
}

pub open spec fn digit_value(c: char) -> nat {
    (c as u32 - '0' as u32) as nat
}

/// There are digits, and nothing else.
pub open spec fn is_number(s: Seq<char>) -> bool {
    s.len() > 0 && forall|i: int| 0 <= i < s.len() ==> is_digit(#[trigger] s[i])
}

/// The number that decimal digits stand for.
pub open spec fn number_value(s: Seq<char>) -> nat
    decreases s.len(),
{
    if s.len() == 0 {
        0
    } else {
        10 * number_value(s.drop_last()) + digit_value(s.last())
    }
}

/// A number as it is parsed: digits behind an optional sign.
pub open spec fn parsed(s: Seq<char>) -> Option<int> {
    if is_number(s) {
        Some(number_value(s) as int)
    } else if s.len() > 0 && s[0] == '+' && is_number(s.skip(1)) {
        Some(number_value(s.skip(1)) as int)
    } else if s.len() > 0 && s[0] == '-' && is_number(s.skip(1)) {
        Some(-(number_value(s.skip(1)) as int))
    } else {
        None
    }
}

/// A number that fits into 32 bits without a sign.
pub open spec fn parsed_u32(s: Seq<char>) -> Option<u32> {
    if s.len() > 0 && s[0] == '-' {
        None
    } else {
        match parsed(s) {
            Some(n) => if 0 <= n <= u32::MAX {
                Some(n as u32)
            } else {
                None
            },
            None => None,
        }
    }
}

/// A number that fits into 32 bits with a sign.
pub open spec fn parsed_i32(s: Seq<char>) -> Option<i32> {
    match parsed(s) {
        Some(n) => if i32::MIN <= n <= i32::MAX {
            Some(n as i32)
        } else {
            None
        },
        None => None,
    }
}

/// A hexadecimal digit as a character.
pub open spec fn hex_char(d: nat) -> char {
    if d < 10 {
        digit_char(d)
    } else {
        (('a' as u8 + d - 10) as u8) as char
    }
}

/// Bytes in hexadecimal, two lower-case digits each.
pub open spec fn hex(bytes: Seq<u8>) -> Seq<char>
    decreases bytes.len(),
{
    if bytes.len() == 0 {
        Seq::empty()
    } else {
        hex(bytes.drop_last()).push(hex_char(bytes.last() as nat / 16)).push(
            hex_char(bytes.last() as nat % 16),
        )
    }
}

/// `part` occurs in `text`.
pub open spec fn contains_text(text: Seq<char>, part: Seq<char>) -> bool {
    exists|i: int| #[trigger] occurs_at(text, part, i)
}

pub open spec fn occurs_at(text: Seq<char>, part: Seq<char>, i: int) -> bool {
    0 <= i && i + part.len() <= text.len() && text.subrange(i, i + part.len()) == part
}

pub open spec fn starts_with(text: Seq<char>, part: Seq<char>) -> bool {
    occurs_at(text, part, 0)
}

/// The position of the first `c`, the length where there is none.
pub open spec fn first_index(s: Seq<char>, c: char) -> int
    decreases s.len(),
{
    if s.len() == 0 || s[0] == c {
        0
    } else {
        1 + first_index(s.skip(1), c)
    }
}

// ---------------------------------------------------------------------------------------------
// Writing
// ---------------------------------------------------------------------------------------------

/// The text of a hexadecimal digit.
fn digit_text(d: u8) -> (r: &'static str)
    requires
        d < 16,
    ensures
        r@ == seq![hex_char(d as nat)],
{
    proof {
        reveal_strlit("0");
        reveal_strlit("1");
        reveal_strlit("2");
        reveal_strlit("3");
        reveal_strlit("4");
        reveal_strlit("5");
        reveal_strlit("6");
        reveal_strlit("7");
        reveal_strlit("8");
        reveal_strlit("9");
        reveal_strlit("a");
        reveal_strlit("b");
        reveal_strlit("c");
        reveal_strlit("d");
        reveal_strlit("e");
        reveal_strlit("f");
    }
    let r: &'static str = match d {
        0 => "0",
        1 => "1",
        2 => "2",
        3 => "3",
        4 => "4",
        5 => "5",
        6 => "6",
        7 => "7",
        8 => "8",
        9 => "9",
        10 => "a",
        11 => "b",
        12 => "c",
        13 => "d",
        14 => "e",
        _ => "f",
    };
    assert(r@ =~= seq![hex_char(d as nat)]);
    r
}

/// Writes a number in decimal digits.
pub fn decimal_text(n: u64) -> (r: String)
    ensures
        r@ == decimal(n as nat),
    decreases n,
{
    if n < 10 {
        let mut r = String::new();
        r.append(digit_text(n as u8));
        assert(r@ =~= decimal(n as nat));
        r
    } else {
        let mut r = decimal_text(n / 10);
        let ghost before = r@;
        r.append(digit_text((n % 10) as u8));
        assert(r@ =~= before.push(digit_char((n % 10) as nat)));
        r
    }
}

/// Writes a signed number in decimal digits.
pub fn signed_decimal_text(n: i32) -> (r: String)
    ensures
        r@ == signed_decimal(n as int),
{
    if n < 0 {
        let magnitude: u64 = (-(n as i64)) as u64;
        let mut r = String::new();
        proof {
            reveal_strlit("-");
        }
        r.append("-");
        r.append(decimal_text(magnitude).as_str());
        assert(r@ =~= seq!['-'] + decimal((-n) as nat));
        r
    } else {
        decimal_text(n as u64)
    }
}

/// Writes bytes in hexadecimal.
pub fn hex_text(bytes: &Vec<u8>) -> (r: String)
    ensures
        r@ == hex(bytes@),
{
    let mut r = String::new();
    let mut i: usize = 0;
    assert(bytes@.take(0) =~= Seq::<u8>::empty());
    while i < bytes.len()
        invariant
            i <= bytes.len(),
            r@ == hex(bytes@.take(i as int)),
        decreases bytes.len() - i,
    {
        let byte: u8 = bytes[i];
        let ghost before = r@;
        r.append(digit_text(byte / 16));
        r.append(digit_text(byte % 16));
        proof {
            let next = bytes@.take(i + 1);
            assert(next.drop_last() =~= bytes@.take(i as int));
            assert(r@ =~= before.push(hex_char(byte as nat / 16)).push(hex_char(byte as nat % 16)));
        }
        i += 1;
    }
    assert(bytes@.take(bytes@.len() as int) =~= bytes@);
    r
}

/// The texts one after the other.
pub fn concat_texts(a: &str, b: &str) -> (r: String)
    ensures
        r@ == a@ + b@,
{
    let mut r = String::new();
    r.append(a);
    r.append(b);
    assert(r@ =~= a@ + b@);
    r
}

// ---------------------------------------------------------------------------------------------
// Reading
// ---------------------------------------------------------------------------------------------

/// The characters of a text.
pub fn chars_of(s: &str) -> (r: Vec<char>)
    ensures
        r@ == s@,
{
    let mut r: Vec<char> = Vec::new();
    for c in iter: s.chars()
        invariant
            iter.seq() == s@,
            r@ == s@.take(iter.index() as int),
    {
        proof {
            assert(s@.take(iter.index() + 1) =~= s@.take(iter.index() as int).push(c));
        }
        r.push(c);
    }
    assert(s@.take(s@.len() as int) =~= s@);
    r
}

/// Whether `part` stands at position `i`.
fn stands_at(text: &Vec<char>, part: &Vec<char>, i: usize) -> (r: bool)
    ensures
        r == occurs_at(text@, part@, i as int),
{
    if i > text.len() || part.len() > text.len() - i {
        return false;
    }
    let mut k: usize = 0;
    while k < part.len()
        invariant
            k <= part.len(),
            i + part.len() <= text.len(),
            forall|j: int| 0 <= j < k ==> text@[i + j] == part@[j],
        decreases part.len() - k,
    {
        if text[i + k] != part[k] {
            assert(text@.subrange(i as int, i + part@.len())[k as int] != part@[k as int]);
            return false;
        }
        k += 1;
    }
    assert(text@.subrange(i as int, i + part@.len()) =~= part@);
    true
}

/// Whether `part` occurs in `text`.
pub fn text_contains(text: &str, part: &str) -> (r: bool)
    ensures
        r == contains_text(text@, part@),
{
    let text_chars = chars_of(text);
    let part_chars = chars_of(part);
    if part_chars.len() > text_chars.len() {
        return false;
    }
    let last: usize = text_chars.len() - part_chars.len();
    let mut i: usize = 0;
    while i < last
        invariant
            last + part_chars.len() == text_chars.len(),
            text_chars@ == text@,
            part_chars@ == part@,
            i <= last,
            forall|k: int| 0 <= k < i ==> !#[trigger] occurs_at(text@, part@, k),
        decreases last - i,
    {
        if stands_at(&text_chars, &part_chars, i) {
            assert(occurs_at(text@, part@, i as int));
            return true;
        }
        i += 1;
    }
    let r: bool = stands_at(&text_chars, &part_chars, last);
    assert(r ==> occurs_at(text@, part@, last as int));
    assert(!r ==> forall|k: int| !#[trigger] occurs_at(text@, part@, k));
    r
}

/// Whether `text` starts with `part`.
pub fn text_starts_with(text: &str, part: &str) -> (r: bool)
    ensures
        r == starts_with(text@, part@),
{
    stands_at(&chars_of(text), &chars_of(part), 0)
}

proof fn lemma_first_index(s: Seq<char>, c: char, i: int)
    requires
        0 <= i <= s.len(),
        forall|k: int| 0 <= k < i ==> s[k] != c,
        i < s.len() ==> s[i] == c,
    ensures
        first_index(s, c) == i,
    decreases s.len(),
{
    if s.len() > 0 && i > 0 {
        let rest = s.skip(1);
        assert forall|k: int| 0 <= k < i - 1 implies rest[k] != c by {
            assert(rest[k] == s[k + 1]);
        }
        lemma_first_index(rest, c, i - 1);
    }
}

/// The position of the first `c` between `start` and `end`.
fn find_char(chars: &Vec<char>, start: usize, end: usize, c: char) -> (r: usize)
    requires
        start <= end <= chars.len(),
    ensures
        start <= r <= end,
        r - start == first_index(chars@.subrange(start as int, end as int), c),
{
    let ghost s = chars@.subrange(start as int, end as int);
    let mut i: usize = start;
    while i < end
        invariant
            start <= i <= end <= chars.len(),
            s == chars@.subrange(start as int, end as int),
            forall|k: int| 0 <= k < i - start ==> s[k] != c,
        decreases end - i,
    {
        if chars[i] == c {
            proof {
                lemma_first_index(s, c, i - start);
            }
            return i;
        }
        assert(s[i - start] == chars@[i as int]);
        i += 1;
    }
    proof {
        lemma_first_index(s, c, i - start);
    }
    end
}

/// Reads digits. A number beyond 32 bits comes out as some number beyond 32 bits.
fn read_number(chars: &Vec<char>, start: usize, end: usize) -> (r: Option<u64>)
    requires
        start <= end <= chars.len(),
    ensures
        match r {
            Some(n) => is_number(chars@.subrange(start as int, end as int)) && if number_value(
                chars@.subrange(start as int, end as int),
            ) <= u32::MAX {
                n == number_value(chars@.subrange(start as int, end as int))
            } else {
                n > u32::MAX
            },
            None => !is_number(chars@.subrange(start as int, end as int)),
        },
{
    let ghost s = chars@.subrange(start as int, end as int);
    if start == end {
        return None;
    }
    let mut n: u64 = 0;
    let mut i: usize = start;
    assert(s.take(0) =~= Seq::<char>::empty());
    while i < end
        invariant
            start <= i <= end <= chars.len(),
            s == chars@.subrange(start as int, end as int),
            forall|k: int| 0 <= k < i - start ==> is_digit(#[trigger] s[k]),
            if number_value(s.take(i - start)) <= u32::MAX {
                n == number_value(s.take(i - start))
            } else {
                n == u32::MAX + 1
            },
        decreases end - i,
    {
        let c: char = chars[i];
        assert(s[i - start] == c);
        if !('0' <= c && c <= '9') {
            assert(!is_digit(s[i - start]));
            return None;
        }
        let d: u32 = c as u32 - '0' as u32;
        let next: u64 = 10 * n + d as u64;
        proof {
            assert(s.take(i + 1 - start).drop_last() =~= s.take(i - start));
        }
        n = if next > u32::MAX as u64 {
            u32::MAX as u64 + 1
        } else {
            next
        };
        i += 1;
    }
    assert(s.take(end - start) =~= s);
    Some(n)
}

/// Reads a number without a sign.
fn read_u32(chars: &Vec<char>, start: usize, end: usize) -> (r: Option<u32>)
    requires
        start <= end <= chars.len(),
    ensures
        r == parsed_u32(chars@.subrange(start as int, end as int)),
{
    let ghost s = chars@.subrange(start as int, end as int);
    let signed: bool = start < end && chars[start] == '+';
    if start < end {
        assert(s[0] == chars@[start as int]);
        assert(s.skip(1) =~= chars@.subrange(start + 1, end as int));
    }
    let from: usize = if signed {
        start + 1
    } else {
        start
    };
    assert(signed ==> !is_digit('+') && !is_digit(s[0]));
    match read_number(chars, from, end) {
        Some(n) => {
            assert(!signed && s.len() > 0 ==> is_digit(s[0]));
            if n <= u32::MAX as u64 {
                Some(n as u32)
            } else {
                None
            }
        },
        None => {
            None
        },
    }
}

/// Reads a number with or without a sign.
fn read_i32(chars: &Vec<char>, start: usize, end: usize) -> (r: Option<i32>)
    requires
        start <= end <= chars.len(),
    ensures
        r == parsed_i32(chars@.subrange(start as int, end as int)),
{
    let ghost s = chars@.subrange(start as int, end as int);
    let plus: bool = start < end && chars[start] == '+';
    let minus: bool = start < end && chars[start] == '-';
    if start < end {
        assert(s[0] == chars@[start as int]);
        assert(s.skip(1) =~= chars@.subrange(start + 1, end as int));
    }
    let from: usize = if plus || minus {
        start + 1
    } else {
        start
    };
    assert(plus || minus ==> !is_digit(s[0]));
    match read_number(chars, from, end) {
        Some(n) => {
            if minus {
                if n <= 0x8000_0000 {
                    Some((-(n as i64)) as i32)
                } else {
                    None
                }
            } else if n <= 0x7fff_ffff {
                Some(n as i32)
            } else {
                None
            }
        },
        None => None,
    }
}

// ---------------------------------------------------------------------------------------------
// Derivation paths
// ---------------------------------------------------------------------------------------------

/// The key origin inside a descriptor: the fingerprint of the account key, the branch and the
/// index.
#[derive(Debug)]
pub struct HdPath {
    pub fingerprint: String,
    pub branch: u32,
    pub index: i32,
}

#[verifier::ext_equal]
pub struct HdPathView {
    pub fingerprint: Seq<char>,
    pub branch: u32,
    pub index: i32,
}

impl View for HdPath {
    type V = HdPathView;

    open spec fn view(&self) -> HdPathView {
        HdPathView { fingerprint: self.fingerprint@, branch: self.branch, index: self.index }
    }
}

/// Three parts divided by slashes, the last two of them numbers.
pub open spec fn path_parts(path: Seq<char>) -> Option<HdPathView> {
    let a = first_index(path, '/');
    let rest = path.subrange(a + 1, path.len() as int);
    let b = first_index(rest, '/');
    let last = rest.subrange(b + 1, rest.len() as int);
    if a < path.len() && b < rest.len() && first_index(last, '/') == last.len() {
        match (parsed_u32(rest.take(b)), parsed_i32(last)) {
            (Some(branch), Some(index)) => Some(
                HdPathView { fingerprint: path.take(a), branch, index },
            ),
            _ => None,
        }
    } else {
        None
    }
}

/// The key origin of a descriptor: the parts between the first `[` and the first `]`.
pub open spec fn hd_path(descriptor: Seq<char>) -> Option<HdPathView> {
    let open = first_index(descriptor, '[');
    let close = first_index(descriptor, ']');
    if open < close < descriptor.len() {
        path_parts(descriptor.subrange(open + 1, close))
    } else {
        None
    }
}

/// The key path below the account.
pub open spec fn key_path(branch: u32, index: i32) -> Seq<char> {
    "m/"@ + decimal(branch as nat) + "/"@ + signed_decimal(index as int)
}

/// Reads the key origin of a descriptor.
pub fn get_hd_path_from_descriptor(descriptor: &str) -> (r: Option<HdPath>)
    ensures
        match r {
            Some(path) => hd_path(descriptor@) == Some(path@),
            None => hd_path(descriptor@) is None,
        },
{
    let chars = chars_of(descriptor);
    let len: usize = chars.len();
    let open: usize = find_char(&chars, 0, len, '[');
    let close: usize = find_char(&chars, 0, len, ']');
    assert(chars@.subrange(0, len as int) =~= descriptor@);
    if !(open < close && close < len) {
        return None;
    }
    let ghost path = descriptor@.subrange(open + 1, close as int);
    let start: usize = open + 1;
    let a: usize = find_char(&chars, start, close, '/');
    if a == close {
        return None;
    }
    let ghost rest = path.subrange(a - start + 1, path.len() as int);
    assert(rest =~= chars@.subrange(a + 1, close as int));
    let b: usize = find_char(&chars, a + 1, close, '/');
    if b == close {
        return None;
    }
    let ghost last = rest.subrange(b - a, rest.len() as int);
    assert(last =~= chars@.subrange(b + 1, close as int));
    let c: usize = find_char(&chars, b + 1, close, '/');
    if c != close {
        return None;
    }
    assert(rest.take(b - a - 1) =~= chars@.subrange(a + 1, b as int));
    match (read_u32(&chars, a + 1, b), read_i32(&chars, b + 1, close)) {
        (Some(branch), Some(index)) => {
            let fingerprint = descriptor.substring_char(start, a).to_owned();
            assert(fingerprint@ =~= path.take(a - start));
            Some(HdPath { fingerprint, branch, index })
        },
        _ => None,
    }
}

/// Writes the key path below the account.
pub fn key_path_text(branch: u32, index: i32) -> (r: String)
    ensures
        r@ == key_path(branch, index),
{
    let mut r = String::new();
    r.append("m/");
    r.append(decimal_text(branch as u64).as_str());
    r.append("/");
    r.append(signed_decimal_text(index).as_str());
    assert(r@ =~= key_path(branch, index));
    r
}

// ---------------------------------------------------------------------------------------------
// Laws
// ---------------------------------------------------------------------------------------------

/// Reading a number that was written gives the number back.
pub proof fn law_write_then_read(n: nat)
    ensures
        is_number(decimal(n)),
        number_value(decimal(n)) == n,
        parsed(decimal(n)) == Some(n as int),
    decreases n,
{
    if n < 10 {
        let s = seq![digit_char(n)];
        assert(s.drop_last() =~= Seq::<char>::empty());
        assert(number_value(s.drop_last()) == 0);
    } else {
        law_write_then_read(n / 10);
        let s = decimal(n);
        assert(s.drop_last() =~= decimal(n / 10));
        assert(s.last() == digit_char(n % 10));
        assert forall|i: int| 0 <= i < s.len() implies is_digit(#[trigger] s[i]) by {
            if i < s.len() - 1 {
                assert(s[i] == decimal(n / 10)[i]);
            }
        }
    }
}

/// The same for a signed number.
pub proof fn law_write_then_read_signed(n: int)
    ensures
        parsed(signed_decimal(n)) == Some(n),
{
    if n < 0 {
        law_write_then_read((-n) as nat);
        let s = signed_decimal(n);
        assert(s[0] == '-');
        assert(s.skip(1) =~= decimal((-n) as nat));
        assert(!is_number(s)) by {
            assert(!is_digit(s[0]));
        }
    } else {
        law_write_then_read(n as nat);
    }
}

/// What a lower-case hexadecimal digit stands for.
pub open spec fn hex_value(c: char) -> int {
    if '0' <= c <= '9' {
        c as u32 - '0' as u32
    } else {
        c as u32 - 'a' as u32 + 10
    }
}

/// Bytes can be read back from their hexadecimal digits: two for each, the higher one first, all of
/// them digits or letters from `a` to `f`.
pub proof fn law_hex_can_be_read_back(bytes: Vec<u8>, r: String, i: int)
    requires
        call_ensures(hex_text, (&bytes,), r),
        0 <= i < bytes@.len(),
    ensures
        r@.len() == 2 * bytes@.len(),
        16 * hex_value(r@[2 * i]) + hex_value(r@[2 * i + 1]) == bytes@[i],
        is_digit(r@[2 * i]) || 'a' <= r@[2 * i] <= 'f',
        is_digit(r@[2 * i + 1]) || 'a' <= r@[2 * i + 1] <= 'f',
{
    lemma_hex(bytes@, i);
}

proof fn lemma_hex_char(d: nat)
    requires
        d < 16,
    ensures
        hex_value(hex_char(d)) == d,
        is_digit(hex_char(d)) || 'a' <= hex_char(d) <= 'f',
{
}

proof fn lemma_hex(bytes: Seq<u8>, i: int)
    requires
        0 <= i < bytes.len(),
    ensures
        hex(bytes).len() == 2 * bytes.len(),
        16 * hex_value(hex(bytes)[2 * i]) + hex_value(hex(bytes)[2 * i + 1]) == bytes[i],
        is_digit(hex(bytes)[2 * i]) || 'a' <= hex(bytes)[2 * i] <= 'f',
        is_digit(hex(bytes)[2 * i + 1]) || 'a' <= hex(bytes)[2 * i + 1] <= 'f',
    decreases bytes.len(),
{
    let less = bytes.drop_last();
    if less.len() > 0 {
        let j = if i < less.len() {
            i
        } else {
            0
        };
        lemma_hex(less, j);
    } else {
        assert(less =~= Seq::<u8>::empty());
        assert(hex(less).len() == 0);
    }
    let byte = bytes.last() as nat;
    lemma_hex_char(byte / 16);
    lemma_hex_char(byte % 16);
    if i < less.len() {
        assert(less[i] == bytes[i]);
        assert(hex(bytes)[2 * i] == hex(less)[2 * i]);
        assert(hex(bytes)[2 * i + 1] == hex(less)[2 * i + 1]);
    }
}

/// A text holds another exactly where it is that text with something before and behind it, and it
/// starts with another exactly where it is that text with something behind it.
pub proof fn law_texts_are_found(
    before: Seq<char>,
    part: &str,
    behind: Seq<char>,
    text: &str,
    holds: bool,
    starts: bool,
)
    requires
        call_ensures(text_contains, (text, part), holds),
        call_ensures(text_starts_with, (text, part), starts),
    ensures
        text@ == before + part@ + behind ==> holds,
        text@ == part@ + behind ==> starts,
        holds ==> exists|i: int| #[trigger]
            splits_at(text@, part@, i) && text@ == text@.take(i) + part@ + text@.skip(
                i + part@.len(),
            ),
        starts ==> text@.len() >= part@.len() && text@.take(part@.len() as int) == part@,
{
    if text@ == before + part@ + behind {
        let i = before.len() as int;
        assert(text@.subrange(i, i + part@.len()) =~= part@);
        assert(occurs_at(text@, part@, i));
    }
    if text@ == part@ + behind {
        assert(text@.subrange(0, part@.len() as int) =~= part@);
    }
    if holds {
        let i = choose|i: int| #[trigger] occurs_at(text@, part@, i);
        assert(splits_at(text@, part@, i));
        assert(text@ =~= text@.take(i) + part@ + text@.skip(i + part@.len())) by {
            assert forall|k: int| i <= k < i + part@.len() implies text@[k] == part@[k - i] by {
                assert(text@.subrange(i, i + part@.len())[k - i] == text@[k]);
            }
        }
    }
    if starts {
        assert(text@.take(part@.len() as int) =~= text@.subrange(0, part@.len() as int));
    }
}

/// There is room for the part at this place of the text.
pub open spec fn splits_at(text: Seq<char>, part: Seq<char>, i: int) -> bool {
    0 <= i && i + part.len() <= text.len()
}

/// The text does not hold the character.
pub open spec fn is_free_of(text: Seq<char>, c: char) -> bool {
    forall|i: int| 0 <= i < text.len() ==> #[trigger] text[i] != c
}

/// A descriptor with a key origin: the fingerprint, the branch and the index between brackets.
pub open spec fn with_origin(
    before: Seq<char>,
    fingerprint: Seq<char>,
    branch: Seq<char>,
    index: Seq<char>,
    behind: Seq<char>,
) -> Seq<char> {
    before + seq!['['] + fingerprint + seq!['/'] + branch + seq!['/'] + index + seq![']'] + behind
}

/// The key origin that was written into a descriptor is read back from it.
pub proof fn law_key_origin_is_read_back(
    descriptor: &str,
    before: Seq<char>,
    fingerprint: Seq<char>,
    branch: u32,
    index: i32,
    behind: Seq<char>,
    r: Option<HdPath>,
)
    requires
        call_ensures(get_hd_path_from_descriptor, (descriptor,), r),
        descriptor@ == with_origin(
            before,
            fingerprint,
            decimal(branch as nat),
            signed_decimal(index as int),
            behind,
        ),
        is_free_of(before, '['),
        is_free_of(before, ']'),
        is_free_of(fingerprint, '/'),
        is_free_of(fingerprint, ']'),
    ensures
        r matches Some(path) && path.fingerprint@ == fingerprint && path.branch == branch
            && path.index == index,
{
    law_write_then_read(branch as nat);
    law_write_then_read_signed(index as int);
    lemma_digits_only(branch as nat);
    lemma_signed_digits_only(index as int);
    lemma_origin(
        descriptor@,
        before,
        fingerprint,
        decimal(branch as nat),
        signed_decimal(index as int),
        behind,
    );
    assert(decimal(branch as nat)[0] != '-');
}

/// A plus before the branch or the index makes no difference.
pub proof fn law_plus_signs_make_no_difference(
    descriptor: &str,
    before: Seq<char>,
    fingerprint: Seq<char>,
    branch: u32,
    index: i32,
    behind: Seq<char>,
    r: Option<HdPath>,
)
    requires
        call_ensures(get_hd_path_from_descriptor, (descriptor,), r),
        index >= 0,
        descriptor@ == with_origin(
            before,
            fingerprint,
            seq!['+'] + decimal(branch as nat),
            seq!['+'] + decimal(index as nat),
            behind,
        ),
        is_free_of(before, '['),
        is_free_of(before, ']'),
        is_free_of(fingerprint, '/'),
        is_free_of(fingerprint, ']'),
    ensures
        r matches Some(path) && path.fingerprint@ == fingerprint && path.branch == branch
            && path.index == index,
{
    let (s, t) = (decimal(branch as nat), decimal(index as nat));
    let (p, q) = (seq!['+'] + s, seq!['+'] + t);
    law_signs_are_read(branch as nat, s, 0);
    law_signs_are_read(index as nat, t, 0);
    lemma_digits_only(branch as nat);
    lemma_digits_only(index as nat);
    assert forall|i: int| 0 <= i < p.len() implies #[trigger] p[i] != '/' && p[i] != ']' by {
        if i > 0 {
            assert(p[i] == s[i - 1]);
        }
    }
    assert forall|i: int| 0 <= i < q.len() implies #[trigger] q[i] != '/' && q[i] != ']' by {
        if i > 0 {
            assert(q[i] == t[i - 1]);
        }
    }
    lemma_origin(descriptor@, before, fingerprint, p, q, behind);
}

/// The three parts of a key origin are read as they stand.
proof fn lemma_origin(
    d: Seq<char>,
    before: Seq<char>,
    fingerprint: Seq<char>,
    s: Seq<char>,
    t: Seq<char>,
    behind: Seq<char>,
)
    requires
        d == with_origin(before, fingerprint, s, t, behind),
        is_free_of(before, '['),
        is_free_of(before, ']'),
        is_free_of(fingerprint, '/'),
        is_free_of(fingerprint, ']'),
        is_free_of(s, '/'),
        is_free_of(s, ']'),
        is_free_of(t, '/'),
        is_free_of(t, ']'),
    ensures
        parsed_u32(s) is Some && parsed_i32(t) is Some ==> hd_path(d) == Some(
            HdPathView { fingerprint, branch: parsed_u32(s)->0, index: parsed_i32(t)->0 },
        ),
{
    let open = before.len() as int;
    let inner = fingerprint + seq!['/'] + s + seq!['/'] + t;
    let close = open + 1 + inner.len();
    lemma_first_index(d, '[', open);
    assert forall|k: int| 0 <= k < close implies d[k] != ']' by {
        if k < open {
            assert(d[k] == before[k]);
        } else if k > open {
            assert(d[k] == inner[k - open - 1]);
            let j = k - open - 1;
            let (a, b) = (fingerprint.len() as int, fingerprint.len() + 1 + s.len());
            if j < a {
                assert(inner[j] == fingerprint[j]);
            } else if a < j < b {
                assert(inner[j] == s[j - a - 1]);
            } else if j > b {
                assert(inner[j] == t[j - b - 1]);
            }
        }
    }
    lemma_first_index(d, ']', close);
    assert(d.subrange(open + 1, close) =~= inner);
    let a = fingerprint.len() as int;
    assert forall|k: int| 0 <= k < a implies inner[k] != '/' by {
        assert(inner[k] == fingerprint[k]);
    }
    lemma_first_index(inner, '/', a);
    let rest = inner.subrange(a + 1, inner.len() as int);
    assert(rest =~= s + seq!['/'] + t);
    assert forall|k: int| 0 <= k < s.len() implies rest[k] != '/' by {
        assert(rest[k] == s[k]);
    }
    lemma_first_index(rest, '/', s.len() as int);
    let last = rest.subrange(s.len() as int + 1, rest.len() as int);
    assert(last =~= t);
    lemma_first_index(last, '/', t.len() as int);
    assert(rest.take(s.len() as int) =~= s);
    assert(inner.take(a) =~= fingerprint);
}

proof fn lemma_digits_only(n: nat)
    ensures
        is_free_of(decimal(n), '/'),
        is_free_of(decimal(n), ']'),
        is_free_of(decimal(n), '-'),
        decimal(n).len() > 0,
{
    law_write_then_read(n);
    let s = decimal(n);
    assert forall|i: int| 0 <= i < s.len() implies #[trigger] s[i] != '/' && s[i] != ']' && s[i]
        != '-' by {
        assert(is_digit(s[i]));
    }
}

proof fn lemma_signed_digits_only(n: int)
    ensures
        is_free_of(signed_decimal(n), '/'),
        is_free_of(signed_decimal(n), ']'),
{
    if n < 0 {
        lemma_digits_only((-n) as nat);
        let (s, t) = (decimal((-n) as nat), signed_decimal(n));
        assert forall|i: int| 0 <= i < t.len() implies #[trigger] t[i] != '/' && t[i] != ']' by {
            if i > 0 {
                assert(t[i] == s[i - 1]);
            }
        }
    } else {
        lemma_digits_only(n as nat);
    }
}

/// What is read as a key origin stands in the descriptor: between the first opening and the first
/// closing bracket, in three parts.
pub proof fn law_key_origin_stands_in_the_text(descriptor: &str, r: HdPath)
    requires
        call_ensures(get_hd_path_from_descriptor, (descriptor,), Some(r)),
    ensures
        exists|before: Seq<char>, branch: Seq<char>, index: Seq<char>, behind: Seq<char>|
            descriptor@ == #[trigger] with_origin(before, r.fingerprint@, branch, index, behind)
                && parsed(branch) == Some(r.branch as int) && parsed(index) == Some(r.index as int)
                && is_free_of(before, '[') && is_free_of(r.fingerprint@, '/') && is_free_of(
                branch,
                '/',
            ) && is_free_of(index, '/'),
{
    let d = descriptor@;
    let (open, close) = (first_index(d, '['), first_index(d, ']'));
    lemma_before_first_index(d, '[');
    lemma_before_first_index(d, ']');
    let inner = d.subrange(open + 1, close);
    let a = first_index(inner, '/');
    lemma_before_first_index(inner, '/');
    let rest = inner.subrange(a + 1, inner.len() as int);
    let b = first_index(rest, '/');
    lemma_before_first_index(rest, '/');
    let last = rest.subrange(b + 1, rest.len() as int);
    lemma_before_first_index(last, '/');
    let (before, branch, behind) = (d.take(open), rest.take(b), d.skip(close + 1));
    assert(r.fingerprint@ == inner.take(a));
    assert(rest =~= branch + seq!['/'] + last);
    assert(inner =~= inner.take(a) + seq!['/'] + rest);
    assert(d =~= with_origin(before, r.fingerprint@, branch, last, behind)) by {
        assert(d =~= before + seq!['['] + inner + seq![']'] + behind);
    }
}

proof fn lemma_before_first_index(s: Seq<char>, c: char)
    ensures
        0 <= first_index(s, c) <= s.len(),
        forall|i: int| 0 <= i < first_index(s, c) ==> #[trigger] s[i] != c,
        first_index(s, c) < s.len() ==> s[first_index(s, c)] == c,
    decreases s.len(),
{
    if s.len() > 0 && s[0] != c {
        let rest = s.skip(1);
        lemma_before_first_index(rest, c);
        assert forall|i: int| 0 <= i < first_index(s, c) implies #[trigger] s[i] != c by {
            if i > 0 {
                assert(s[i] == rest[i - 1]);
            }
        }
    }
}

/// A sign before a number is read with it, and only digits behind the sign make a number.
pub proof fn law_signs_are_read(n: nat, text: Seq<char>, i: int)
    ensures
        parsed(seq!['+'] + decimal(n)) == Some(n as int),
        parsed(seq!['-'] + decimal(n)) == Some(-(n as int)),
        parsed(Seq::empty()) is None,
        1 <= i < text.len() && !is_digit(text[i]) ==> parsed(text) is None,
        text.len() > 0 && !is_digit(text[0]) && text[0] != '+' && text[0] != '-' ==> parsed(
            text,
        ) is None,
{
    law_write_then_read(n);
    let (plus, minus) = (seq!['+'] + decimal(n), seq!['-'] + decimal(n));
    assert(plus.skip(1) =~= decimal(n) && minus.skip(1) =~= decimal(n));
    assert(!is_number(plus)) by {
        assert(!is_digit(plus[0]));
    }
    assert(!is_number(minus)) by {
        assert(!is_digit(minus[0]));
    }
    if 1 <= i < text.len() && !is_digit(text[i]) {
        assert(text.skip(1)[i - 1] == text[i]);
    }
}

/// A number is written without needless zeros, and different numbers are written differently.
pub proof fn law_numbers_are_written_in_one_way(n: u64, m: u64, r: String, s: String)
    requires
        call_ensures(decimal_text, (n,), r),
        call_ensures(decimal_text, (m,), s),
    ensures
        r@.len() > 1 ==> r@[0] != '0',
        r@ == s@ <==> n == m,
{
    lemma_no_leading_zero(n as nat);
    law_write_then_read(n as nat);
    law_write_then_read(m as nat);
}

proof fn lemma_no_leading_zero(n: nat)
    ensures
        decimal(n).len() > 0,
        n > 0 ==> decimal(n)[0] != '0',
        n < 10 ==> decimal(n).len() == 1,
    decreases n,
{
    if n >= 10 {
        lemma_no_leading_zero(n / 10);
    }
}

/// A path of two steps below the account.
pub open spec fn below_account(a: Seq<char>, b: Seq<char>) -> Seq<char> {
    seq!['m', '/'] + a + seq!['/'] + b
}

/// A key path is written with the branch and the index, each of which can be read back.
pub proof fn law_key_path_can_be_read_back(branch: u32, index: i32, r: String)
    requires
        call_ensures(key_path_text, (branch, index), r),
    ensures
        exists|a: Seq<char>, b: Seq<char>|
            r@ == #[trigger] below_account(a, b) && parsed(a) == Some(branch as int) && parsed(b)
                == Some(index as int) && is_free_of(a, '/') && is_free_of(b, '/'),
{
    reveal_strlit("m/");
    reveal_strlit("/");
    let (a, b) = (decimal(branch as nat), signed_decimal(index as int));
    law_write_then_read(branch as nat);
    law_write_then_read_signed(index as int);
    lemma_digits_only(branch as nat);
    lemma_signed_digits_only(index as int);
    assert("m/"@ =~= seq!['m', '/']);
    assert("/"@ =~= seq!['/']);
    assert(r@ =~= below_account(a, b));
}

} // verus!
