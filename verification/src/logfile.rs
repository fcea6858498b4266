//! Where and how received packets are logged: one directory per day, one
//! file per packet id (the packet's first byte), one line per packet.

use vstd::prelude::*;

verus! {

/// Lower-case hexadecimal digits; the first ten are the decimal digits.
pub const HEX_DIGITS: [char; 16] = [
    '0', '1', '2', '3', '4', '5', '6', '7', '8', '9', 'a', 'b', 'c', 'd', 'e', 'f',
];

/// Appends one character (`String::push`).
#[verifier::external_body]
fn push_char(s: &mut String, c: char)
    ensures
        final(s)@ == old(s)@.push(c),
{
    s.push(c);
}

/// Appends a string slice (`String::push_str`).
#[verifier::external_body]
fn push_str(s: &mut String, t: &str)
    ensures
        final(s)@ == old(s)@ + t@,
{
    s.push_str(t);
}

/// The decimal digits of `n`, most significant first, without leading zeros.
pub open spec fn decimal(n: nat) -> Seq<char>
    decreases n,
{
    if n < 10 {
        seq![HEX_DIGITS@[n as int]]
    } else {
        decimal(n / 10).push(HEX_DIGITS@[(n % 10) as int])
    }
}

/// `n` written in decimal, with a leading `-` when negative.
pub open spec fn signed_decimal(n: int) -> Seq<char> {
    if n < 0 {
        seq!['-'] + decimal((-n) as nat)
    } else {
        decimal(n as nat)
    }
}

/// `n` as four lower-case hexadecimal digits.
pub open spec fn hex4(n: u8) -> Seq<char> {
    seq!['0', '0', HEX_DIGITS@[(n / 16) as int], HEX_DIGITS@[(n % 16) as int]]
}

/// The bytes of `bytes` in decimal, separated by `", "`.
pub open spec fn joined_decimals(bytes: Seq<u8>) -> Seq<char>
    decreases bytes.len(),
{
    if bytes.len() == 0 {
        Seq::empty()
    } else if bytes.len() == 1 {
        decimal(bytes[0] as nat)
    } else {
        joined_decimals(bytes.drop_last()) + seq![',', ' '] + decimal(bytes.last() as nat)
    }
}

/// The value of a lower-case hexadecimal digit.
pub open spec fn hex_value(c: char) -> int {
    if '0' <= c <= '9' {
        c as int - '0' as int
    } else {
        c as int - 'a' as int + 10
    }
}

/// The digits table holds each digit at the index of its value.
proof fn lemma_hex_digit(d: int)
    requires
        0 <= d < 16,
    ensures
        '0' <= HEX_DIGITS@[d] <= '9' || 'a' <= HEX_DIGITS@[d] <= 'f',
        hex_value(HEX_DIGITS@[d]) == d,
        d < 10 ==> HEX_DIGITS@[d] as int == '0' as int + d,
{
    assert(HEX_DIGITS@ =~= seq![
        '0', '1', '2', '3', '4', '5', '6', '7', '8', '9', 'a', 'b', 'c', 'd', 'e', 'f',
    ]);
}

/// Law: `hex4(n)` writes `n` in base 16 with four digits: two leading zeros,
/// then the digit of `n / 16` and the digit of `n % 16`. Distinct ids thus get
/// distinct file names.
pub proof fn lemma_hex4_value(n: u8)
    ensures
        hex4(n).len() == 4,
        hex4(n)[0] == '0',
        hex4(n)[1] == '0',
        hex_value(hex4(n)[2]) * 16 + hex_value(hex4(n)[3]) == n,
        0 <= hex_value(hex4(n)[2]) < 16,
        0 <= hex_value(hex4(n)[3]) < 16,
{
    lemma_hex_digit((n / 16) as int);
    lemma_hex_digit((n % 16) as int);
}

/// Law: distinct ids are logged into distinct files.
pub proof fn lemma_hex4_injective(a: u8, b: u8)
    ensures
        hex4(a) == hex4(b) ==> a == b,
{
    lemma_hex4_value(a);
    lemma_hex4_value(b);
}

/// Law: `decimal(n)` writes `n` in base 10: its digits are decimal digits
/// whose positional value is `n`, with no leading zero.
pub proof fn lemma_decimal_value(n: nat)
    ensures
        decimal(n).len() >= 1,
        decimal_value(decimal(n)) == n,
        decimal(n).len() > 1 ==> decimal(n)[0] != '0',
        forall|i: int| 0 <= i < decimal(n).len() ==> '0' <= #[trigger] decimal(n)[i] <= '9',
    decreases n,
{
    if n < 10 {
        lemma_hex_digit(n as int);
        assert(decimal_value(decimal(n).drop_last()) == 0);
    } else {
        lemma_decimal_value(n / 10);
        lemma_hex_digit((n % 10) as int);
        let d = decimal(n);
        assert(d.drop_last() =~= decimal(n / 10));
        assert forall|i: int| 0 <= i < d.len() implies '0' <= #[trigger] d[i] <= '9' by {
            if i < d.len() - 1 {
                assert(d[i] == decimal(n / 10)[i]);
            }
        }
        if decimal(n / 10).len() == 1 {
            assert(decimal(n / 10)[0] != '0') by {
                if n / 10 >= 10 {
                    lemma_decimal_value(n / 100);
                    assert(decimal(n / 10).len() == decimal((n / 10) / 10).len() + 1);
                } else {
                    lemma_hex_digit((n / 10) as int);
                }
            }
        }
        assert(d[0] == decimal(n / 10)[0]);
    }
}

/// The number that the decimal digits `s` denote.
pub open spec fn decimal_value(s: Seq<char>) -> int
    decreases s.len(),
{
    if s.len() == 0 {
        0
    } else {
        decimal_value(s.drop_last()) * 10 + (s.last() as int - '0' as int)
    }
}

/// Law: the bracketed list names every byte, in order, separated by `", "`:
/// the list of no bytes is empty, that of one byte is its decimal, and adding
/// a byte to a non-empty packet adds `", "` and its decimal.
pub proof fn lemma_joined_decimals(p: Seq<u8>, b: u8)
    ensures
        joined_decimals(Seq::<u8>::empty()) == Seq::<char>::empty(),
        joined_decimals(seq![b]) == decimal(b as nat),
        p.len() > 0 ==> joined_decimals(p.push(b)) == joined_decimals(p) + seq![',', ' ']
            + decimal(b as nat),
{
    assert(p.push(b).drop_last() =~= p);
}

fn push_decimal(s: &mut String, n: u64)
    ensures
        final(s)@ == old(s)@ + decimal(n as nat),
    decreases n,
{
    if n >= 10 {
        push_decimal(s, n / 10);
    }
    push_char(s, HEX_DIGITS[(n % 10) as usize]);
    assert(final(s)@ =~= old(s)@ + decimal(n as nat)) by {
        if n >= 10 {
            assert(decimal(n as nat) == decimal((n / 10) as nat).push(HEX_DIGITS@[(n % 10) as int]));
        }
    }
}

/// The directory that holds the logs of the day `day` (as `mmdd`).
pub fn log_dir(day: &str) -> (dir: String)
    ensures
        dir@ == "log/"@ + day@,
{
    let mut s = String::new();
    push_str(&mut s, "log/");
    push_str(&mut s, day);
    s
}

/// The file that logs the packets whose id, their first byte, is `packet[0]`.
pub fn log_file_name(day: &str, packet: &[u8]) -> (name: String)
    requires
        packet@.len() > 0,
    ensures
        name@ == "log/"@ + day@ + "/id"@ + hex4(packet@[0]) + ".txt"@,
{
    let id = packet[0];
    let mut s = log_dir(day);
    push_str(&mut s, "/id");
    push_char(&mut s, '0');
    push_char(&mut s, '0');
    push_char(&mut s, HEX_DIGITS[(id / 16) as usize]);
    push_char(&mut s, HEX_DIGITS[(id % 16) as usize]);
    push_str(&mut s, ".txt");
    assert(s@ =~= "log/"@ + day@ + "/id"@ + hex4(packet@[0]) + ".txt"@);
    s
}

/// The log line of `packet` received at `timestamp` (milliseconds):
/// the timestamp, a colon, the bytes in brackets, and a line break.
pub fn log_line(timestamp: i64, packet: &[u8]) -> (line: String)
    ensures
        line@ == signed_decimal(timestamp as int) + seq![':', '['] + joined_decimals(packet@)
            + seq![']', '\n'],
{
    let mut s = String::new();
    if timestamp < 0 {
        push_char(&mut s, '-');
        let magnitude: u64 = (0i128 - timestamp as i128) as u64;
        push_decimal(&mut s, magnitude);
    } else {
        push_decimal(&mut s, timestamp as u64);
    }
    push_char(&mut s, ':');
    push_char(&mut s, '[');
    let ghost head = s@;
    let len = packet.len();
    let mut i: usize = 0;
    while i < len
        invariant
            i <= len,
            len == packet@.len(),
            s@ == head + joined_decimals(packet@.take(i as int)),
        decreases len - i,
    {
        let ghost before = s@;
        if i > 0 {
            push_char(&mut s, ',');
            push_char(&mut s, ' ');
        }
        push_decimal(&mut s, packet[i] as u64);
        assert(packet@.take(i + 1 as int).drop_last() =~= packet@.take(i as int));
        assert(s@ =~= head + joined_decimals(packet@.take(i + 1 as int)));
        i = i + 1;
    }
    assert(packet@.take(len as int) =~= packet@);
    push_char(&mut s, ']');
    push_char(&mut s, '\n');
    assert(s@ =~= signed_decimal(timestamp as int) + seq![':', '['] + joined_decimals(packet@)
        + seq![']', '\n']);
    s
}

} // verus!
