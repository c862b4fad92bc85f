//! Text helpers: decimal rendering of port numbers and splitting of command
//! lines.

use crate::validator::{
    all_digits, decimal_value, digit_value, is_digit, parses_as_u16, u16_value, unsigned_digits,
};
use vstd::prelude::*;
use vstd::string::StringExecFns;
use vstd::string::StrSliceExecFns;

verus! {

/// Whether the character is white space: one of the 25 characters with the
/// Unicode property `White_Space`. These are the control characters from
/// U+0009 to U+000D and U+0085, the space, the no-break space, the ogham
/// space mark, the spaces from U+2000 to U+200A, the line and the paragraph
/// separator, the narrow no-break space, the medium mathematical space and
/// the ideographic space.
pub open spec fn char_is_whitespace(c: char) -> bool {
    let n = c as u32;
    ||| 0x9 <= n <= 0xd
    ||| n == 0x20
    ||| n == 0x85
    ||| n == 0xa0
    ||| n == 0x1680
    ||| 0x2000 <= n <= 0x200a
    ||| n == 0x2028
    ||| n == 0x2029
    ||| n == 0x202f
    ||| n == 0x205f
    ||| n == 0x3000
}

/// Whether the character is white space.
pub fn is_whitespace(c: char) -> (b: bool)
    ensures
        b == char_is_whitespace(c),
{
    let n: u32 = c as u32;
    (0x9 <= n && n <= 0xd) || n == 0x20 || n == 0x85 || n == 0xa0 || n == 0x1680 || (0x2000 <= n
        && n <= 0x200a) || n == 0x2028 || n == 0x2029 || n == 0x202f || n == 0x205f || n == 0x3000
}

/// The character of a decimal digit.
pub open spec fn digit_char(d: nat) -> char
    recommends
        d < 10,
{
    if d == 0 {
        '0'
    } else if d == 1 {
        '1'
    } else if d == 2 {
        '2'
    } else if d == 3 {
        '3'
    } else if d == 4 {
        '4'
    } else if d == 5 {
        '5'
    } else if d == 6 {
        '6'
    } else if d == 7 {
        '7'
    } else if d == 8 {
        '8'
    } else {
        '9'
    }
}

/// The decimal numeral of a number, without leading zeros.
pub open spec fn decimal(n: nat) -> Seq<char>
    decreases n,
{
    if n < 10 {
        seq![digit_char(n)]
    } else {
        decimal(n / 10).push(digit_char(n % 10))
    }
}

/// The numeral of a number is made of digits and denotes that number.
pub proof fn lemma_decimal_round_trip(n: nat)
    ensures
        decimal(n).len() > 0,
        all_digits(decimal(n)),
        decimal_value(decimal(n)) == n,
        decimal(n)[0] != '+',
    decreases n,
{
    if n < 10 {
        let s = decimal(n);
        assert(s.drop_last() =~= Seq::<char>::empty());
        assert(decimal_value(s.drop_last()) == 0);
        assert(s.last() == digit_char(n));
    } else {
        lemma_decimal_round_trip(n / 10);
        let s = decimal(n);
        let init = decimal(n / 10);
        assert(s.drop_last() =~= init);
        assert(s.last() == digit_char(n % 10));
        assert(s[0] == init[0]);
        assert forall|i: int| 0 <= i < s.len() implies is_digit(#[trigger] s[i]) by {
            if i < init.len() {
                assert(s[i] == init[i]);
            }
        }
    }
}

/// The numeral of a port number is read back as that port number.
pub proof fn lemma_port_round_trip(port: u16)
    ensures
        parses_as_u16(decimal(port as nat)),
        u16_value(decimal(port as nat)) == port,
{
    lemma_decimal_round_trip(port as nat);
    assert(unsigned_digits(decimal(port as nat)) == decimal(port as nat));
}

/// The text of one decimal digit.
fn digit_str(d: u16) -> (s: &'static str)
    requires
        d < 10,
    ensures
        s@ == seq![digit_char(d as nat)],
{
    proof {
        reveal_strlit("0");
        reveal_strlit("1");
        reveal_strlit("2");
        reveal_strlit("3");
        reveal_strlit("4");
        reveal_strlit("5");
        reveal_strlit("6");
        reveal_strlit("7");
        reveal_strlit("8");
        reveal_strlit("9");
    }
    let s = if d == 0 {
        "0"
    } else if d == 1 {
        "1"
    } else if d == 2 {
        "2"
    } else if d == 3 {
        "3"
    } else if d == 4 {
        "4"
    } else if d == 5 {
        "5"
    } else if d == 6 {
        "6"
    } else if d == 7 {
        "7"
    } else if d == 8 {
        "8"
    } else {
        "9"
    };
    assert(s@ =~= seq![digit_char(d as nat)]);
    s
}

/// Appends the decimal numeral of `n` to `out`.
pub fn push_decimal(out: &mut String, n: u16)
    ensures
        final(out)@ == old(out)@ + decimal(n as nat),
    decreases n,
{
    if n >= 10 {
        push_decimal(out, n / 10);
        let ghost mid = out@;
        out.append(digit_str(n % 10));
        proof {
            let d = digit_char((n % 10) as nat);
            assert(mid + seq![d] =~= old(out)@ + decimal((n / 10) as nat).push(d));
        }
    } else {
        out.append(digit_str(n));
    }
}

/// `host`, a colon and the decimal numeral of `port`.
pub open spec fn host_port(host: Seq<char>, port: u16) -> Seq<char> {
    host + seq![':'] + decimal(port as nat)
}

/// The address `host:port` as text.
pub fn join_host_port(host: &str, port: u16) -> (address: String)
    ensures
        address@ == host_port(host@, port),
{
    proof {
        reveal_strlit(":");
    }
    let mut address = String::from_str(host);
    address.append(":");
    assert(address@ =~= host@ + seq![':']);
    push_decimal(&mut address, port);
    address
}

/// The pieces of `text` between its white space characters, in order. Each
/// white space character ends a piece, so two of them in a row, or one at
/// either end, give an empty piece; a text without white space is one piece.
pub open spec fn split_whitespace(text: Seq<char>) -> Seq<Seq<char>>
    decreases text.len(),
{
    if text.len() == 0 {
        seq![Seq::<char>::empty()]
    } else {
        let before = split_whitespace(text.drop_last());
        if char_is_whitespace(text.last()) {
            before.push(Seq::<char>::empty())
        } else {
            before.drop_last().push(before.last().push(text.last()))
        }
    }
}

/// The views of a sequence of strings.
pub open spec fn strings_view(strings: Seq<String>) -> Seq<Seq<char>> {
    strings.map_values(|s: String| s@)
}

/// Splits a line at every white space character.
pub fn split_line(line: &str) -> (pieces: Vec<String>)
    ensures
        strings_view(pieces@) == split_whitespace(line@),
{
    let ghost all = line@;
    let mut pieces: Vec<String> = Vec::new();
    let length: usize = line.unicode_len();
    let mut start: usize = 0;
    let mut at: usize = 0;
    proof {
        assert(all.take(0) =~= Seq::<char>::empty());
        assert(all.subrange(0, 0) =~= Seq::<char>::empty());
        assert(strings_view(pieces@).push(all.subrange(0, 0)) =~= seq![Seq::<char>::empty()]);
    }
    for c in it: line.chars()
        invariant
            it.seq() == all,
            all == line@,
            at == it.index(),
            length == all.len(),
            start <= at <= all.len(),
            split_whitespace(all.take(at as int)) == strings_view(pieces@).push(
                all.subrange(start as int, at as int),
            ),
    {
        let ghost done = strings_view(pieces@);
        let ghost piece = all.subrange(start as int, at as int);
        proof {
            assert(all.take(at + 1).drop_last() =~= all.take(at as int));
            assert(all.take(at + 1).last() == c);
            assert(done.push(piece).drop_last() =~= done);
            assert(done.push(piece).last() == piece);
        }
        if is_whitespace(c) {
            let ghost old_pieces = pieces@;
            let text = line.substring_char(start, at);
            pieces.push(String::from_str(text));
            start = at + 1;
            proof {
                assert(strings_view(pieces@) =~= strings_view(old_pieces).push(piece));
                assert(all.subrange(at + 1, at + 1) =~= Seq::<char>::empty());
            }
        } else {
            proof {
                assert(piece.push(c) =~= all.subrange(start as int, at + 1));
            }
        }
        at = at + 1;
    }
    proof {
        assert(all.take(all.len() as int) =~= all);
    }
    let ghost old_pieces = pieces@;
    let text = line.substring_char(start, at);
    pieces.push(String::from_str(text));
    proof {
        assert(strings_view(pieces@) =~= strings_view(old_pieces).push(
            all.subrange(start as int, at as int),
        ));
    }
    pieces
}

/// Whether two texts are the same.
pub fn same_text(a: &str, b: &str) -> (same: bool)
    ensures
        same == (a@ == b@),
{
    let left = String::from_str(a);
    let right = String::from_str(b);
    left == right
}

/// `a`, then `b`.
pub fn join(a: &str, b: &str) -> (joined: String)
    ensures
        joined@ == a@ + b@,
{
    let mut joined = String::from_str(a);
    joined.append(b);
    joined
}

} // verus!
