//! What can be read back from the text and the encoding of a value.
use crate::primitives::{be_value, bytes_lt, differs_below, H256, U256};
use crate::rlp_codec::{be_bytes, be_bytes_value, joined, rlp_list, rlp_number, rlp_string};
use crate::text::{decimal, hash_text, hex_chars, hex_digit};
use vstd::prelude::*;

verus! {

/// The value of a lowercase hexadecimal digit.
pub open spec fn digit_value(c: char) -> int {
    if '0' <= c && c <= '9' {
        c as int - '0' as int
    } else if 'a' <= c && c <= 'f' {
        c as int - 'a' as int + 10
    } else {
        -1
    }
}

/// A digit of hexadecimal text has the value it is the digit of.
pub proof fn digits_have_their_value(n: int)
    requires
        0 <= n < 16,
    ensures
        digit_value(hex_digit(n)) == n,
{
}

/// Hexadecimal text has two digits for each byte, and the bytes can be read back from it.
pub proof fn hexadecimal_text_is_read_back(bytes: Seq<u8>, i: int)
    requires
        0 <= i < bytes.len(),
    ensures
        hex_chars(bytes).len() == 2 * bytes.len(),
        16 * digit_value(hex_chars(bytes)[2 * i]) + digit_value(hex_chars(bytes)[2 * i + 1])
            == bytes[i],
{
    let b = bytes[i] as int;
    assert((2 * i) / 2 == i && (2 * i) % 2 == 0);
    assert((2 * i + 1) / 2 == i && (2 * i + 1) % 2 == 1);
    digits_have_their_value(b / 16);
    digits_have_their_value(b % 16);
}

/// The text of a hash is `0x` and 64 digits, from which its bytes can be read back.
pub proof fn hash_text_is_read_back(h: H256, i: int)
    requires
        0 <= i < 32,
    ensures
        hash_text(h).len() == 66,
        hash_text(h)[0] == '0',
        hash_text(h)[1] == 'x',
        16 * digit_value(hash_text(h)[2 + 2 * i]) + digit_value(hash_text(h)[2 + 2 * i + 1])
            == h.0@[i],
{
    hexadecimal_text_is_read_back(h.0@, i);
    let t = hash_text(h);
    assert(t[2 + 2 * i] == hex_chars(h.0@)[2 * i]);
    assert(t[2 + 2 * i + 1] == hex_chars(h.0@)[2 * i + 1]);
}

/// The number that decimal digits stand for.
pub open spec fn decimal_value(digits: Seq<char>) -> int
    decreases digits.len(),
{
    if digits.len() == 0 {
        0
    } else {
        10 * decimal_value(digits.drop_last()) + digit_value(digits.last())
    }
}

/// Decimal text stands for its number, has digits below ten only, and no zero in front unless the
/// number is zero.
pub proof fn decimal_text_is_read_back(n: nat)
    ensures
        decimal_value(decimal(n)) == n,
        decimal(n).len() > 0,
        forall|i: int| 0 <= i < decimal(n).len() ==> '0' <= #[trigger] decimal(n)[i] <= '9',
        n > 0 ==> decimal(n)[0] != '0',
        n == 0 ==> decimal(n).len() == 1,
    decreases n,
{
    let t = decimal(n);
    digits_have_their_value((n % 10) as int);
    if n < 10 {
        assert(t.drop_last() =~= seq![]);
        assert(decimal_value(t.drop_last()) == 0);
    } else {
        decimal_text_is_read_back(n / 10);
        assert(t.drop_last() =~= decimal(n / 10));
        assert(t[0] == decimal(n / 10)[0]);
        assert forall|i: int| 0 <= i < t.len() implies '0' <= #[trigger] t[i] <= '9' by {
            if i < t.len() - 1 {
                assert(t[i] == decimal(n / 10)[i]);
            }
        }
    }
}

/// One byte more makes a number 256 times as large and adds the byte; a front of zeros adds nothing.
pub proof fn number_grows_by_its_last_byte(bytes: Seq<u8>, b: u8)
    ensures
        be_value(seq![]) == 0,
        be_value(bytes.push(b)) == 256 * be_value(bytes) + b,
        be_value(seq![0u8] + bytes) == be_value(bytes),
    decreases bytes.len(),
{
    assert(bytes.push(b).drop_last() =~= bytes);
    let z = seq![0u8] + bytes;
    if bytes.len() == 0 {
        assert(z.drop_last() =~= seq![]);
        assert(be_value(z.drop_last()) == 0);
    } else {
        number_grows_by_its_last_byte(bytes.drop_last(), b);
        assert(z.drop_last() =~= seq![0u8] + bytes.drop_last());
    }
}

/// Byte strings of one length come in the order of the numbers they stand for; of two that differ
/// exactly one comes before the other.
pub proof fn bytes_come_in_the_order_of_their_numbers(a: Seq<u8>, b: Seq<u8>)
    requires
        a.len() == b.len(),
    ensures
        bytes_lt(a, b) == (be_value(a) < be_value(b)),
        bytes_lt(b, a) == (be_value(b) < be_value(a)),
        (a == b) == (be_value(a) == be_value(b)),
    decreases a.len(),
{
    if a.len() == 0 {
        assert(a =~= b);
    } else {
        let c = a.drop_last();
        let d = b.drop_last();
        let n = c.len() as int;
        bytes_come_in_the_order_of_their_numbers(c, d);
        one_more_byte_decides_last(a, b);
        one_more_byte_decides_last(b, a);
        assert(a =~= c.push(a[n]));
        assert(b =~= d.push(b[n]));
    }
}

/// The last byte decides only if all before it are equal.
proof fn one_more_byte_decides_last(a: Seq<u8>, b: Seq<u8>)
    requires
        a.len() == b.len(),
        a.len() > 0,
    ensures
        bytes_lt(a, b) == (bytes_lt(a.drop_last(), b.drop_last()) || (a.drop_last()
            == b.drop_last() && a.last() < b.last())),
{
    let c = a.drop_last();
    let d = b.drop_last();
    let n = c.len() as int;
    if bytes_lt(a, b) {
        let i = choose|i: int| 0 <= i < a.len() && i < b.len() && differs_below(a, b, i);
        if i < n {
            assert(differs_below(c, d, i));
        } else {
            assert(c =~= d);
        }
    }
    if bytes_lt(c, d) {
        let i = choose|i: int| 0 <= i < c.len() && i < d.len() && differs_below(c, d, i);
        assert(a[i] == c[i] && b[i] == d[i]);
        assert forall|j: int| 0 <= j < i implies a[j] == b[j] by {
            assert(c[j] == d[j]);
        }
        assert(differs_below(a, b, i));
    }
    if c == d && a.last() < b.last() {
        assert forall|j: int| 0 <= j < n implies a[j] == b[j] by {
            assert(c[j] == d[j]);
        }
        assert(differs_below(a, b, n));
    }
}

/// A wide number is worth its limbs, each 2^64 times as much as the one before it.
pub proof fn limbs_have_their_weight(n: U256)
    ensures
        n.value() == n.0@[0] + 0x1_0000_0000_0000_0000 * (n.0@[1] + 0x1_0000_0000_0000_0000 * (
        n.0@[2] + 0x1_0000_0000_0000_0000 * n.0@[3])),
{
    let k = 0x1_0000_0000_0000_0000int;
    let (a, b, c) = (n.0@[1] as int, n.0@[2] as int, n.0@[3] as int);
    assert(k * (a + k * (b + k * c)) == a * k + b * (k * k) + c * (k * k * k)) by (nonlinear_arith);
    assert(k * k == 0x1_0000_0000_0000_0000_0000_0000_0000_0000int) by (nonlinear_arith)
        requires
            k == 0x1_0000_0000_0000_0000int,
    ;
    assert(k * k * k
        == 0x1_0000_0000_0000_0000_0000_0000_0000_0000_0000_0000_0000_0000int) by (nonlinear_arith)
        requires
            k == 0x1_0000_0000_0000_0000int,
    ;
}

/// The encoding of a byte string ends with the string, and a short one begins with its length,
/// unless it is a single small byte, which stands for itself.
pub proof fn string_stands_at_the_end(data: Seq<u8>)
    ensures
        rlp_string(data).len() >= data.len(),
        rlp_string(data).skip(rlp_string(data).len() - data.len()) == data,
        data.len() == 1 && data[0] < 0x80 ==> rlp_string(data) == data,
        data.len() <= 55 && !(data.len() == 1 && data[0] < 0x80) ==> rlp_string(data).len()
            == data.len() + 1 && rlp_string(data)[0] == 0x80 + data.len(),
{
    assert(rlp_string(data).skip(rlp_string(data).len() - data.len()) =~= data);
}

/// A number is encoded as the shortest byte string that stands for it.
pub proof fn number_is_a_string(n: nat)
    ensures
        rlp_number(n) == rlp_string(be_bytes(n)),
        be_value(be_bytes(n)) == n,
        n > 0 ==> be_bytes(n)[0] != 0,
        n == 0 ==> be_bytes(n).len() == 0,
    decreases n,
{
    be_bytes_value(n);
    if n >= 256 {
        number_is_a_string(n / 256);
        assert(be_bytes(n)[0] == be_bytes(n / 256)[0]);
    } else if n > 0 {
        assert(be_bytes(n / 256) =~= seq![]);
        assert(be_bytes(n)[0] == n);
    }
}

/// The encoding of a list ends with the encodings of its items, one after the other, and a short
/// one begins with the length of these.
pub proof fn items_stand_at_the_end(a: Seq<Seq<u8>>, b: Seq<Seq<u8>>, item: Seq<u8>)
    ensures
        joined(a + b) == joined(a) + joined(b),
        joined(seq![item]) == item,
        rlp_list(a).len() >= joined(a).len(),
        rlp_list(a).skip(rlp_list(a).len() - joined(a).len()) == joined(a),
        joined(a).len() <= 55 ==> rlp_list(a).len() == joined(a).len() + 1 && rlp_list(a)[0] == 0xc0
            + joined(a).len(),
    decreases a.len(),
{
    let one = seq![item];
    assert(one.drop_first() =~= Seq::<Seq<u8>>::empty());
    assert(joined(Seq::<Seq<u8>>::empty()) =~= Seq::<u8>::empty());
    assert(joined(one) =~= item);
    assert(rlp_list(a).skip(rlp_list(a).len() - joined(a).len()) =~= joined(a));
    if a.len() == 0 {
        assert(a + b =~= b);
        assert(joined(a) + joined(b) =~= joined(b));
    } else {
        items_stand_at_the_end(a.drop_first(), b, item);
        assert((a + b).drop_first() =~= a.drop_first() + b);
        assert(joined(a + b) =~= joined(a) + joined(b));
    }
}

} // verus!
