//! Recursive length prefix encoding, and the stream that writes it.
use crate::primitives::{be_value, H256, U256};
use rlp::RlpStream;
use vstd::prelude::*;

verus! {

/// The bytes of `n`, the most significant first, without leading zeros.
pub open spec fn be_bytes(n: nat) -> Seq<u8>
    decreases n,
{
    if n == 0 {
        seq![]
    } else {
        be_bytes(n / 256).push((n % 256) as u8)
    }
}

/// The bytes in which a length above 55 is written: its low 32 bits.
pub open spec fn size_bytes(len: nat) -> Seq<u8> {
    be_bytes(len % 0x1_0000_0000)
}

/// The encoding of a byte string.
pub open spec fn rlp_string(data: Seq<u8>) -> Seq<u8> {
    if data.len() == 1 && data[0] < 0x80 {
        data
    } else if data.len() <= 55 {
        seq![(0x80 + data.len()) as u8] + data
    } else {
        seq![(0xb7 + size_bytes(data.len()).len()) as u8] + size_bytes(data.len()) + data
    }
}

/// The encoding of a number.
pub open spec fn rlp_number(n: nat) -> Seq<u8> {
    rlp_string(be_bytes(n))
}

/// The encoded items one after the other.
pub open spec fn joined(items: Seq<Seq<u8>>) -> Seq<u8>
    decreases items.len(),
{
    if items.len() == 0 {
        seq![]
    } else {
        items[0] + joined(items.drop_first())
    }
}

/// The encoding of a list whose items, already encoded, make up `payload`.
pub open spec fn rlp_wrapped(payload: Seq<u8>) -> Seq<u8> {
    if payload.len() <= 55 {
        seq![(0xc0 + payload.len()) as u8] + payload
    } else {
        seq![(0xf7 + size_bytes(payload.len()).len()) as u8] + size_bytes(payload.len()) + payload
    }
}

/// The encoding of the list of the encoded `items`.
pub open spec fn rlp_list(items: Seq<Seq<u8>>) -> Seq<u8> {
    rlp_wrapped(joined(items))
}

/// `rlp::RlpStream`, which writes encoded items one after the other and knows which lists are
/// still open.
#[verifier::external_type_specification]
#[verifier::external_body]
pub struct ExRlpStream(rlp::RlpStream);

/// What the stream holds outside of any open list: the encoded items there.
pub uninterp spec fn stream_done(s: RlpStream) -> Seq<Seq<u8>>;

/// The lists that are open, the innermost last: how many items each one waits for, if that is
/// known, and the encoded items it has.
pub uninterp spec fn stream_open(s: RlpStream) -> Seq<(Option<nat>, Seq<Seq<u8>>)>;

/// What a stream holds: the items outside of any open list, and the open lists.
pub type StreamState = (Seq<Seq<u8>>, Seq<(Option<nat>, Seq<Seq<u8>>)>);

/// What the stream holds.
pub open spec fn stream_state(s: RlpStream) -> StreamState {
    (stream_done(s), stream_open(s))
}

/// The stream once an encoded item is added: a list that has all its items then is closed and is
/// an item of the one around it.
pub open spec fn with_item(s: StreamState, item: Seq<u8>) -> StreamState
    decreases s.1.len(),
{
    if s.1.len() == 0 {
        (s.0.push(item), s.1)
    } else {
        let items = s.1.last().1.push(item);
        if s.1.last().0 == Some(items.len()) {
            with_item((s.0, s.1.drop_last()), rlp_list(items))
        } else {
            (s.0, s.1.drop_last().push((s.1.last().0, items)))
        }
    }
}

/// The stream once a list of `n` items is opened; an empty one is complete at once.
pub open spec fn with_list(s: StreamState, n: nat) -> StreamState {
    if n == 0 {
        with_item(s, rlp_list(seq![]))
    } else {
        (s.0, s.1.push((Some(n), seq![])))
    }
}

/// `RlpStream::new`: a stream that holds nothing.
#[verifier::external_body]
fn new_stream() -> (s: RlpStream)
    ensures
        stream_done(s) == Seq::<Seq<u8>>::empty(),
        stream_open(s) == Seq::<(Option<nat>, Seq<Seq<u8>>)>::empty(),
{
    RlpStream::new()
}

/// `RlpStream::begin_list`: opens a list of `n` items; the empty list is written at once.
#[verifier::external_body]
pub(crate) fn begin_list(s: &mut RlpStream, n: usize)
    ensures
        stream_state(*final(s)) == with_list(stream_state(*old(s)), n as nat),
{
    s.begin_list(n);
}

/// `RlpStream::append` of a byte string: writes its length and its bytes.
#[verifier::external_body]
pub(crate) fn append_bytes(s: &mut RlpStream, data: &Vec<u8>)
    ensures
        stream_state(*final(s)) == with_item(stream_state(*old(s)), rlp_string(data@)),
{
    s.append(data);
}

/// `RlpStream::append` of an `ethereum_types::H256`: writes its 32 bytes as a byte string.
#[verifier::external_body]
pub(crate) fn append_hash(s: &mut RlpStream, h: &H256)
    ensures
        stream_state(*final(s)) == with_item(stream_state(*old(s)), rlp_string(h.0@)),
{
    s.append(&ethereum_types::H256(h.0));
}

/// `RlpStream::append` of a `u64`: writes its bytes, the most significant first and without
/// leading zeros, as a byte string.
#[verifier::external_body]
pub(crate) fn append_u64(s: &mut RlpStream, n: u64)
    ensures
        stream_state(*final(s)) == with_item(stream_state(*old(s)), rlp_number(n as nat)),
{
    s.append(&n);
}

/// `RlpStream::append` of an `ethereum_types::U256`: writes its bytes, the most significant first
/// and without leading zeros, as a byte string.
#[verifier::external_body]
pub(crate) fn append_u256(s: &mut RlpStream, n: &U256)
    ensures
        stream_state(*final(s)) == with_item(stream_state(*old(s)), rlp_number(n.value())),
{
    s.append(&ethereum_types::U256(n.0));
}

/// `RlpStream::out`: the bytes written, if no list is open.
#[verifier::external_body]
fn stream_bytes(s: RlpStream) -> (r: Vec<u8>)
    requires
        stream_open(s).len() == 0,
    ensures
        r@ == joined(stream_done(s)),
{
    s.out().to_vec()
}

/// A stream to write to.
pub fn start_stream() -> (s: RlpStream)
    ensures
        stream_state(s).0.len() == 0,
        stream_state(s).1.len() == 0,
{
    new_stream()
}

/// The bytes of a stream that holds one item and no open list.
pub fn finish_stream(s: RlpStream) -> (r: Vec<u8>)
    requires
        stream_state(s).0.len() == 1,
        stream_state(s).1.len() == 0,
    ensures
        r@ == stream_state(s).0[0],
{
    let r = stream_bytes(s);
    assert(stream_done(s).drop_first() =~= seq![]);
    assert(joined(stream_done(s).drop_first()) =~= seq![]);
    assert(r@ =~= stream_done(s)[0]);
    r
}

/// The number of bytes of the encoded item at the front of `s`, as its first bytes tell.
pub open spec fn item_size(s: Seq<u8>) -> nat {
    let b = s[0] as int;
    if b < 0x80 {
        1
    } else if b <= 0xb7 {
        (1 + b - 0x80) as nat
    } else if b <= 0xbf {
        (1 + b - 0xb7) as nat + be_value(s.subrange(1, 1 + b - 0xb7))
    } else if b <= 0xf7 {
        (1 + b - 0xc0) as nat
    } else {
        (1 + b - 0xf7) as nat + be_value(s.subrange(1, 1 + b - 0xf7))
    }
}

/// The item tells its own size, whatever follows it.
pub open spec fn is_delimited(item: Seq<u8>) -> bool {
    item.len() > 0 && forall|rest: Seq<u8>| item_size(#[trigger] (item + rest)) == item.len()
}

/// Writing a number and reading its bytes gives the number.
pub proof fn be_bytes_value(n: nat)
    ensures
        be_value(be_bytes(n)) == n,
    decreases n,
{
    if n > 0 {
        be_bytes_value(n / 256);
        assert(be_bytes(n).drop_last() =~= be_bytes(n / 256));
    }
}

/// A number below 2^32 takes one to four bytes, or none if it is zero.
proof fn be_bytes_len(n: nat)
    ensures
        n < 0x1_0000_0000 ==> be_bytes(n).len() <= 4,
        n > 0 ==> be_bytes(n).len() > 0,
{
    reveal_with_fuel(be_bytes, 5);
    if n < 0x1_0000_0000 && n > 0 {
        let a = n / 256;
        let b = a / 256;
        let c = b / 256;
        assert(c < 256);
        assert(c / 256 == 0);
    }
}

/// The encoding of a byte string below 4 GiB tells its own size.
pub proof fn string_is_delimited(data: Seq<u8>)
    requires
        data.len() < 0x1_0000_0000,
    ensures
        is_delimited(rlp_string(data)),
{
    let x = rlp_string(data);
    assert forall|rest: Seq<u8>| item_size(#[trigger] (x + rest)) == x.len() by {
        if data.len() > 55 {
            let size = size_bytes(data.len());
            be_bytes_len(data.len());
            be_bytes_value(data.len());
            assert((x + rest).subrange(1, 1 + size.len() as int) =~= size);
        }
    }
}

/// The encoding of a list below 4 GiB tells its own size.
pub proof fn wrapped_is_delimited(payload: Seq<u8>)
    requires
        payload.len() < 0x1_0000_0000,
    ensures
        is_delimited(rlp_wrapped(payload)),
{
    let x = rlp_wrapped(payload);
    assert forall|rest: Seq<u8>| item_size(#[trigger] (x + rest)) == x.len() by {
        if payload.len() > 55 {
            let size = size_bytes(payload.len());
            be_bytes_len(payload.len());
            be_bytes_value(payload.len());
            assert((x + rest).subrange(1, 1 + size.len() as int) =~= size);
        }
    }
}

/// The encoding of a byte string below 4 GiB determines it.
pub proof fn string_is_injective(a: Seq<u8>, b: Seq<u8>)
    requires
        a.len() < 0x1_0000_0000,
        b.len() < 0x1_0000_0000,
        rlp_string(a) == rlp_string(b),
    ensures
        a == b,
{
    be_bytes_len(a.len());
    be_bytes_len(b.len());
    let x = rlp_string(a);
    let sa = size_bytes(a.len());
    let sb = size_bytes(b.len());
    if a.len() > 55 {
        assert(x[0] > 0xb7);
        assert(b.len() > 55);
        assert(sa.len() == sb.len());
        assert(x.subrange(1 + sa.len() as int, x.len() as int) =~= a);
        assert(x.subrange(1 + sb.len() as int, x.len() as int) =~= b);
    } else if a.len() == 1 && a[0] < 0x80 {
        assert(x[0] < 0x80);
        assert(b.len() == 1 && b[0] < 0x80);
    } else {
        assert(0x80 <= x[0] <= 0xb7);
        assert(b.len() <= 55 && !(b.len() == 1 && b[0] < 0x80));
        assert(x.subrange(1, x.len() as int) =~= a);
        assert(x.subrange(1, x.len() as int) =~= b);
    }
}

/// The encoding of a number below 256 bits determines it.
pub proof fn number_is_injective(a: nat, b: nat)
    requires
        be_bytes(a).len() < 0x1_0000_0000,
        be_bytes(b).len() < 0x1_0000_0000,
        rlp_number(a) == rlp_number(b),
    ensures
        a == b,
{
    string_is_injective(be_bytes(a), be_bytes(b));
    be_bytes_value(a);
    be_bytes_value(b);
}

/// The encoding of a list below 4 GiB determines what its items make up.
pub proof fn wrapped_is_injective(a: Seq<u8>, b: Seq<u8>)
    requires
        a.len() < 0x1_0000_0000,
        b.len() < 0x1_0000_0000,
        rlp_wrapped(a) == rlp_wrapped(b),
    ensures
        a == b,
{
    be_bytes_len(a.len());
    be_bytes_len(b.len());
    let x = rlp_wrapped(a);
    let sa = size_bytes(a.len());
    let sb = size_bytes(b.len());
    if a.len() > 55 {
        assert(x[0] > 0xf7);
        assert(b.len() > 55);
        assert(x.subrange(1 + sa.len() as int, x.len() as int) =~= a);
        assert(x.subrange(1 + sb.len() as int, x.len() as int) =~= b);
    } else {
        assert(x[0] <= 0xf7);
        assert(b.len() <= 55);
        assert(x.subrange(1, x.len() as int) =~= a);
        assert(x.subrange(1, x.len() as int) =~= b);
    }
}

/// Items that tell their own size can be told apart when they stand one after the other.
pub proof fn joined_is_injective(a: Seq<Seq<u8>>, b: Seq<Seq<u8>>)
    requires
        forall|i: int| 0 <= i < a.len() ==> is_delimited(#[trigger] a[i]),
        forall|i: int| 0 <= i < b.len() ==> is_delimited(#[trigger] b[i]),
        joined(a) == joined(b),
    ensures
        a == b,
    decreases a.len(),
{
    if a.len() == 0 || b.len() == 0 {
        assert(a.len() > 0 ==> is_delimited(a[0]) && joined(a).len() > 0);
        assert(b.len() > 0 ==> is_delimited(b[0]) && joined(b).len() > 0);
        assert(a =~= b);
    } else {
        let x = a[0];
        let y = b[0];
        let s = joined(a.drop_first());
        let t = joined(b.drop_first());
        assert(is_delimited(x) && is_delimited(y));
        assert(item_size(x + s) == x.len());
        assert(item_size(y + t) == y.len());
        assert(x =~= joined(a).take(x.len() as int));
        assert(y =~= joined(b).take(y.len() as int));
        assert(s =~= joined(a).skip(x.len() as int));
        assert(t =~= joined(b).skip(y.len() as int));
        joined_is_injective(a.drop_first(), b.drop_first());
        assert(a =~= seq![x] + a.drop_first());
        assert(b =~= seq![y] + b.drop_first());
    }
}

/// No item is longer than what it is a part of.
pub proof fn item_is_no_longer(items: Seq<Seq<u8>>, i: int)
    requires
        0 <= i < items.len(),
    ensures
        items[i].len() <= joined(items).len(),
        joined(items).len() < rlp_list(items).len(),
    decreases items.len(),
{
    if i > 0 {
        item_is_no_longer(items.drop_first(), i - 1);
    }
}

/// Lists below 4 GiB of items that tell their own size are told apart by their encodings.
pub proof fn list_is_injective(a: Seq<Seq<u8>>, b: Seq<Seq<u8>>)
    requires
        forall|i: int| 0 <= i < a.len() ==> is_delimited(#[trigger] a[i]),
        forall|i: int| 0 <= i < b.len() ==> is_delimited(#[trigger] b[i]),
        rlp_list(a) == rlp_list(b),
        rlp_list(a).len() < 0x1_0000_0000,
    ensures
        a == b,
{
    assert(joined(a).len() < rlp_list(a).len());
    assert(joined(b).len() < rlp_list(b).len());
    wrapped_is_injective(joined(a), joined(b));
    joined_is_injective(a, b);
}

} // verus!
