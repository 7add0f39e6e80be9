//! Network addresses and numbers in network byte order.

use vstd::prelude::*;

verus! {

/// An IP address, held as the number whose big-endian bytes are its octets.
#[derive(Clone, Copy, Debug, PartialEq, Eq, Hash, Structural)]
pub enum IpAddr {
    V4(u32),
    V6(u128),
}

/// An IP address together with a port.
#[derive(Clone, Copy, Debug, PartialEq, Eq, Hash, Structural)]
pub struct SocketAddr {
    pub ip: IpAddr,
    pub port: u16,
}

/// The number that bytes spell with the most significant byte first.
pub open spec fn be_value(bytes: Seq<u8>) -> nat
    decreases bytes.len(),
{
    if bytes.len() == 0 {
        0
    } else {
        be_value(bytes.drop_last()) * 256 + bytes.last() as nat
    }
}

/// How many numbers `n` bytes can spell.
pub open spec fn byte_range(n: nat) -> nat
    decreases n,
{
    if n == 0 {
        1
    } else {
        256 * byte_range((n - 1) as nat)
    }
}

/// Bytes spell a number below their range.
pub proof fn lemma_be_value_bound(bytes: Seq<u8>)
    ensures
        be_value(bytes) < byte_range(bytes.len()),
    decreases bytes.len(),
{
    if bytes.len() > 0 {
        lemma_be_value_bound(bytes.drop_last());
    }
}

/// The `count` lowest bytes of a number, the most significant one first.
pub open spec fn be_bytes(n: nat, count: nat) -> Seq<u8>
    decreases count,
{
    if count == 0 {
        Seq::empty()
    } else {
        be_bytes(n / 256, (count - 1) as nat).push((n % 256) as u8)
    }
}

/// Numbers read back from their bytes.
pub proof fn numbers_read_back_from_bytes(n: nat, count: nat)
    ensures
        be_bytes(n, count).len() == count,
        n < byte_range(count) ==> be_value(be_bytes(n, count)) == n,
    decreases count,
{
    if count > 0 {
        let shorter = (count - 1) as nat;
        numbers_read_back_from_bytes(n / 256, shorter);
        assert(be_bytes(n, count).drop_last() =~= be_bytes(n / 256, shorter));
        assert(be_bytes(n, count).last() == (n % 256) as u8);
    }
}

/// The ranges of the integer types that addresses and ports are held in.
pub proof fn lemma_byte_ranges()
    ensures
        byte_range(2) == 0x1_0000,
        byte_range(4) == 0x1_0000_0000,
        byte_range(16) == 0x1_0000_0000_0000_0000_0000_0000_0000_0000,
        forall|n: nat| n <= 16 ==> #[trigger] byte_range(n) <= byte_range(16),
{
    reveal_with_fuel(byte_range, 17);
    assert forall|n: nat| n <= 16 implies #[trigger] byte_range(n) <= byte_range(16) by {
        lemma_byte_range_grows(n, 16);
    }
}

proof fn lemma_byte_range_grows(a: nat, b: nat)
    requires
        a <= b,
    ensures
        byte_range(a) <= byte_range(b),
    decreases b - a,
{
    if a < b {
        lemma_byte_range_grows(a + 1, b);
    }
}

/// Reads `count` bytes from position `from` as one big-endian number.
pub fn read_be(bytes: &[u8], from: usize, count: usize) -> (value: u128)
    requires
        count <= 16,
        from + count <= bytes@.len(),
    ensures
        value == be_value(bytes@.subrange(from as int, from + count)),
        value < byte_range(count as nat),
{
    let total: usize = bytes.len();
    let mut value: u128 = 0;
    let mut i: usize = 0;
    assert(bytes@.subrange(from as int, from as int) =~= Seq::empty());
    while i < count
        invariant
            i <= count <= 16,
            total == bytes@.len(),
            from + count <= total,
            value == be_value(bytes@.subrange(from as int, from + i)),
        decreases count - i,
    {
        let ghost part = bytes@.subrange(from as int, from + i + 1);
        assert(part.drop_last() =~= bytes@.subrange(from as int, from + i));
        proof {
            lemma_byte_ranges();
            lemma_be_value_bound(part);
        }
        value = value * 256 + bytes[from + i] as u128;
        i += 1;
    }
    proof {
        lemma_be_value_bound(bytes@.subrange(from as int, from + count));
    }
    value
}

/// Reads two bytes as one big-endian number.
pub fn read_be_u16(bytes: &[u8], from: usize) -> (value: u16)
    requires
        from + 2 <= bytes@.len(),
    ensures
        value == be_value(bytes@.subrange(from as int, from + 2)),
{
    proof {
        lemma_byte_ranges();
    }
    read_be(bytes, from, 2) as u16
}

/// Reads four bytes as one big-endian number.
pub fn read_be_u32(bytes: &[u8], from: usize) -> (value: u32)
    requires
        from + 4 <= bytes@.len(),
    ensures
        value == be_value(bytes@.subrange(from as int, from + 4)),
{
    proof {
        lemma_byte_ranges();
    }
    read_be(bytes, from, 4) as u32
}

} // verus!
