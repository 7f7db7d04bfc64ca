use crate::error::Error;
use crate::util::copy_min_len;
use vstd::arithmetic::div_mod::{lemma_breakdown, lemma_div_denominator};
use vstd::prelude::*;

verus! {

/// 256 to the power of `n`.
pub open spec fn pow256(n: nat) -> nat
    decreases n,
{
    if n == 0 {
        1
    } else {
        256 * pow256((n - 1) as nat)
    }
}

/// The number that `bytes` spell in base 256, the first byte weighing most.
pub open spec fn be_value(bytes: Seq<u8>) -> nat
    decreases bytes.len(),
{
    if bytes.len() == 0 {
        0
    } else {
        be_value(bytes.drop_last()) * 256 + bytes.last() as nat
    }
}

/// The last `count` digits of `value` in base 256, the one that weighs most
/// first.
pub open spec fn be_bytes(value: nat, count: nat) -> Seq<u8>
    decreases count,
{
    if count == 0 {
        Seq::empty()
    } else {
        be_bytes(value / 256, (count - 1) as nat).push((value % 256) as u8)
    }
}

/// Eight bytes hold every number below 256 to the eighth, which is what a
/// `u64` holds.
pub proof fn lemma_pow256_8()
    ensures
        pow256(8) == u64::MAX + 1,
{
    reveal_with_fuel(pow256, 9);
}

/// `be_bytes` gives as many bytes as it is asked for.
pub proof fn lemma_be_bytes_len(value: nat, count: nat)
    ensures
        be_bytes(value, count).len() == count,
    decreases count,
{
    if count > 0 {
        lemma_be_bytes_len(value / 256, (count - 1) as nat);
    }
}

/// A power of 256 is positive.
pub proof fn lemma_pow256_positive(n: nat)
    ensures
        pow256(n) > 0,
    decreases n,
{
    if n > 0 {
        lemma_pow256_positive((n - 1) as nat);
    }
}

/// The digit with weight `256^j` stands `j` places before the end.
pub proof fn lemma_be_bytes_digit(value: nat, count: nat, j: nat)
    requires
        j < count,
    ensures
        be_bytes(value, count).len() == count,
        be_bytes(value, count)[count - 1 - j] == (value / pow256(j)) % 256,
    decreases count,
{
    lemma_be_bytes_len(value, count);
    lemma_be_bytes_len(value / 256, (count - 1) as nat);
    let front = be_bytes(value / 256, (count - 1) as nat);
    assert(be_bytes(value, count) == front.push((value % 256) as u8));
    if j > 0 {
        lemma_be_bytes_digit(value / 256, (count - 1) as nat, (j - 1) as nat);
        lemma_pow256_positive((j - 1) as nat);
        let p = pow256((j - 1) as nat);
        lemma_div_denominator(value as int, 256, p as int);
        assert(be_bytes(value, count)[count - 1 - j] == front[count - 1 - j]);
    } else {
        assert(pow256(0) == 1);
        assert(be_bytes(value, count)[count - 1] == (value % 256) as u8);
    }
}

/// Bytes spell a number below 256 to the power of their count.
pub proof fn lemma_be_value_bound(bytes: Seq<u8>)
    ensures
        be_value(bytes) < pow256(bytes.len()),
    decreases bytes.len(),
{
    if bytes.len() > 0 {
        lemma_be_value_bound(bytes.drop_last());
    }
}

/// Reading back the bytes of a number gives the number, as far as the bytes
/// could hold it.
pub proof fn lemma_be_value_of_bytes(value: nat, count: nat)
    ensures
        be_value(be_bytes(value, count)) == value % pow256(count),
    decreases count,
{
    if count > 0 {
        let front = be_bytes(value / 256, (count - 1) as nat);
        lemma_be_value_of_bytes(value / 256, (count - 1) as nat);
        lemma_pow256_positive((count - 1) as nat);
        assert(be_bytes(value, count).drop_last() =~= front);
        let p = pow256((count - 1) as nat);
        lemma_breakdown(value as int, 256, p as int);
    }
}

/// Writing out the number that bytes spell gives the bytes.
pub proof fn lemma_be_bytes_of_value(bytes: Seq<u8>)
    ensures
        be_bytes(be_value(bytes), bytes.len()) == bytes,
    decreases bytes.len(),
{
    if bytes.len() > 0 {
        lemma_be_bytes_of_value(bytes.drop_last());
        let v = be_value(bytes);
        let front = be_value(bytes.drop_last());
        assert(v / 256 == front && v % 256 == bytes.last()) by (nonlinear_arith)
            requires
                v == front * 256 + bytes.last() as nat,
                bytes.last() < 256,
        ;
        assert(be_bytes(v, bytes.len()) =~= bytes);
    } else {
        assert(be_bytes(be_value(bytes), bytes.len()) =~= bytes);
    }
}

/// What stands in front of a payload: its length.
#[derive(Debug, Clone, Copy, PartialEq, Eq, Structural)]
pub struct Header {
    /// The number of bytes of the payload.
    pub size: u64,
}

impl Default for Header {
    /// The header of an empty payload.
    fn default() -> (header: Self)
        ensures
            header.size == 0,
    {
        Header { size: 0 }
    }
}

impl Header {
    /// The number of bytes that a header takes.
    pub const SIZE: usize = 8;

    /// The eight bytes of the header: its size, the byte that weighs most
    /// first.
    pub open spec fn spec_bytes(self) -> Seq<u8> {
        be_bytes(self.size as nat, 8)
    }

    /// The eight bytes of the header: its size as a big-endian number.
    pub fn to_bytes(&self) -> (raw: [u8; 8])
        ensures
            raw@ == self.spec_bytes(),
    {
        let mut raw = [0u8; 8];
        let mut rest = self.size;
        let mut i: usize = 8;
        proof {
            let one = pow256(0);
            assert(self.size as nat / one == self.size) by (nonlinear_arith)
                requires
                    one == 1,
            ;
        }
        while i > 0
            invariant
                i <= 8,
                rest == self.size as nat / pow256((8 - i) as nat),
                forall|j: int|
                    i <= j < 8 ==> raw@[j] == (self.size as nat / pow256((7 - j) as nat)) % 256,
            decreases i,
        {
            i -= 1;
            raw[i] = (rest % 256) as u8;
            proof {
                let p = pow256((7 - i) as nat);
                lemma_pow256_positive((7 - i) as nat);
                lemma_div_denominator(self.size as int, p as int, 256);
                assert(p * 256 == 256 * p) by (nonlinear_arith);
            }
            rest = rest / 256;
        }
        proof {
            let want = self.spec_bytes();
            lemma_be_bytes_len(self.size as nat, 8);
            assert forall|j: int| 0 <= j < 8 implies raw@[j] == want[j] by {
                lemma_be_bytes_digit(self.size as nat, 8, (7 - j) as nat);
            }
            assert(raw@ =~= want);
        }
        raw
    }

    /// The header that eight bytes spell.
    pub fn from_bytes(raw: &[u8; 8]) -> (header: Self)
        ensures
            header.size == be_value(raw@),
            header.spec_bytes() == raw@,
    {
        let mut size: u64 = 0;
        let mut i: usize = 0;
        proof {
            assert(raw@.subrange(0, 0) =~= Seq::<u8>::empty());
        }
        while i < 8
            invariant
                i <= 8,
                size == be_value(raw@.subrange(0, i as int)),
            decreases 8 - i,
        {
            proof {
                let next = raw@.subrange(0, i + 1);
                assert(next.drop_last() =~= raw@.subrange(0, i as int));
                lemma_be_value_bound(next);
                lemma_be_value_bound(raw@);
                assert(pow256((i + 1) as nat) <= pow256(8)) by {
                    reveal_with_fuel(pow256, 9);
                }
                lemma_pow256_8();
            }
            size = size * 256 + raw[i] as u64;
            i += 1;
        }
        proof {
            assert(raw@.subrange(0, 8) =~= raw@);
            lemma_be_bytes_of_value(raw@);
        }
        Header { size }
    }

    /// Writes the header to the front of `writer`, as far as there is room,
    /// and leaves the rest of `writer` as it is.
    pub fn write_to(&self, writer: &mut [u8]) -> (r: Result<(), Error>)
        ensures
            r is Ok,
            old(writer)@.len() >= 8 ==> final(writer)@ == self.spec_bytes() + old(writer)@.subrange(
                8,
                old(writer)@.len() as int,
            ),
            old(writer)@.len() < 8 ==> final(writer)@ == self.spec_bytes().subrange(
                0,
                old(writer)@.len() as int,
            ),
    {
        let raw = self.to_bytes();
        proof {
            lemma_be_bytes_len(self.size as nat, 8);
        }
        let n = copy_min_len(raw.as_slice(), writer);
        proof {
            if n == 8 {
                assert(raw@.subrange(0, 8) =~= raw@);
            } else {
                assert(writer@ =~= raw@.subrange(0, n as int));
            }
        }
        Ok(())
    }

    /// Reads a header from the first eight bytes of `reader`; fails where
    /// `reader` holds fewer.
    pub fn read_from(reader: &[u8]) -> (r: Result<Self, Error>)
        ensures
            reader@.len() >= 8 ==> r is Ok && r.unwrap().size == be_value(reader@.subrange(0, 8)),
            reader@.len() < 8 ==> r == Err::<Self, Error>(Error::UnexpectedEof),
    {
        if reader.len() < 8 {
            return Err(Error::UnexpectedEof);
        }
        let mut buf = [0u8; 8];
        let n = copy_min_len(&reader[0..8], vstd::array::ref_mut_array_unsizing_coercion(&mut buf));
        proof {
            assert(buf@ =~= reader@.subrange(0, 8));
        }
        Ok(Self::from_bytes(&buf))
    }
}

} // verus!
