use vstd::prelude::*;

verus! {

/// The base of the limbs of a [`BigNat`].
pub open spec fn limb_base() -> nat {
    0x1_0000_0000
}

/// The number that a sequence of limbs stands for, least significant first.
pub open spec fn limbs_value(limbs: Seq<u32>) -> nat
    decreases limbs.len(),
{
    if limbs.len() == 0 {
        0
    } else {
        limbs[0] as nat + limb_base() * limbs_value(limbs.drop_first())
    }
}

/// Limbs that are all zero stand for zero.
proof fn lemma_zero_limbs(limbs: Seq<u32>)
    requires
        forall|i: int| 0 <= i < limbs.len() ==> limbs[i] == 0,
    ensures
        limbs_value(limbs) == 0,
    decreases limbs.len(),
{
    if limbs.len() > 0 {
        lemma_zero_limbs(limbs.drop_first());
    }
}

/// Limbs with a non-zero member stand for a positive number.
proof fn lemma_positive_limbs(limbs: Seq<u32>, i: int)
    requires
        0 <= i < limbs.len(),
        limbs[i] != 0,
    ensures
        limbs_value(limbs) >= 1,
    decreases limbs.len(),
{
    if i > 0 {
        lemma_positive_limbs(limbs.drop_first(), i - 1);
        assert(limb_base() * limbs_value(limbs.drop_first()) >= 1) by (nonlinear_arith)
            requires
                limbs_value(limbs.drop_first()) >= 1,
                limb_base() == 0x1_0000_0000,
        ;
    }
}

/// Byte `k` of a limb, the least significant being byte 0.
pub open spec fn limb_byte(limb: u32, k: int) -> u8 {
    if k == 0 {
        (limb & 0xff) as u8
    } else if k == 1 {
        ((limb >> 8) & 0xff) as u8
    } else if k == 2 {
        ((limb >> 16) & 0xff) as u8
    } else {
        ((limb >> 24) & 0xff) as u8
    }
}

/// The limb with the given four bytes, least significant first.
pub open spec fn limb_of_bytes(b0: u8, b1: u8, b2: u8, b3: u8) -> u32 {
    (b0 as u32) | ((b1 as u32) << 8) | ((b2 as u32) << 16) | ((b3 as u32) << 24)
}

/// The bytes of a sequence of limbs: four for each limb, least significant
/// first.
pub open spec fn bytes_of_limbs(limbs: Seq<u32>) -> Seq<u8> {
    Seq::new((4 * limbs.len()) as nat, |j: int| limb_byte(limbs[j / 4], j % 4))
}

/// The limbs that a sequence of bytes holds, four bytes to a limb; up to three
/// bytes at the end that fill no limb are left aside.
pub open spec fn limbs_of_bytes(bytes: Seq<u8>) -> Seq<u32> {
    Seq::new(
        (bytes.len() / 4) as nat,
        |i: int| limb_of_bytes(bytes[4 * i], bytes[4 * i + 1], bytes[4 * i + 2], bytes[4 * i + 3]),
    )
}

/// The number that a sequence of bytes stands for.
pub open spec fn bytes_value(bytes: Seq<u8>) -> nat {
    limbs_value(limbs_of_bytes(bytes))
}

/// A limb is the limb of its four bytes.
proof fn lemma_limb_round_trip(limb: u32)
    ensures
        limb_of_bytes(
            limb_byte(limb, 0),
            limb_byte(limb, 1),
            limb_byte(limb, 2),
            limb_byte(limb, 3),
        ) == limb,
{
    assert((((limb & 0xff) as u8) as u32) | ((((limb >> 8) & 0xff) as u8) as u32) << 8 | ((((limb
        >> 16) & 0xff) as u8) as u32) << 16 | ((((limb >> 24) & 0xff) as u8) as u32) << 24
        == limb) by (bit_vector);
}

/// Limbs written as bytes and read again are the same limbs.
pub proof fn lemma_bytes_round_trip(limbs: Seq<u32>)
    ensures
        limbs_of_bytes(bytes_of_limbs(limbs)) == limbs,
{
    let bytes = bytes_of_limbs(limbs);
    let back = limbs_of_bytes(bytes);
    assert(back.len() == limbs.len());
    assert forall|i: int| 0 <= i < limbs.len() implies back[i] == limbs[i] by {
        lemma_limb_round_trip(limbs[i]);
        assert(bytes[4 * i] == limb_byte(limbs[i], 0));
        assert(bytes[4 * i + 1] == limb_byte(limbs[i], 1));
        assert(bytes[4 * i + 2] == limb_byte(limbs[i], 2));
        assert(bytes[4 * i + 3] == limb_byte(limbs[i], 3));
    }
    assert(back =~= limbs);
}

/// A natural number of any size, as the external asset ledger uses for
/// amounts, fees and block indexes.
#[derive(Clone, Debug, PartialEq, Eq)]
pub struct BigNat {
    limbs: Vec<u32>,
}

impl View for BigNat {
    type V = nat;

    closed spec fn view(&self) -> nat {
        limbs_value(self.limbs@)
    }
}

impl BigNat {
    /// The number with the given limbs in base 2^32, least significant first.
    pub fn from_limbs(limbs: Vec<u32>) -> (n: BigNat)
        ensures
            n@ == limbs_value(limbs@),
    {
        BigNat { limbs }
    }

    /// The limbs in base 2^32, least significant first.
    pub fn limbs(&self) -> (limbs: &Vec<u32>)
        ensures
            limbs_value(limbs@) == self@,
    {
        &self.limbs
    }

    /// The number as bytes, from which `from_bytes` makes the same number.
    pub fn to_bytes(&self) -> (bytes: Vec<u8>)
        ensures
            bytes_value(bytes@) == self@,
    {
        let mut bytes: Vec<u8> = Vec::new();
        let mut i: usize = 0;
        while i < self.limbs.len()
            invariant
                0 <= i <= self.limbs@.len(),
                bytes@.len() == 4 * i,
                forall|j: int|
                    0 <= j < 4 * i ==> bytes@[j] == limb_byte(self.limbs@[j / 4], j % 4),
            decreases self.limbs@.len() - i,
        {
            let limb = self.limbs[i];
            assert((limb & 0xff) <= 0xff && ((limb >> 8) & 0xff) <= 0xff && ((limb >> 16) & 0xff)
                <= 0xff && ((limb >> 24) & 0xff) <= 0xff) by (bit_vector);
            bytes.push((limb & 0xff) as u8);
            bytes.push(((limb >> 8) & 0xff) as u8);
            bytes.push(((limb >> 16) & 0xff) as u8);
            bytes.push(((limb >> 24) & 0xff) as u8);
            i = i + 1;
        }
        proof {
            assert(bytes@ =~= bytes_of_limbs(self.limbs@));
            lemma_bytes_round_trip(self.limbs@);
        }
        bytes
    }

    /// The number that the bytes stand for.
    pub fn from_bytes(bytes: &Vec<u8>) -> (n: BigNat)
        ensures
            n@ == bytes_value(bytes@),
    {
        let count = bytes.len() / 4;
        let mut limbs: Vec<u32> = Vec::new();
        let mut i: usize = 0;
        while i < count
            invariant
                count == bytes@.len() / 4,
                4 * count <= bytes@.len() <= usize::MAX,
                0 <= i <= count,
                limbs@.len() == i,
                forall|j: int|
                    0 <= j < i ==> limbs@[j] == limb_of_bytes(
                        bytes@[4 * j],
                        bytes@[4 * j + 1],
                        bytes@[4 * j + 2],
                        bytes@[4 * j + 3],
                    ),
            decreases count - i,
        {
            let b0 = bytes[4 * i] as u32;
            let b1 = bytes[4 * i + 1] as u32;
            let b2 = bytes[4 * i + 2] as u32;
            let b3 = bytes[4 * i + 3] as u32;
            limbs.push(b0 | (b1 << 8) | (b2 << 16) | (b3 << 24));
            i = i + 1;
        }
        assert(limbs@ =~= limbs_of_bytes(bytes@));
        BigNat { limbs }
    }

    /// The number `v`.
    pub fn from_u64(v: u64) -> (n: BigNat)
        ensures
            n@ == v,
    {
        let low: u32 = (v & 0xffff_ffff) as u32;
        let high: u32 = (v >> 32) as u32;
        assert(v == (v & 0xffff_ffff) + 0x1_0000_0000 * (v >> 32)) by (bit_vector);
        assert((v & 0xffff_ffff) <= 0xffff_ffff) by (bit_vector);
        assert((v >> 32) <= 0xffff_ffff) by (bit_vector);
        let mut limbs: Vec<u32> = Vec::new();
        limbs.push(low);
        limbs.push(high);
        proof {
            let s = limbs@;
            assert(s.drop_first().drop_first() =~= Seq::<u32>::empty());
            assert(limbs_value(s.drop_first().drop_first()) == 0);
            assert(limbs_value(s.drop_first()) == high as nat);
            assert(limbs_value(s) == low as nat + limb_base() * (high as nat));
        }
        BigNat { limbs }
    }

    /// The number as a `u64`, if it is small enough.
    pub fn to_u64(&self) -> (v: Option<u64>)
        ensures
            v == if self@ <= u64::MAX {
                Some(self@ as u64)
            } else {
                None::<u64>
            },
    {
        let n = self.limbs.len();
        let mut i: usize = 2;
        while i < n
            invariant
                n == self.limbs@.len(),
                2 <= i,
                forall|j: int| 2 <= j < i && j < n ==> self.limbs@[j] == 0,
            decreases n - i,
        {
            if self.limbs[i] != 0 {
                proof {
                    let s = self.limbs@;
                    let tail = s.drop_first().drop_first();
                    assert(tail[i - 2] == s[i as int]);
                    lemma_positive_limbs(tail, i - 2);
                    lemma_two_limbs(s);
                    assert(limb_base() * limb_base() * limbs_value(tail) >= limb_base()
                        * limb_base()) by (nonlinear_arith)
                        requires
                            limbs_value(tail) >= 1,
                    ;
                }
                return None;
            }
            i = i + 1;
        }
        let low: u64 = if n > 0 {
            self.limbs[0] as u64
        } else {
            0
        };
        let high: u64 = if n > 1 {
            self.limbs[1] as u64
        } else {
            0
        };
        proof {
            let s = self.limbs@;
            if n >= 2 {
                let tail = s.drop_first().drop_first();
                assert forall|j: int| 0 <= j < tail.len() implies tail[j] == 0 by {
                    assert(tail[j] == s[j + 2]);
                }
                lemma_zero_limbs(tail);
                lemma_two_limbs(s);
                assert(limbs_value(s) == low + limb_base() * high);
            } else if n == 1 {
                assert(s.drop_first() =~= Seq::<u32>::empty());
                assert(limbs_value(s.drop_first()) == 0);
                assert(limbs_value(s) == low);
            } else {
                assert(limbs_value(s) == 0);
            }
            assert(self@ == high * 0x1_0000_0000 + low);
        }
        Some(high * 0x1_0000_0000 + low)
    }
}

/// The value of at least two limbs, with the first two written out.
proof fn lemma_two_limbs(s: Seq<u32>)
    requires
        s.len() >= 2,
    ensures
        limbs_value(s) == s[0] as nat + limb_base() * (s[1] as nat) + limb_base() * limb_base()
            * limbs_value(s.drop_first().drop_first()),
{
    let rest = s.drop_first();
    assert(rest[0] == s[1]);
    assert(limbs_value(rest) == s[1] as nat + limb_base() * limbs_value(rest.drop_first()));
    assert(limb_base() * (s[1] as nat + limb_base() * limbs_value(rest.drop_first()))
        == limb_base() * (s[1] as nat) + limb_base() * limb_base() * limbs_value(
        rest.drop_first(),
    )) by (nonlinear_arith);
}

} // verus!
