//! File checksums, tagged with the algorithm that produced them.

use vstd::prelude::*;

verus! {

/// The algorithm that a checksum was computed with.
#[derive(Clone, Copy, Debug, PartialEq, Eq, Structural)]
pub enum ChecksumType {
    MD5,
    SHA256,
}

/// A lowercase hex digest, tagged with its algorithm.
#[derive(Clone, Debug)]
pub enum Checksum {
    MD5(String),
    SHA256(String),
}

/// What a checksum is: its algorithm and its digest.
pub type ChecksumView = (ChecksumType, Seq<char>);

impl View for Checksum {
    type V = ChecksumView;

    open spec fn view(&self) -> ChecksumView {
        match self {
            Checksum::MD5(hex) => (ChecksumType::MD5, hex@),
            Checksum::SHA256(hex) => (ChecksumType::SHA256, hex@),
        }
    }
}

impl Checksum {
    /// The algorithm of this checksum.
    pub fn checksum_type(&self) -> (r: ChecksumType)
        ensures
            r == self@.0,
    {
        match self {
            Checksum::MD5(_) => ChecksumType::MD5,
            Checksum::SHA256(_) => ChecksumType::SHA256,
        }
    }

    /// The hex digest of this checksum.
    pub fn digest(&self) -> (r: &String)
        ensures
            r@ == self@.1,
    {
        match self {
            Checksum::MD5(hex) => hex,
            Checksum::SHA256(hex) => hex,
        }
    }

    /// A copy that equals this checksum.
    pub fn duplicate(&self) -> (r: Checksum)
        ensures
            r@ == self@,
    {
        match self {
            Checksum::MD5(hex) => Checksum::MD5(hex.clone()),
            Checksum::SHA256(hex) => Checksum::SHA256(hex.clone()),
        }
    }
}

impl PartialEq for Checksum {
    /// Checksums are equal when both the algorithm and the digest are; two
    /// algorithms never compare equal.
    fn eq(&self, other: &Checksum) -> (r: bool)
        ensures
            r == (self@ == other@),
    {
        match self {
            Checksum::MD5(a) => match other {
                Checksum::MD5(b) => a.eq(b),
                Checksum::SHA256(_) => false,
            },
            Checksum::SHA256(a) => match other {
                Checksum::SHA256(b) => a.eq(b),
                Checksum::MD5(_) => false,
            },
        }
    }
}

impl vstd::std_specs::cmp::PartialEqSpecImpl for Checksum {
    open spec fn obeys_eq_spec() -> bool {
        true
    }

    open spec fn eq_spec(&self, other: &Checksum) -> bool {
        self@ == other@
    }
}

impl Eq for Checksum {
}

/// The lowercase hexadecimal digits, by value.
pub open spec fn hex_digits() -> Seq<char> {
    seq!['0', '1', '2', '3', '4', '5', '6', '7', '8', '9', 'a', 'b', 'c', 'd', 'e', 'f']
}

/// Bytes as lowercase hex: two digits per byte, high nibble first.
pub open spec fn hex_of(bytes: Seq<u8>) -> Seq<char>
    decreases bytes.len(),
{
    if bytes.len() == 0 {
        Seq::empty()
    } else {
        hex_of(bytes.drop_last()) + seq![
            hex_digits()[bytes.last() as int / 16],
            hex_digits()[bytes.last() as int % 16],
        ]
    }
}

/// The digit of a nibble.
fn hex_digit_str(n: u8) -> (r: &'static str)
    requires
        n < 16,
    ensures
        r@ == seq![hex_digits()[n as int]],
{
    proof {
        reveal_strlit("0");
        reveal_strlit("1");
        reveal_strlit("2");
        reveal_strlit("3");
        reveal_strlit("4");
        reveal_strlit("5");
        reveal_strlit("6");
        reveal_strlit("7");
        reveal_strlit("8");
        reveal_strlit("9");
        reveal_strlit("a");
        reveal_strlit("b");
        reveal_strlit("c");
        reveal_strlit("d");
        reveal_strlit("e");
        reveal_strlit("f");
    }
    match n {
        0 => "0",
        1 => "1",
        2 => "2",
        3 => "3",
        4 => "4",
        5 => "5",
        6 => "6",
        7 => "7",
        8 => "8",
        9 => "9",
        10 => "a",
        11 => "b",
        12 => "c",
        13 => "d",
        14 => "e",
        _ => "f",
    }
}

/// Bytes as lowercase hex.
pub fn hex_lower(bytes: &[u8]) -> (r: String)
    ensures
        r@ == hex_of(bytes@),
{
    let mut s = String::new();
    let mut i: usize = 0;
    while i < bytes.len()
        invariant
            i <= bytes@.len(),
            s@ == hex_of(bytes@.take(i as int)),
        decreases bytes@.len() - i,
    {
        let b = bytes[i];
        s.append(hex_digit_str(b / 16));
        s.append(hex_digit_str(b % 16));
        proof {
            assert(bytes@.take(i as int + 1).drop_last() == bytes@.take(i as int));
            assert(s@ =~= hex_of(bytes@.take(i as int + 1)));
        }
        i = i + 1;
    }
    proof {
        assert(bytes@.take(bytes@.len() as int) == bytes@);
    }
    s
}

impl Checksum {
    /// The checksum of the given algorithm whose digest is the given bytes.
    pub fn from_digest(ty: ChecksumType, digest: &[u8]) -> (r: Checksum)
        ensures
            r@ == (ty, hex_of(digest@)),
    {
        let hex = hex_lower(digest);
        match ty {
            ChecksumType::MD5 => Checksum::MD5(hex),
            ChecksumType::SHA256 => Checksum::SHA256(hex),
        }
    }
}

} // verus!
