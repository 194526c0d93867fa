//! Object ids.

use vstd::prelude::*;
use vstd::string::*;

verus! {

/// The id of a git object: twenty bytes, held as a big-endian number in three words.
#[derive(Debug, Clone, Copy, PartialEq, Eq, Structural)]
pub struct Oid {
    pub hi: u64,
    pub mid: u64,
    pub lo: u32,
}

/// The number that `bytes` write down, the most significant byte first.
pub open spec fn big_endian(bytes: Seq<u8>) -> nat
    decreases bytes.len(),
{
    if bytes.len() == 0 {
        0
    } else {
        big_endian(bytes.drop_last()) * 256 + bytes.last() as nat
    }
}

/// The character of a hexadecimal digit.
pub open spec fn hex_digit(d: int) -> char {
    if d < 10 {
        ('0' as int + d) as char
    } else {
        ('a' as int + d - 10) as char
    }
}

/// The last `digits` hexadecimal digits of `n`.
pub open spec fn hex(n: nat, digits: nat) -> Seq<char>
    decreases digits,
{
    if digits == 0 {
        Seq::empty()
    } else {
        hex(n / 16, (digits - 1) as nat).push(hex_digit((n % 16) as int))
    }
}

proof fn lemma_big_endian_bound(bytes: Seq<u8>)
    ensures
        bytes.len() <= 8 ==> big_endian(bytes) <= u64::MAX,
        bytes.len() <= 7 ==> big_endian(bytes) * 256 + 255 <= u64::MAX,
        bytes.len() <= 4 ==> big_endian(bytes) <= u32::MAX,
{
    reveal_with_fuel(big_endian, 9);
    if bytes.len() <= 8 {
        let a0 = bytes;
        let a1 = a0.drop_last();
        let a2 = a1.drop_last();
        let a3 = a2.drop_last();
        let a4 = a3.drop_last();
        let a5 = a4.drop_last();
        let a6 = a5.drop_last();
        let a7 = a6.drop_last();
        assert(big_endian(a7) <= 255 || a0.len() != 8);
    }
}

/// The first two of eight bytes decide the upper sixteenth bits of the number.
pub proof fn lemma_big_endian_prefix(bytes: Seq<u8>)
    requires
        bytes.len() == 8,
    ensures
        big_endian(bytes) <= u64::MAX,
        big_endian(bytes) / 0x1_0000_0000_0000 == bytes[0] as nat * 256 + bytes[1] as nat,
{
    reveal_with_fuel(big_endian, 9);
    let a1 = bytes.drop_last();
    let a2 = a1.drop_last();
    let a3 = a2.drop_last();
    let a4 = a3.drop_last();
    let a5 = a4.drop_last();
    let a6 = a5.drop_last();
    let a7 = a6.drop_last();
    assert(a7[0] == bytes[0] && a6[1] == bytes[1]);
    assert(a7.drop_last().len() == 0);
    assert(big_endian(a7) == bytes[0] as nat);
    assert(big_endian(a6) == bytes[0] as nat * 256 + bytes[1] as nat);
}

fn read_word(bytes: &[u8], from: usize, to: usize) -> (r: u64)
    requires
        from <= to <= bytes.len(),
        to - from <= 8,
    ensures
        r == big_endian(bytes@.subrange(from as int, to as int)),
{
    let mut n: u64 = 0;
    let mut i: usize = from;
    while i < to
        invariant
            from <= i <= to <= bytes.len(),
            to - from <= 8,
            n == big_endian(bytes@.subrange(from as int, i as int)),
        decreases to - i,
    {
        proof {
            lemma_big_endian_bound(bytes@.subrange(from as int, i as int));
            assert(bytes@.subrange(from as int, i + 1).drop_last() =~= bytes@.subrange(
                from as int,
                i as int,
            ));
        }
        n = n * 256 + bytes[i] as u64;
        i = i + 1;
    }
    n
}

pub fn push_hex(s: &mut String, n: u64, digits: usize)
    ensures
        final(s)@ == old(s)@ + hex(n as nat, digits as nat),
    decreases digits,
{
    if digits > 0 {
        push_hex(s, n / 16, digits - 1);
        let d: u8 = (n % 16) as u8;
        if d < 10 {
            s.push((48u8 + d) as char);
        } else {
            s.push((97u8 + (d - 10)) as char);
        }
    }
    assert(s@ =~= old(s)@ + hex(n as nat, digits as nat));
}

/// The last `count` bytes of `n`, the most significant first.
pub open spec fn big_endian_bytes(n: nat, count: nat) -> Seq<u8>
    decreases count,
{
    if count == 0 {
        Seq::empty()
    } else {
        big_endian_bytes(n / 256, (count - 1) as nat).push((n % 256) as u8)
    }
}

fn push_big_endian(bytes: &mut Vec<u8>, n: u64, count: usize)
    ensures
        final(bytes)@ == old(bytes)@ + big_endian_bytes(n as nat, count as nat),
    decreases count,
{
    if count > 0 {
        push_big_endian(bytes, n / 256, count - 1);
        bytes.push((n % 256) as u8);
    }
    assert(bytes@ =~= old(bytes)@ + big_endian_bytes(n as nat, count as nat));
}

impl View for Oid {
    type V = Oid;

    open spec fn view(&self) -> Oid {
        *self
    }
}

impl Oid {
    /// The twenty bytes of the id.
    pub open spec fn bytes(self) -> Seq<u8> {
        big_endian_bytes(self.hi as nat, 8) + big_endian_bytes(self.mid as nat, 8)
            + big_endian_bytes(self.lo as nat, 4)
    }

    /// The twenty bytes of the id.
    pub fn to_bytes(&self) -> (r: Vec<u8>)
        ensures
            r@ == self.bytes(),
    {
        let mut r: Vec<u8> = Vec::new();
        push_big_endian(&mut r, self.hi, 8);
        push_big_endian(&mut r, self.mid, 8);
        push_big_endian(&mut r, self.lo as u64, 4);
        assert(r@ =~= self.bytes());
        r
    }

    /// The id that twenty bytes write down.
    pub open spec fn of(bytes: Seq<u8>) -> Oid {
        Oid {
            hi: big_endian(bytes.subrange(0, 8)) as u64,
            mid: big_endian(bytes.subrange(8, 16)) as u64,
            lo: big_endian(bytes.subrange(16, 20)) as u32,
        }
    }

    /// The forty hexadecimal digits of the id.
    pub open spec fn digits(self) -> Seq<char> {
        hex(self.hi as nat, 16) + hex(self.mid as nat, 16) + hex(self.lo as nat, 8)
    }

    /// The seven digits that stand for the id where space is short.
    pub open spec fn short(self) -> Seq<char> {
        self.digits().take(7)
    }

    /// The id of no object.
    pub fn zero() -> (r: Oid)
        ensures
            r == (Oid { hi: 0, mid: 0, lo: 0 }),
    {
        Oid { hi: 0, mid: 0, lo: 0 }
    }

    /// The id that twenty bytes write down.
    pub fn from_bytes(bytes: &[u8]) -> (r: Option<Oid>)
        ensures
            match r {
                Some(id) => bytes.len() == 20 && id == Oid::of(bytes@),
                None => bytes.len() != 20,
            },
    {
        if bytes.len() != 20 {
            return None;
        }
        proof {
            lemma_big_endian_bound(bytes@.subrange(0, 8));
            lemma_big_endian_bound(bytes@.subrange(8, 16));
            lemma_big_endian_bound(bytes@.subrange(16, 20));
        }
        let hi: u64 = read_word(bytes, 0, 8);
        let mid: u64 = read_word(bytes, 8, 16);
        let lo: u64 = read_word(bytes, 16, 20);
        Some(Oid { hi, mid, lo: lo as u32 })
    }

    /// The forty hexadecimal digits of the id.
    pub fn to_hex(&self) -> (r: String)
        ensures
            r@ == self.digits(),
    {
        let mut s = String::new();
        push_hex(&mut s, self.hi, 16);
        push_hex(&mut s, self.mid, 16);
        push_hex(&mut s, self.lo as u64, 8);
        assert(s@ =~= self.digits());
        s
    }

    /// The seven digits that stand for the id where space is short.
    pub fn short_id(&self) -> (r: String)
        ensures
            r@ == self.short(),
    {
        let s = self.to_hex();
        proof {
            lemma_hex_len(self.hi as nat, 16);
        }
        let r = s.as_str().substring_char(0, 7).to_owned();
        assert(r@ =~= self.digits().take(7));
        r
    }
}

pub proof fn lemma_hex_len(n: nat, digits: nat)
    ensures
        hex(n, digits).len() == digits,
    decreases digits,
{
    if digits > 0 {
        lemma_hex_len(n / 16, (digits - 1) as nat);
    }
}

proof fn lemma_hex_injective(a: nat, b: nat, digits: nat, bound: nat)
    requires
        hex(a, digits) == hex(b, digits),
        a < bound,
        b < bound,
        bound == vstd::arithmetic::power::pow(16, digits),
    ensures
        a == b,
    decreases digits,
{
    vstd::arithmetic::power::lemma_pow0(16);
    if digits > 0 {
        let d = (digits - 1) as nat;
        vstd::arithmetic::power::lemma_pow_positive(16, d);
        let p = vstd::arithmetic::power::pow(16, d) as nat;
        reveal(vstd::arithmetic::power::pow);
        assert(bound == 16 * p);
        lemma_hex_len(a / 16, d);
        lemma_hex_len(b / 16, d);
        let x = hex(a, digits);
        let y = hex(b, digits);
        assert(x.drop_last() =~= hex(a / 16, d));
        assert(y.drop_last() =~= hex(b / 16, d));
        assert(x.last() == hex_digit((a % 16) as int));
        assert(y.last() == hex_digit((b % 16) as int));
        assert(a / 16 < p);
        assert(b / 16 < p);
        lemma_hex_injective(a / 16, b / 16, d, p);
    }
}

/// Different ids have different digits, and every id has forty.
pub proof fn digits_tell_ids_apart(a: Oid, b: Oid)
    ensures
        a.digits().len() == 40,
        a.digits() == b.digits() ==> a == b,
{
    lemma_hex_len(a.hi as nat, 16);
    lemma_hex_len(a.mid as nat, 16);
    lemma_hex_len(a.lo as nat, 8);
    lemma_hex_len(b.hi as nat, 16);
    lemma_hex_len(b.mid as nat, 16);
    lemma_hex_len(b.lo as nat, 8);
    if a.digits() == b.digits() {
        assert(hex(a.hi as nat, 16) =~= a.digits().subrange(0, 16));
        assert(hex(b.hi as nat, 16) =~= b.digits().subrange(0, 16));
        assert(hex(a.mid as nat, 16) =~= a.digits().subrange(16, 32));
        assert(hex(b.mid as nat, 16) =~= b.digits().subrange(16, 32));
        assert(hex(a.lo as nat, 8) =~= a.digits().subrange(32, 40));
        assert(hex(b.lo as nat, 8) =~= b.digits().subrange(32, 40));
        reveal_with_fuel(vstd::arithmetic::power::pow, 17);
        assert(vstd::arithmetic::power::pow(16, 16) == 0x1_0000_0000_0000_0000);
        assert(vstd::arithmetic::power::pow(16, 8) == 0x1_0000_0000);
        lemma_hex_injective(a.hi as nat, b.hi as nat, 16, 0x1_0000_0000_0000_0000);
        lemma_hex_injective(a.mid as nat, b.mid as nat, 16, 0x1_0000_0000_0000_0000);
        lemma_hex_injective(a.lo as nat, b.lo as nat, 8, 0x1_0000_0000);
    }
}

proof fn lemma_bytes_read_back(n: nat, count: nat)
    ensures
        big_endian_bytes(n, count).len() == count,
        big_endian(big_endian_bytes(n, count)) == n % (vstd::arithmetic::power::pow(
            256,
            count,
        ) as nat),
        vstd::arithmetic::power::pow(256, count) > 0,
    decreases count,
{
    vstd::arithmetic::power::lemma_pow0(256);
    if count > 0 {
        let c = (count - 1) as nat;
        lemma_bytes_read_back(n / 256, c);
        let p = vstd::arithmetic::power::pow(256, c) as nat;
        reveal(vstd::arithmetic::power::pow);
        assert(vstd::arithmetic::power::pow(256, count) == 256 * p);
        let b = big_endian_bytes(n, count);
        assert(b.drop_last() =~= big_endian_bytes(n / 256, c));
        assert(b.last() == (n % 256) as u8);
        assert(big_endian(b) == (n / 256) % p * 256 + n % 256);
        vstd::arithmetic::div_mod::lemma_breakdown(n as int, 256, p as int);
    } else {
        assert(big_endian_bytes(n, 0) =~= Seq::empty());
    }
}

/// The bytes of an id are twenty, and are those it is made from: an id is read back from its
/// bytes.
pub proof fn ids_are_read_back_from_their_bytes(id: Oid)
    ensures
        id.bytes().len() == 20,
        Oid::of(id.bytes()) == id,
{
    lemma_bytes_read_back(id.hi as nat, 8);
    lemma_bytes_read_back(id.mid as nat, 8);
    lemma_bytes_read_back(id.lo as nat, 4);
    let b = id.bytes();
    assert(b.subrange(0, 8) =~= big_endian_bytes(id.hi as nat, 8));
    assert(b.subrange(8, 16) =~= big_endian_bytes(id.mid as nat, 8));
    assert(b.subrange(16, 20) =~= big_endian_bytes(id.lo as nat, 4));
    reveal_with_fuel(vstd::arithmetic::power::pow, 9);
    assert(vstd::arithmetic::power::pow(256, 8) == 0x1_0000_0000_0000_0000);
    assert(vstd::arithmetic::power::pow(256, 4) == 0x1_0000_0000);
    let p = vstd::arithmetic::power::pow(256, 8) as nat;
    vstd::arithmetic::div_mod::lemma_small_mod(id.hi as nat, p);
    vstd::arithmetic::div_mod::lemma_small_mod(id.mid as nat, p);
    vstd::arithmetic::div_mod::lemma_small_mod(
        id.lo as nat,
        vstd::arithmetic::power::pow(256, 4) as nat,
    );
    assert(big_endian(b.subrange(0, 8)) == id.hi);
    assert(big_endian(b.subrange(8, 16)) == id.mid);
    assert(big_endian(b.subrange(16, 20)) == id.lo);
}

/// The value of a hexadecimal digit, in small letters.
pub open spec fn digit_value(c: char) -> int {
    if '0' <= c <= '9' {
        c as int - '0' as int
    } else if 'a' <= c <= 'f' {
        c as int - 'a' as int + 10
    } else {
        -1
    }
}

/// Each hexadecimal digit is a digit or a small letter, and the last one of a number is what is
/// left when it is divided by sixteen.
pub proof fn digits_are_written_in_small_letters(n: nat, digits: nat)
    ensures
        forall|i: int|
            0 <= i < hex(n, digits).len() ==> 0 <= digit_value(#[trigger] hex(n, digits)[i]) < 16,
        digits > 0 ==> digit_value(hex(n, digits).last()) == n % 16 && hex(n, digits).drop_last()
            == hex(n / 16, (digits - 1) as nat),
    decreases digits,
{
    if digits > 0 {
        let front = hex(n / 16, (digits - 1) as nat);
        digits_are_written_in_small_letters(n / 16, (digits - 1) as nat);
        lemma_hex_len(n, digits);
        lemma_hex_len(n / 16, (digits - 1) as nat);
        assert(hex(n, digits).drop_last() =~= front);
        assert forall|i: int| 0 <= i < hex(n, digits).len() implies 0 <= digit_value(
            #[trigger] hex(n, digits)[i],
        ) < 16 by {
            if i < front.len() {
                assert(hex(n, digits)[i] == front[i]);
            }
        }
    }
}

/// The short form of an id is the first seven of its digits.
pub proof fn the_short_form_begins_the_digits(id: Oid)
    ensures
        id.short().len() == 7,
        id.short().is_prefix_of(id.digits()),
{
    digits_tell_ids_apart(id, id);
}

proof fn lemma_big_endian_tells_apart(a: Seq<u8>, b: Seq<u8>)
    requires
        a.len() == b.len(),
        big_endian(a) == big_endian(b),
    ensures
        a == b,
    decreases a.len(),
{
    if a.len() > 0 {
        let x = big_endian(a.drop_last());
        let y = big_endian(b.drop_last());
        assert(x * 256 + a.last() as nat == y * 256 + b.last() as nat);
        assert(a.last() == b.last() && x == y);
        lemma_big_endian_tells_apart(a.drop_last(), b.drop_last());
        assert(a =~= a.drop_last().push(a.last()));
        assert(b =~= b.drop_last().push(b.last()));
    } else {
        assert(a =~= b);
    }
}

/// Twenty different bytes are different ids.
pub proof fn bytes_tell_ids_apart(a: Seq<u8>, b: Seq<u8>)
    requires
        a.len() == 20,
        b.len() == 20,
        Oid::of(a) == Oid::of(b),
    ensures
        a == b,
{
    lemma_big_endian_bound(a.subrange(0, 8));
    lemma_big_endian_bound(a.subrange(8, 16));
    lemma_big_endian_bound(a.subrange(16, 20));
    lemma_big_endian_bound(b.subrange(0, 8));
    lemma_big_endian_bound(b.subrange(8, 16));
    lemma_big_endian_bound(b.subrange(16, 20));
    lemma_big_endian_tells_apart(a.subrange(0, 8), b.subrange(0, 8));
    lemma_big_endian_tells_apart(a.subrange(8, 16), b.subrange(8, 16));
    lemma_big_endian_tells_apart(a.subrange(16, 20), b.subrange(16, 20));
    assert(a =~= a.subrange(0, 8) + a.subrange(8, 16) + a.subrange(16, 20));
    assert(b =~= b.subrange(0, 8) + b.subrange(8, 16) + b.subrange(16, 20));
}

} // verus!
