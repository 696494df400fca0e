//! Bit fields packed into an integer, and their multi-line text display:
//! the raw bits on the first line, then one line per field showing the
//! field's bits in place, its name and its value.
use vstd::prelude::*;

use vstd::arithmetic::power2::pow2;
use vstd::string::StringExecFns;

use crate::example::{test_enum_from_byte, TestEnum};
use crate::from_bits::FromBits;
use crate::math::bit_len;
use crate::pack::{mask_of_width, ones, spec_valid, PackUsize};

pub mod unicode;

use unicode::{layout_valid, max_name_len, texts_view, unicode_display, unicode_display_text, FieldLayout};

verus! {

/// The `w` least-significant binary digits of `v`, most significant first.
pub open spec fn binary_digits(v: nat, w: nat) -> Seq<char>
    decreases w,
{
    if w == 0 {
        seq![]
    } else {
        binary_digits(v / 2, (w - 1) as nat).push(
            if v % 2 == 1 {
                '1'
            } else {
                '0'
            },
        )
    }
}

/// The decimal digits of `v`, most significant first.
pub open spec fn decimal_digits(v: nat) -> Seq<char>
    decreases v,
{
    if v < 10 {
        seq![(48 + v) as char]
    } else {
        decimal_digits(v / 10).push((48 + v % 10) as char)
    }
}

/// `n` dots.
pub open spec fn dots(n: nat) -> Seq<char>
    decreases n,
{
    if n == 0 {
        seq![]
    } else {
        dots((n - 1) as nat).push('.')
    }
}

/// The display line of a field of `bits` bits whose highest bit is below
/// index `msb`, in a bit field of `total` bits: dots above the field, the
/// field's bits `value`, dots below it, then its name and the text of its
/// value.
pub open spec fn field_line(
    total: nat,
    msb: nat,
    bits: nat,
    value: nat,
    name: Seq<char>,
    value_text: Seq<char>,
) -> Seq<char> {
    dots((total - msb) as nat) + binary_digits(value, bits) + dots((msb - bits) as nat) + " "@
        + name + ": "@ + value_text + "\n"@
}

/// The character of a binary digit.
pub open spec fn bit_char(b: bool) -> char {
    if b {
        '1'
    } else {
        '0'
    }
}

/// The digits of `bits`, least significant first, written most significant
/// first.
pub open spec fn rev_bit_chars(bits: Seq<bool>) -> Seq<char> {
    Seq::new(bits.len(), |j: int| bit_char(bits[bits.len() - 1 - j]))
}

/// Returns the `width` least-significant binary digits of `value`, most
/// significant first, padded with zeroes.
pub(crate) fn binary_text(value: usize, width: usize) -> (r: String)
    ensures
        r@ == binary_digits(value as nat, width as nat),
{
    let mut bits: Vec<bool> = Vec::new();
    let mut x = value;
    let mut i: usize = 0;
    proof {
        assert(rev_bit_chars(bits@) =~= Seq::<char>::empty());
        assert(binary_digits(value as nat, width as nat) =~= binary_digits(
            x as nat,
            (width - i) as nat,
        ) + rev_bit_chars(bits@));
    }
    while i < width
        invariant
            i <= width,
            bits@.len() == i,
            binary_digits(value as nat, width as nat) == binary_digits(
                x as nat,
                (width - i) as nat,
            ) + rev_bit_chars(bits@),
        decreases width - i,
    {
        let ghost old_bits = bits@;
        let b = x % 2 == 1;
        proof {
            let n = (width - i) as nat;
            assert(binary_digits(x as nat, n) == binary_digits((x / 2) as nat, (n - 1) as nat).push(
                bit_char(b),
            ));
        }
        bits.push(b);
        proof {
            assert(rev_bit_chars(bits@) =~= seq![bit_char(b)] + rev_bit_chars(old_bits));
            let n = (width - i) as nat;
            assert(binary_digits((x / 2) as nat, (n - 1) as nat).push(bit_char(b)) + rev_bit_chars(
                old_bits,
            ) =~= binary_digits((x / 2) as nat, (n - 1) as nat) + rev_bit_chars(bits@));
        }
        x = x / 2;
        i = i + 1;
    }
    proof {
        assert(binary_digits(x as nat, 0) =~= Seq::<char>::empty());
        assert(binary_digits(value as nat, width as nat) =~= rev_bit_chars(bits@));
        reveal_strlit("1");
        reveal_strlit("0");
    }
    let ghost all = rev_bit_chars(bits@);
    let mut s = String::new();
    let mut j: usize = width;
    proof {
        assert(s@ =~= all.subrange(0, 0));
    }
    while j > 0
        invariant
            j <= width,
            bits@.len() == width,
            all == rev_bit_chars(bits@),
            s@ == all.subrange(0, (width - j) as int),
        decreases j,
    {
        j = j - 1;
        let piece = if bits[j] {
            "1"
        } else {
            "0"
        };
        proof {
            reveal_strlit("1");
            reveal_strlit("0");
            assert(piece@ =~= seq![bit_char(bits@[j as int])]);
        }
        let ghost before = s@;
        s = push_str(s, piece);
        proof {
            assert(all[(width - j - 1) as int] == bit_char(bits@[j as int]));
            assert(s@ =~= all.subrange(0, (width - j) as int));
        }
    }
    proof {
        assert(all.subrange(0, width as int) =~= all);
    }
    s
}

/// The character of the decimal digit `d`.
pub open spec fn digit_char(d: nat) -> char {
    (48 + d) as char
}

/// The digits `ds`, least significant first, written most significant
/// first.
pub open spec fn rev_digit_chars(ds: Seq<u8>) -> Seq<char> {
    Seq::new(ds.len(), |j: int| digit_char(ds[ds.len() - 1 - j] as nat))
}

/// The text of the decimal digit `d`.
fn digit_str(d: usize) -> (r: &'static str)
    requires
        d < 10,
    ensures
        r@ == seq![digit_char(d as nat)],
{
    proof {
        reveal_strlit("0");
        reveal_strlit("1");
        reveal_strlit("2");
        reveal_strlit("3");
        reveal_strlit("4");
        reveal_strlit("5");
        reveal_strlit("6");
        reveal_strlit("7");
        reveal_strlit("8");
        reveal_strlit("9");
    }
    let r = match d {
        0 => "0",
        1 => "1",
        2 => "2",
        3 => "3",
        4 => "4",
        5 => "5",
        6 => "6",
        7 => "7",
        8 => "8",
        _ => "9",
    };
    assert(r@ =~= seq![digit_char(d as nat)]);
    r
}

/// Returns the decimal digits of `value`, with no sign and no padding.
pub(crate) fn decimal_text(value: usize) -> (r: String)
    ensures
        r@ == decimal_digits(value as nat),
{
    let mut ds: Vec<u8> = Vec::new();
    let mut x = value;
    proof {
        assert(decimal_digits(value as nat) =~= decimal_digits(x as nat) + rev_digit_chars(ds@));
    }
    while x >= 10
        invariant
            decimal_digits(value as nat) == decimal_digits(x as nat) + rev_digit_chars(ds@),
            forall|k: int| 0 <= k < ds@.len() ==> #[trigger] ds@[k] < 10,
        decreases x,
    {
        let ghost old_ds = ds@;
        let d = (x % 10) as u8;
        proof {
            assert(decimal_digits(x as nat) == decimal_digits((x / 10) as nat).push(
                digit_char(d as nat),
            ));
        }
        ds.push(d);
        proof {
            assert(rev_digit_chars(ds@) =~= seq![digit_char(d as nat)] + rev_digit_chars(old_ds));
            assert(decimal_digits((x / 10) as nat).push(digit_char(d as nat)) + rev_digit_chars(
                old_ds,
            ) =~= decimal_digits((x / 10) as nat) + rev_digit_chars(ds@));
        }
        x = x / 10;
    }
    let s = push_str(String::new(), digit_str(x));
    let ghost all = rev_digit_chars(ds@);
    proof {
        assert(decimal_digits(x as nat) =~= seq![digit_char(x as nat)]);
        assert(s@ =~= seq![digit_char(x as nat)] + all.subrange(0, 0));
    }
    let mut s = s;
    let n = ds.len();
    let mut j: usize = n;
    while j > 0
        invariant
            j <= n,
            ds@.len() == n,
            all == rev_digit_chars(ds@),
            forall|k: int| 0 <= k < n ==> #[trigger] ds@[k] < 10,
            s@ == seq![digit_char(x as nat)] + all.subrange(0, (n - j) as int),
        decreases j,
    {
        j = j - 1;
        let piece = digit_str(ds[j] as usize);
        s = push_str(s, piece);
        proof {
            assert(all[(n - j - 1) as int] == digit_char(ds@[j as int] as nat));
            assert(s@ =~= seq![digit_char(x as nat)] + all.subrange(0, (n - j) as int));
        }
    }
    proof {
        assert(all.subrange(0, n as int) =~= all);
    }
    s
}

/// Appends `tail` to `s`.
pub(crate) fn push_str(s: String, tail: &str) -> (r: String)
    ensures
        r@ == s@ + tail@,
{
    s.concat(tail)
}

/// Appends `tail` to `s`.
pub(crate) fn push_string(s: String, tail: String) -> (r: String)
    ensures
        r@ == s@ + tail@,
{
    push_str(s, tail.as_str())
}

/// Appends `n` dots to `s`.
pub(crate) fn push_dots(s: String, n: u32) -> (r: String)
    ensures
        r@ == s@ + dots(n as nat),
{
    let mut s = s;
    let mut i: u32 = 0;
    let ghost s0 = s@;
    while i < n
        invariant
            i <= n,
            s@ == s0 + dots(i as nat),
        decreases n - i,
    {
        proof {
            reveal_strlit(".");
        }
        s = push_str(s, ".");
        proof {
            assert(s0 + dots(i as nat) + "."@ =~= s0 + dots((i + 1) as nat));
        }
        i = i + 1;
    }
    s
}

/// Appends the display line of a field (see [`field_line`]) to `s`.
pub fn push_field_line(
    s: String,
    total: u32,
    msb: u32,
    bits: u32,
    value: usize,
    name: &str,
    value_text: String,
) -> (r: String)
    requires
        1 <= bits <= msb <= total,
        (value as int) < pow2(bits as nat),
    ensures
        r@ == s@ + field_line(
            total as nat,
            msb as nat,
            bits as nat,
            value as nat,
            name@,
            value_text@,
        ),
{
    let s0 = s;
    let ghost g0 = s0@;
    let s1 = push_dots(s0, total - msb);
    let s2 = push_string(s1, binary_text(value, bits as usize));
    let s3 = push_dots(s2, msb - bits);
    let s4 = push_str(s3, " ");
    let s5 = push_str(s4, name);
    let s6 = push_str(s5, ": ");
    let s7 = push_string(s6, value_text);
    let s8 = push_str(s7, "\n");
    proof {
        assert(s8@ =~= g0 + field_line(
            total as nat,
            msb as nat,
            bits as nat,
            value as nat,
            name@,
            value_text@,
        ));
    }
    s8
}

/// The packing constants of [`TestBitfield`]'s fields.
proof fn lemma_test_fields()
    ensures
        mask_of_width(1) == 1 && mask_of_width(3) == 7 && mask_of_width(4) == 15 && mask_of_width(5)
            == 31 && mask_of_width(6) == 63,
        ones(1) == 1 && ones(2) == 3,
        <TestEnum as crate::from_bits::FromBits<usize>>::BITS == 2,
        (7usize << 4nat) == 0x70usize && (1usize << 7nat) == 0x80usize && (3usize << 8nat)
            == 0x300usize && (31usize << 10nat) == 0x7c00usize && (1usize << 15nat) == 0x8000usize
            && (63usize << 16nat) == 0x3f0000usize,
        (15usize >> 0u32) == 15usize && (0x70usize >> 4u32) == 7usize && (0x80usize >> 7u32)
            == 1usize && (0x300usize >> 8u32) == 3usize && (0x7c00usize >> 10u32) == 31usize
            && (0x8000usize >> 15u32) == 1usize && (0x3f0000usize >> 16u32) == 63usize,
        bit_len(1) == 1 && bit_len(3) == 2 && bit_len(7) == 3 && bit_len(15) == 4 && bit_len(31)
            == 5 && bit_len(63) == 6,
        bit_len(0x70) == 7 && bit_len(0x80) == 8 && bit_len(0x300) == 10 && bit_len(0x7c00) == 15
            && bit_len(0x8000) == 16 && bit_len(0x3f0000) == 22,
{
    vstd::arithmetic::power2::lemma2_to64();
    crate::example::lemma_test_enum_width();
    assert((7usize << 4u32) == 0x70usize && (1usize << 7u32) == 0x80usize && (3usize << 8u32)
        == 0x300usize && (31usize << 10u32) == 0x7c00usize && (1usize << 15u32) == 0x8000usize
        && (63usize << 16u32) == 0x3f0000usize && (15usize >> 0u32) == 15usize && (0x70usize
        >> 4u32) == 7usize && (0x80usize >> 7u32) == 1usize && (0x300usize >> 8u32) == 3usize
        && (0x7c00usize >> 10u32) == 31usize && (0x8000usize >> 15u32) == 1usize && (0x3f0000usize
        >> 16u32) == 63usize) by (bit_vector);
    reveal_with_fuel(bit_len, 23);
}

/// A bit field used to exercise the display of bit fields: `HELLO` (four
/// bits), three reserved bits, the flag `WORLD`, `HAVE` (a [`TestEnum`]),
/// `LOTS` (five bits), `OF` (one bit) and `FUN` (six bits), from the least
/// significant bit up, in a `u32`.
#[derive(Copy, Clone, Debug)]
pub struct TestBitfield(u32);

impl TestBitfield {
    /// The raw bits.
    pub closed spec fn word(&self) -> u32 {
        self.0
    }

    /// The packing spec of `HELLO`: bits 0 to 3.
    pub fn hello() -> (r: PackUsize<usize>)
        ensures
            r.mask_spec() == 0xf && r.shift_spec() == 0,
            r.bits_spec() == 4 && r.end_spec() == 4,
    {
        proof {
            lemma_test_fields();
        }
        PackUsize::<usize>::least_significant(4)
    }

    /// The packing spec of the reserved bits 4 to 6.
    pub fn reserved_1() -> (r: PackUsize<usize>)
        ensures
            r.mask_spec() == 0x70 && r.shift_spec() == 4,
            r.bits_spec() == 3 && r.end_spec() == 7,
    {
        proof {
            lemma_test_fields();
        }
        Self::hello().next(3)
    }

    /// The packing spec of `WORLD`: bit 7.
    pub fn world() -> (r: PackUsize<bool>)
        ensures
            r.mask_spec() == 0x80 && r.shift_spec() == 7,
            r.bits_spec() == 1 && r.end_spec() == 8,
    {
        proof {
            lemma_test_fields();
            crate::from_bits::lemma_widths();
        }
        Self::reserved_1().followed_by::<bool>()
    }

    /// The packing spec of `HAVE`: bits 8 and 9.
    pub fn have() -> (r: PackUsize<TestEnum>)
        ensures
            r.mask_spec() == 0x300 && r.shift_spec() == 8,
            r.bits_spec() == 2 && r.end_spec() == 10,
    {
        proof {
            lemma_test_fields();
        }
        Self::world().followed_by::<TestEnum>()
    }

    /// The packing spec of `LOTS`: bits 10 to 14.
    pub fn lots() -> (r: PackUsize<usize>)
        ensures
            r.mask_spec() == 0x7c00 && r.shift_spec() == 10,
            r.bits_spec() == 5 && r.end_spec() == 15,
    {
        proof {
            lemma_test_fields();
        }
        Self::have().next(5)
    }

    /// The packing spec of `OF`: bit 15.
    pub fn of() -> (r: PackUsize<usize>)
        ensures
            r.mask_spec() == 0x8000 && r.shift_spec() == 15,
            r.bits_spec() == 1 && r.end_spec() == 16,
    {
        proof {
            lemma_test_fields();
        }
        Self::lots().next(1)
    }

    /// The packing spec of `FUN`: bits 16 to 21.
    pub fn fun() -> (r: PackUsize<usize>)
        ensures
            r.mask_spec() == 0x3f0000 && r.shift_spec() == 16,
            r.bits_spec() == 6 && r.end_spec() == 22,
    {
        proof {
            lemma_test_fields();
        }
        Self::of().next(6)
    }

    /// Returns a bit field with every bit clear.
    pub fn new() -> (r: Self)
        ensures
            r.word() == 0,
    {
        TestBitfield(0)
    }

    /// Returns a bit field holding `bits`.
    pub fn from_bits(bits: u32) -> (r: Self)
        ensures
            r.word() == bits,
    {
        TestBitfield(bits)
    }

    /// Returns the raw bits.
    pub fn bits(self) -> (r: u32)
        ensures
            r == self.word(),
    {
        self.0
    }

    /// Returns this bit field with `field` set to `value`, whose bits must
    /// fit in the field; the field must lie in the low 32 bits.
    pub fn with<T: FromBits<usize>>(self, field: PackUsize<T>, value: T) -> (r: Self)
        requires
            field.shift_spec() < usize::BITS,
            field.bits_spec() < usize::BITS,
            value.spec_into_bits() <= ones(field.bits_spec()),
        ensures
            r.word() == field.pack_spec(value.spec_into_bits(), self.word() as usize) as u32,
    {
        TestBitfield(field.pack(value, self.0 as usize) as u32)
    }

    /// Sets `field` to `value` in place, like [`TestBitfield::with`].
    pub fn set<T: FromBits<usize>>(&mut self, field: PackUsize<T>, value: T) -> (r: &mut Self)
        requires
            field.shift_spec() < usize::BITS,
            field.bits_spec() < usize::BITS,
            value.spec_into_bits() <= ones(field.bits_spec()),
        ensures
            r.word() == field.pack_spec(value.spec_into_bits(), old(self).word() as usize) as u32,
            *final(self) == *final(r),
    {
        *self = self.with(field, value);
        self
    }

    /// Unpacks the value of `field`. The field's bits must be a valid `T`.
    pub fn get<T: FromBits<usize>>(self, field: PackUsize<T>) -> (r: T)
        requires
            field.shift_spec() < usize::BITS,
            T::accepts_bits(field.unpack_spec(self.word() as usize)),
            T::spec_from_bits(field.unpack_spec(self.word() as usize)) is Ok,
        ensures
            T::spec_from_bits(field.unpack_spec(self.word() as usize)) == Ok::<T, T::Error>(r),
    {
        field.unpack(self.0 as usize)
    }

    /// Checks that the fields' packing specs are valid and that no two of
    /// them share a bit.
    pub fn assert_valid()
        ensures
            spec_valid(0xf, 0) && spec_valid(0x70, 4) && spec_valid(0x80, 7) && spec_valid(0x300, 8)
                && spec_valid(0x7c00, 10) && spec_valid(0x8000, 15) && spec_valid(0x3f0000, 16),
            fields_disjoint(seq![0xfusize, 0x70, 0x80, 0x300, 0x7c00, 0x8000, 0x3f0000]),
    {
        Self::hello().assert_valid();
        Self::reserved_1().assert_valid();
        Self::world().assert_valid();
        Self::have().assert_valid();
        Self::lots().assert_valid();
        Self::of().assert_valid();
        Self::fun().assert_valid();
        proof {
            assert(0xfusize & 0x70 == 0 && 0xfusize & 0x80 == 0 && 0xfusize & 0x300 == 0 && 0xfusize
                & 0x7c00 == 0 && 0xfusize & 0x8000 == 0 && 0xfusize & 0x3f0000 == 0 && 0x70usize
                & 0x80 == 0 && 0x70usize & 0x300 == 0 && 0x70usize & 0x7c00 == 0 && 0x70usize
                & 0x8000 == 0 && 0x70usize & 0x3f0000 == 0 && 0x80usize & 0x300 == 0 && 0x80usize
                & 0x7c00 == 0 && 0x80usize & 0x8000 == 0 && 0x80usize & 0x3f0000 == 0 && 0x300usize
                & 0x7c00 == 0 && 0x300usize & 0x8000 == 0 && 0x300usize & 0x3f0000 == 0
                && 0x7c00usize & 0x8000 == 0 && 0x7c00usize & 0x3f0000 == 0 && 0x8000usize
                & 0x3f0000 == 0) by (bit_vector);
            let m = seq![0xfusize, 0x70, 0x80, 0x300, 0x7c00, 0x8000, 0x3f0000];
            assert forall|i: int, j: int| 0 <= i < j < m.len() implies #[trigger] m[i] & #[trigger] m[j]
                == 0 by {
                assert(m[0] == 0xf && m[1] == 0x70 && m[2] == 0x80 && m[3] == 0x300 && m[4] == 0x7c00
                    && m[5] == 0x8000 && m[6] == 0x3f0000);
            }
        }
    }
}

/// The bits of `w` under `mask`, shifted down by `shift`.
pub open spec fn unpack_field(w: u32, mask: usize, shift: usize) -> nat {
    (((w as usize) & mask) >> shift) as nat
}

/// How a flag is shown.
pub open spec fn bool_text(b: bool) -> Seq<char> {
    if b {
        "true"@
    } else {
        "false"@
    }
}

/// How a [`TestEnum`] is shown: the name of its variant.
pub open spec fn test_enum_text(e: TestEnum) -> Seq<char> {
    match e {
        TestEnum::Foo => "Foo"@,
        TestEnum::Bar => "Bar"@,
        TestEnum::Baz => "Baz"@,
        TestEnum::Qux => "Qux"@,
    }
}

/// The ASCII display of a [`TestBitfield`] holding `w`: its 32 bits, then a
/// line for each field but the reserved one (see [`field_line`]).
pub open spec fn test_bitfield_ascii(w: u32) -> Seq<char> {
    let hello = unpack_field(w, 0xf, 0);
    let world = unpack_field(w, 0x80, 7);
    let have = unpack_field(w, 0x300, 8);
    let lots = unpack_field(w, 0x7c00, 10);
    let of = unpack_field(w, 0x8000, 15);
    let fun = unpack_field(w, 0x3f0000, 16);
    binary_digits(w as nat, 32) + "\n"@ + field_line(32, 4, 4, hello, "HELLO"@, decimal_digits(hello))
        + field_line(32, 8, 1, world, "WORLD"@, bool_text(world != 0)) + field_line(
        32,
        10,
        2,
        have,
        "HAVE"@,
        test_enum_text(test_enum_from_byte(have as u8)),
    ) + field_line(32, 15, 5, lots, "LOTS"@, decimal_digits(lots)) + field_line(
        32,
        16,
        1,
        of,
        "OF"@,
        decimal_digits(of),
    ) + field_line(32, 22, 6, fun, "FUN"@, decimal_digits(fun))
}

/// The fields of a [`TestBitfield`], most significant first.
pub open spec fn test_bitfield_layout() -> Seq<FieldLayout> {
    seq![
        FieldLayout { name: "FUN", msb: 22, bits: 6 },
        FieldLayout { name: "OF", msb: 16, bits: 1 },
        FieldLayout { name: "LOTS", msb: 15, bits: 5 },
        FieldLayout { name: "HAVE", msb: 10, bits: 2 },
        FieldLayout { name: "WORLD", msb: 8, bits: 1 },
        FieldLayout { name: "_RESERVED_1", msb: 7, bits: 3 },
        FieldLayout { name: "HELLO", msb: 4, bits: 4 },
    ]
}

/// The bits of each field of a [`TestBitfield`] holding `w`, most
/// significant first.
pub open spec fn test_field_values(w: u32) -> Seq<usize> {
    seq![
        unpack_field(w, 0x3f0000, 16) as usize,
        unpack_field(w, 0x8000, 15) as usize,
        unpack_field(w, 0x7c00, 10) as usize,
        unpack_field(w, 0x300, 8) as usize,
        unpack_field(w, 0x80, 7) as usize,
        unpack_field(w, 0x70, 4) as usize,
        unpack_field(w, 0xf, 0) as usize,
    ]
}

/// How the value of each field of a [`TestBitfield`] holding `w` reads,
/// most significant first; the reserved field's value is not shown.
pub open spec fn test_field_texts(w: u32) -> Seq<Seq<char>> {
    seq![
        decimal_digits(unpack_field(w, 0x3f0000, 16)),
        decimal_digits(unpack_field(w, 0x8000, 15)),
        decimal_digits(unpack_field(w, 0x7c00, 10)),
        test_enum_text(test_enum_from_byte(unpack_field(w, 0x300, 8) as u8)),
        bool_text(unpack_field(w, 0x80, 7) != 0),
        seq![],
        decimal_digits(unpack_field(w, 0xf, 0)),
    ]
}

/// The Unicode display of a [`TestBitfield`] holding `w` (see
/// [`unicode_display_text`]).
pub open spec fn test_bitfield_unicode(w: u32) -> Seq<char> {
    unicode_display_text(w as nat, 32, test_bitfield_layout(), test_field_values(w), test_field_texts(w))
}

/// The layout of [`TestBitfield`] is valid, and its names are short.
proof fn lemma_test_layout()
    ensures
        layout_valid(test_bitfield_layout(), 32),
        max_name_len(test_bitfield_layout(), 7) <= 11,
{
    let fs = test_bitfield_layout();
    reveal_strlit("FUN");
    reveal_strlit("OF");
    reveal_strlit("LOTS");
    reveal_strlit("HAVE");
    reveal_strlit("WORLD");
    reveal_strlit("_RESERVED_1");
    reveal_strlit("HELLO");
    assert forall|i: int| 0 <= i < fs.len() implies #[trigger] fs[i].name@.len() <= 11 by {}
    unicode::lemma_max_name_len_bound(fs, 7, 11);
}

/// The text of a flag.
fn bool_string(b: bool) -> (r: String)
    ensures
        r@ == bool_text(b),
{
    if b {
        proof {
            reveal_strlit("true");
        }
        push_str(String::new(), "true")
    } else {
        proof {
            reveal_strlit("false");
        }
        push_str(String::new(), "false")
    }
}

/// The text of a [`TestEnum`].
fn test_enum_string(e: TestEnum) -> (r: String)
    ensures
        r@ == test_enum_text(e),
{
    let name = match e {
        TestEnum::Foo => "Foo",
        TestEnum::Bar => "Bar",
        TestEnum::Baz => "Baz",
        TestEnum::Qux => "Qux",
    };
    proof {
        reveal_strlit("Foo");
        reveal_strlit("Bar");
        reveal_strlit("Baz");
        reveal_strlit("Qux");
    }
    push_str(String::new(), name)
}

/// The field values of a 32-bit word are below their fields' sizes.
proof fn lemma_field_bounds(w: u32)
    ensures
        unpack_field(w, 0xf, 0) < 16,
        unpack_field(w, 0x80, 7) < 2,
        unpack_field(w, 0x300, 8) < 4,
        unpack_field(w, 0x7c00, 10) < 32,
        unpack_field(w, 0x8000, 15) < 2,
        unpack_field(w, 0x3f0000, 16) < 64,
        (w as usize as int) < pow2(32),
{
    let u = w as usize;
    assert(((u & 0xf) >> 0usize) < 16 && ((u & 0x80) >> 7usize) < 2 && ((u & 0x300) >> 8usize) < 4
        && ((u & 0x7c00) >> 10usize) < 32 && ((u & 0x8000) >> 15usize) < 2 && ((u & 0x3f0000)
        >> 16usize) < 64) by (bit_vector);
    vstd::arithmetic::power2::lemma2_to64();
}

impl TestBitfield {
    /// Returns the multi-line display of the bit field using ASCII
    /// characters only: the raw bits, then one line per field but the
    /// reserved one showing the field's bits in place, its name and its
    /// value.
    pub fn display_ascii(&self) -> (r: String)
        ensures
            r@ == test_bitfield_ascii(self.word()),
    {
        let w = self.0 as usize;
        proof {
            lemma_test_fields();
            lemma_field_bounds(self.0);
            vstd::arithmetic::power2::lemma2_to64();
            reveal_strlit("\n");
        }
        let s = push_string(String::new(), binary_text(w, 32));
        let s = push_str(s, "\n");
        let hello = Self::hello().unpack_bits(w);
        let s = push_field_line(s, 32, 4, 4, hello, "HELLO", decimal_text(hello));
        let world = Self::world().unpack_bits(w);
        let s = push_field_line(s, 32, 8, 1, world, "WORLD", bool_string(world != 0));
        let have = Self::have().unpack_bits(w);
        let have_value = test_enum_string(Self::have().unpack(w));
        let s = push_field_line(s, 32, 10, 2, have, "HAVE", have_value);
        let lots = Self::lots().unpack_bits(w);
        let s = push_field_line(s, 32, 15, 5, lots, "LOTS", decimal_text(lots));
        let of = Self::of().unpack_bits(w);
        let s = push_field_line(s, 32, 16, 1, of, "OF", decimal_text(of));
        let fun = Self::fun().unpack_bits(w);
        let s = push_field_line(s, 32, 22, 6, fun, "FUN", decimal_text(fun));
        proof {
            assert(s@ =~= test_bitfield_ascii(self.0));
        }
        s
    }

    /// Returns the multi-line display of the bit field drawn with Unicode
    /// box-drawing characters: the raw bits, a bracket under each field,
    /// then one line per field but the reserved one, led from the field's
    /// bracket to its name, its value and its bits.
    pub fn display_unicode(&self) -> (r: String)
        ensures
            r@ == test_bitfield_unicode(self.word()),
    {
        let w = self.0 as usize;
        proof {
            lemma_test_fields();
            lemma_field_bounds(self.0);
            vstd::arithmetic::power2::lemma2_to64();
        }
        let hello = Self::hello().unpack_bits(w);
        let reserved = Self::reserved_1().unpack_bits(w);
        let world = Self::world().unpack_bits(w);
        let have = Self::have().unpack_bits(w);
        let lots = Self::lots().unpack_bits(w);
        let of = Self::of().unpack_bits(w);
        let fun = Self::fun().unpack_bits(w);
        let fields = vec![
            FieldLayout { name: "FUN", msb: 22, bits: 6 },
            FieldLayout { name: "OF", msb: 16, bits: 1 },
            FieldLayout { name: "LOTS", msb: 15, bits: 5 },
            FieldLayout { name: "HAVE", msb: 10, bits: 2 },
            FieldLayout { name: "WORLD", msb: 8, bits: 1 },
            FieldLayout { name: "_RESERVED_1", msb: 7, bits: 3 },
            FieldLayout { name: "HELLO", msb: 4, bits: 4 },
        ];
        let values = vec![fun, of, lots, have, world, reserved, hello];
        let texts = vec![
            decimal_text(fun),
            decimal_text(of),
            decimal_text(lots),
            test_enum_string(Self::have().unpack(w)),
            bool_string(world != 0),
            String::new(),
            decimal_text(hello),
        ];
        proof {
            assert(fields@ =~= test_bitfield_layout());
            assert(values@ =~= test_field_values(self.0));
            assert(texts_view(texts@) =~= test_field_texts(self.0));
            lemma_test_layout();
            assert((reserved as int) < pow2(3)) by {
                let u = self.0 as usize;
                assert(((u & 0x70) >> 4usize) < 8) by (bit_vector);
            }
        }
        unicode_display(w, 32, &fields, &values, &texts)
    }

    /// Returns the default display of the bit field, which is
    /// [`TestBitfield::display_ascii`].
    pub fn to_string(&self) -> (r: String)
        ensures
            r@ == test_bitfield_ascii(self.word()),
    {
        self.display_ascii()
    }
}

/// No two masks of `masks` share a bit.
pub open spec fn fields_disjoint(masks: Seq<usize>) -> bool {
    forall|i: int, j: int| 0 <= i < j < masks.len() ==> #[trigger] masks[i] & #[trigger] masks[j] == 0
}

} // verus!
