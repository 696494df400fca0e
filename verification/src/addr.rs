use vstd::prelude::*;

verus! {

/// `n` is a power of two: exactly one bit of `n` is set.
pub open spec fn is_power_of_two(n: usize) -> bool {
    n != 0 && n & ((n - 1) as usize) == 0
}

/// `u` is a multiple of `align`.
pub open spec fn is_aligned_spec(u: int, align: int) -> bool {
    u % align == 0
}

/// The greatest multiple of `align` that is not above `u`.
pub open spec fn align_down_spec(u: int, align: int) -> int {
    u - u % align
}

/// The least multiple of `align` that is not below `u`.
pub open spec fn align_up_spec(u: int, align: int) -> int {
    if u % align == 0 {
        u
    } else {
        u - u % align + align
    }
}

/// `u` moved by `offset`, clamped to the range of `usize`.
pub open spec fn saturating_offset_spec(u: int, offset: int) -> int {
    if u + offset < 0 {
        0
    } else if u + offset > usize::MAX {
        usize::MAX as int
    } else {
        u + offset
    }
}

/// An x86_64 physical address has its 12 most significant bits clear.
pub open spec fn paddr_valid(u: usize) -> bool {
    (u as int) < 0x0010_0000_0000_0000
}

/// An x86_64 virtual address is canonical: bits 47 to 63 are all equal.
pub open spec fn vaddr_valid(u: usize) -> bool {
    (u as int) < 0x0000_8000_0000_0000 || (u as int) >= 0xFFFF_8000_0000_0000
}

/// For a power of two `a`, masking with `a - 1` is the remainder modulo `a`.
pub proof fn lemma_mask_is_mod(u: usize, a: usize)
    requires
        is_power_of_two(a),
    ensures
        u & ((a - 1) as usize) == u % a,
    decreases a,
{
    if a == 1 {
        assert(u & 0 == 0) by (bit_vector);
    } else {
        let h = a / 2;
        assert(h != 0 && h & ((h - 1) as usize) == 0 && a == 2 * h) by (bit_vector)
            requires
                a != 0,
                a != 1,
                a & ((a - 1) as usize) == 0,
                h == a / 2,
        ;
        lemma_mask_is_mod(u / 2, h);
        assert(u & ((a - 1) as usize) == 2 * ((u / 2) & ((h - 1) as usize)) + u % 2)
            by (bit_vector)
            requires
                a != 0,
                a != 1,
                a & ((a - 1) as usize) == 0,
                h == a / 2,
        ;
        vstd::arithmetic::div_mod::lemma_mod_breakdown(u as int, 2, h as int);
    }
}

/// The bit operations that align an address compute `align_down_spec` and
/// `align_up_spec`.
pub proof fn lemma_align_bits(u: usize, a: usize)
    requires
        is_power_of_two(a),
    ensures
        (u & !((a - 1) as usize)) as int == align_down_spec(u as int, a as int),
        u & ((a - 1) as usize) != 0 ==> (u | ((a - 1) as usize)) as int + 1 == align_up_spec(
            u as int,
            a as int,
        ),
        u % a < a,
{
    lemma_mask_is_mod(u, a);
    let m = (a - 1) as usize;
    assert((u & !m) as int == u as int - (u & m) as int) by (bit_vector);
    assert((u | m) as int == u as int - (u & m) as int + m as int) by (bit_vector);
}

/// Errors returned when constructing an address that is not valid on the
/// target architecture.
#[derive(Clone, Debug)]
pub struct InvalidAddress {
    msg: &'static str,
    addr: usize,
}

impl InvalidAddress {
    /// The rejected address.
    pub closed spec fn spec_addr(&self) -> usize {
        self.addr
    }

    /// The reason the address was rejected.
    pub closed spec fn spec_msg(&self) -> &'static str {
        self.msg
    }

    /// Returns an error rejecting `addr` for the reason `msg`.
    pub fn new(addr: usize, msg: &'static str) -> (r: Self)
        ensures
            r.spec_addr() == addr,
            r.spec_msg() == msg,
    {
        Self { msg, addr }
    }

    /// Returns the address that was rejected.
    pub fn addr(&self) -> (r: usize)
        ensures
            r == self.spec_addr(),
    {
        self.addr
    }

    /// Returns the reason the address was rejected.
    pub fn msg(&self) -> (r: &'static str)
        ensures
            r == self.spec_msg(),
    {
        self.msg
    }
}

/// Operations shared by physical and virtual addresses.
///
/// An implementation states which integers are valid addresses, and converts
/// between addresses and integers without changing the value.
pub trait Address: Copy + Sized {
    /// The integer value of the address.
    spec fn addr(&self) -> usize;

    /// Whether `u` is a valid address of this kind.
    spec fn valid(u: usize) -> bool;

    fn as_usize(self) -> (r: usize)
        ensures
            r == self.addr(),
    ;

    /// Returns the address with integer value `u`, which must be a valid
    /// address of this kind.
    fn from_usize(u: usize) -> (r: Self)
        requires
            Self::valid(u),
        ensures
            r.addr() == u,
    ;

    /// Aligns `self` up to `align`, which must be a power of two.
    fn align_up(self, align: usize) -> (r: Self)
        requires
            is_power_of_two(align),
            align_up_spec(self.addr() as int, align as int) <= usize::MAX,
            Self::valid(align_up_spec(self.addr() as int, align as int) as usize),
        ensures
            r.addr() as int == align_up_spec(self.addr() as int, align as int),
    {
        let mask = align - 1;
        let u = self.as_usize();
        proof {
            lemma_align_bits(u, align);
            lemma_mask_is_mod(u, align);
        }
        if u & mask == 0 {
            return self;
        }
        proof {
            assert(u | mask != usize::MAX) by {
                assert((u | mask) as int + 1 == align_up_spec(u as int, align as int));
            }
        }
        let aligned = (u | mask) + 1;
        Self::from_usize(aligned)
    }

    /// Aligns `self` down to `align`, which must be a power of two.
    fn align_down(self, align: usize) -> (r: Self)
        requires
            is_power_of_two(align),
            Self::valid(align_down_spec(self.addr() as int, align as int) as usize),
        ensures
            r.addr() as int == align_down_spec(self.addr() as int, align as int),
    {
        proof {
            lemma_align_bits(self.addr(), align);
        }
        let aligned = self.as_usize() & !(align - 1);
        Self::from_usize(aligned)
    }

    /// Offsets this address by `offset`, saturating at the bounds of `usize`.
    fn offset(self, offset: i32) -> (r: Self)
        requires
            Self::valid(saturating_offset_spec(self.addr() as int, offset as int) as usize),
        ensures
            r.addr() as int == saturating_offset_spec(self.addr() as int, offset as int),
    {
        let u = self.as_usize();
        let v = if offset > 0 {
            u.saturating_add(offset as usize)
        } else {
            let back = (-(offset as i64)) as usize;
            u.saturating_sub(back)
        };
        Self::from_usize(v)
    }

    /// Returns the difference between `self` and `other`.
    fn difference(self, other: Self) -> (r: isize)
        requires
            self.addr() > other.addr() ==> isize::MIN < (self.addr() as isize) - (
            other.addr() as isize) <= isize::MAX,
            self.addr() <= other.addr() ==> other.addr() - self.addr() <= isize::MAX,
        ensures
            self.addr() > other.addr() ==> r == -((self.addr() as isize) - (other.addr() as isize)),
            self.addr() <= other.addr() ==> r == other.addr() - self.addr(),
    {
        let s = self.as_usize();
        let o = other.as_usize();
        if s > o {
            -(s as isize - o as isize)
        } else {
            (o - s) as isize
        }
    }

    /// Adds `rhs` bytes to this address.
    fn add(self, rhs: usize) -> (r: Self)
        requires
            self.addr() + rhs <= usize::MAX,
            Self::valid((self.addr() + rhs) as usize),
        ensures
            r.addr() == self.addr() + rhs,
    {
        Self::from_usize(self.as_usize() + rhs)
    }

    /// Subtracts `rhs` bytes from this address.
    fn sub(self, rhs: usize) -> (r: Self)
        requires
            self.addr() >= rhs,
            Self::valid((self.addr() - rhs) as usize),
        ensures
            r.addr() == self.addr() - rhs,
    {
        Self::from_usize(self.as_usize() - rhs)
    }

    /// Returns `true` if `self` is aligned on `align`, which must be a power
    /// of two.
    fn is_aligned(self, align: usize) -> (r: bool)
        requires
            is_power_of_two(align),
        ensures
            r == is_aligned_spec(self.addr() as int, align as int),
    {
        proof {
            lemma_mask_is_mod(self.addr(), align);
        }
        self.as_usize() & (align - 1) == 0
    }
}

/// A physical address.
#[derive(Copy, Clone, Debug, PartialEq, Eq, PartialOrd, Ord, Hash)]
pub struct PAddr(usize);

/// A virtual address.
#[derive(Copy, Clone, Debug, PartialEq, Eq, PartialOrd, Ord, Hash)]
pub struct VAddr(usize);

impl Address for PAddr {
    closed spec fn addr(&self) -> usize {
        self.0
    }

    open spec fn valid(u: usize) -> bool {
        paddr_valid(u)
    }

    fn as_usize(self) -> (r: usize) {
        self.0
    }

    fn from_usize(u: usize) -> (r: Self) {
        PAddr(u)
    }
}

impl Address for VAddr {
    closed spec fn addr(&self) -> usize {
        self.0
    }

    open spec fn valid(u: usize) -> bool {
        vaddr_valid(u)
    }

    fn as_usize(self) -> (r: usize) {
        self.0
    }

    fn from_usize(u: usize) -> (r: Self) {
        VAddr(u)
    }
}

impl PAddr {
    /// The zero address.
    pub fn zero() -> (r: Self)
        ensures
            r.addr() == 0,
    {
        PAddr(0)
    }

    /// Constructs a physical address, checking that it is valid on x86_64.
    pub fn from_usize_checked(u: usize) -> (r: Result<Self, InvalidAddress>)
        ensures
            r is Ok <==> paddr_valid(u),
            r matches Ok(a) ==> a.addr() == u,
            r matches Err(e) ==> e.spec_addr() == u,
    {
        let x = u as u64;
        if x & 0xFFF0_0000_0000_0000u64 != 0 {
            assert(x & 0xFFF0_0000_0000_0000u64 != 0 ==> x >= 0x0010_0000_0000_0000u64)
                by (bit_vector);
            return Err(
                InvalidAddress::new(
                    u,
                    "x86_64 physical addresses may not have the 12 most significant bits set!",
                ),
            );
        }
        assert(x & 0xFFF0_0000_0000_0000u64 == 0 ==> x < 0x0010_0000_0000_0000u64)
            by (bit_vector);
        Ok(PAddr(u))
    }

    /// Constructs a physical address from a `u64`.
    pub fn from_u64(u: u64) -> (r: Self)
        requires
            u <= usize::MAX,
            paddr_valid(u as usize),
        ensures
            r.addr() == u,
    {
        Self::from_usize(u as usize)
    }

    /// Aligns `self` up to `align`, which must be a power of two.
    pub fn align_up(self, align: usize) -> (r: Self)
        requires
            is_power_of_two(align),
            align_up_spec(self.addr() as int, align as int) <= usize::MAX,
            paddr_valid(align_up_spec(self.addr() as int, align as int) as usize),
        ensures
            r.addr() as int == align_up_spec(self.addr() as int, align as int),
    {
        Address::align_up(self, align)
    }

    /// Aligns `self` down to `align`, which must be a power of two.
    pub fn align_down(self, align: usize) -> (r: Self)
        requires
            is_power_of_two(align),
            paddr_valid(align_down_spec(self.addr() as int, align as int) as usize),
        ensures
            r.addr() as int == align_down_spec(self.addr() as int, align as int),
    {
        Address::align_down(self, align)
    }

    /// Offsets this address by `offset`, saturating at the bounds of `usize`.
    pub fn offset(self, offset: i32) -> (r: Self)
        requires
            paddr_valid(saturating_offset_spec(self.addr() as int, offset as int) as usize),
        ensures
            r.addr() as int == saturating_offset_spec(self.addr() as int, offset as int),
    {
        Address::offset(self, offset)
    }

    /// Returns `true` if `self` is aligned on `align`.
    pub fn is_aligned(self, align: usize) -> (r: bool)
        requires
            is_power_of_two(align),
        ensures
            r == is_aligned_spec(self.addr() as int, align as int),
    {
        Address::is_aligned(self, align)
    }

}

impl VAddr {
    /// The zero address.
    pub fn zero() -> (r: Self)
        ensures
            r.addr() == 0,
    {
        VAddr(0)
    }

    /// Constructs a virtual address, checking that it is canonical on x86_64
    /// (bit 47 sign-extended into bits 48 to 63).
    pub fn from_usize_checked(u: usize) -> (r: Result<Self, InvalidAddress>)
        ensures
            r is Ok <==> vaddr_valid(u),
            r matches Ok(a) ==> a.addr() == u,
            r matches Err(e) ==> e.spec_addr() == u,
    {
        let x = u as u64;
        let top = x >> 47u64;
        assert(top == 0 <==> x < 0x0000_8000_0000_0000u64) by (bit_vector)
            requires
                top == x >> 47u64,
        ;
        assert(top == 0x1_FFFFu64 <==> x >= 0xFFFF_8000_0000_0000u64) by (bit_vector)
            requires
                top == x >> 47u64,
        ;
        if top != 0 && top != 0x1_FFFF {
            return Err(
                InvalidAddress::new(u, "x86_64 virtual addresses must be in canonical form"),
            );
        }
        Ok(VAddr(u))
    }

    /// Constructs a virtual address from a `u64`.
    pub fn from_u64(u: u64) -> (r: Self)
        requires
            u <= usize::MAX,
            vaddr_valid(u as usize),
        ensures
            r.addr() == u,
    {
        Self::from_usize(u as usize)
    }

    /// Aligns `self` up to `align`, which must be a power of two.
    pub fn align_up(self, align: usize) -> (r: Self)
        requires
            is_power_of_two(align),
            align_up_spec(self.addr() as int, align as int) <= usize::MAX,
            vaddr_valid(align_up_spec(self.addr() as int, align as int) as usize),
        ensures
            r.addr() as int == align_up_spec(self.addr() as int, align as int),
    {
        Address::align_up(self, align)
    }

    /// Aligns `self` down to `align`, which must be a power of two.
    pub fn align_down(self, align: usize) -> (r: Self)
        requires
            is_power_of_two(align),
            vaddr_valid(align_down_spec(self.addr() as int, align as int) as usize),
        ensures
            r.addr() as int == align_down_spec(self.addr() as int, align as int),
    {
        Address::align_down(self, align)
    }

    /// Offsets this address by `offset`, saturating at the bounds of `usize`.
    pub fn offset(self, offset: i32) -> (r: Self)
        requires
            vaddr_valid(saturating_offset_spec(self.addr() as int, offset as int) as usize),
        ensures
            r.addr() as int == saturating_offset_spec(self.addr() as int, offset as int),
    {
        Address::offset(self, offset)
    }

    /// Returns `true` if `self` is aligned on `align`.
    pub fn is_aligned(self, align: usize) -> (r: bool)
        requires
            is_power_of_two(align),
        ensures
            r == is_aligned_spec(self.addr() as int, align as int),
    {
        Address::is_aligned(self, align)
    }

}

/// Aligning up to a power of two gives the least multiple of it that is not
/// below the address: the address itself exactly when it is aligned
/// already, so that aligning twice is aligning once.
pub proof fn law_align_up(u: usize, align: usize)
    requires
        is_power_of_two(align),
    ensures
        is_aligned_spec(align_up_spec(u as int, align as int), align as int),
        u <= align_up_spec(u as int, align as int) < u + align,
        align_up_spec(u as int, align as int) == u <==> is_aligned_spec(u as int, align as int),
        align_up_spec(align_up_spec(u as int, align as int), align as int) == align_up_spec(
            u as int,
            align as int,
        ),
{
    assert(align > 0) by (bit_vector)
        requires
            align != 0,
    ;
    vstd::arithmetic::div_mod::lemma_fundamental_div_mod(u as int, align as int);
    if (u as int) % (align as int) != 0 {
        vstd::arithmetic::div_mod::lemma_mod_multiples_vanish(
            1,
            u as int - (u as int) % (align as int),
            align as int,
        );
        vstd::arithmetic::div_mod::lemma_mod_multiples_vanish(
            (u as int) / (align as int),
            0,
            align as int,
        );
        assert((u as int - (u as int) % (align as int)) == (align as int) * ((u as int) / (align as int)));
    }
}

/// Aligning down to a power of two gives the greatest multiple of it that
/// is not above the address.
pub proof fn law_align_down(u: usize, align: usize)
    requires
        is_power_of_two(align),
    ensures
        is_aligned_spec(align_down_spec(u as int, align as int), align as int),
        u - align < align_down_spec(u as int, align as int) <= u,
{
    assert(align > 0) by (bit_vector)
        requires
            align != 0,
    ;
    vstd::arithmetic::div_mod::lemma_fundamental_div_mod(u as int, align as int);
    vstd::arithmetic::div_mod::lemma_mod_multiples_vanish(
        (u as int) / (align as int),
        0,
        align as int,
    );
}

} // verus!
