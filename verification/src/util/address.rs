use vstd::prelude::*;

verus! {

/// A raw address in the heap, kept as a plain machine word.
#[derive(Clone, Copy, Debug, PartialEq, Eq, Structural)]
pub struct Address(usize);

impl Address {
    /// The numeric value of an address.
    pub closed spec fn value(self) -> usize {
        self.0
    }

    /// The address whose value is `v`.
    pub closed spec fn from_value(v: usize) -> Address {
        Address(v)
    }

    /// The address built from a value has that value.
    pub broadcast proof fn lemma_from_value(v: usize)
        ensures
            #[trigger] Address::from_value(v).value() == v,
    {
    }

    /// Addresses with equal values are equal.
    pub broadcast proof fn lemma_value_injective(a: Address, b: Address)
        ensures
            #[trigger] a.value() == #[trigger] b.value() ==> a == b,
    {
    }

    /// Build an address from a machine word.
    pub fn from_usize(raw: usize) -> (a: Address)
        ensures
            a.value() == raw,
            a == Address::from_value(raw),
    {
        Address(raw)
    }

    /// The zero address.
    pub fn zero() -> (a: Address)
        ensures
            a.value() == 0,
    {
        Address(0)
    }

    /// The machine word of this address.
    pub fn as_usize(self) -> (r: usize)
        ensures
            r == self.value(),
    {
        self.0
    }

    /// Whether this is the zero address.
    pub fn is_zero(self) -> (r: bool)
        ensures
            r == (self.value() == 0),
    {
        self.0 == 0
    }

    /// The address `size` bytes above this one.
    pub fn add(self, size: usize) -> (a: Address)
        requires
            self.value() + size <= usize::MAX,
        ensures
            a.value() == self.value() + size,
    {
        Address(self.0 + size)
    }

    /// The address `size` bytes below this one.
    pub fn sub(self, size: usize) -> (a: Address)
        requires
            self.value() >= size,
        ensures
            a.value() == self.value() - size,
    {
        Address(self.0 - size)
    }

    /// The number of bytes from `other` up to this address.
    pub fn diff(self, other: Address) -> (r: usize)
        requires
            self.value() >= other.value(),
        ensures
            r == self.value() - other.value(),
    {
        self.0 - other.0
    }

    /// Whether the address is a multiple of `align`.
    pub fn is_aligned_to(self, align: usize) -> (r: bool)
        requires
            align > 0,
        ensures
            r == (self.value() % align == 0),
    {
        self.0 % align == 0
    }

    /// The smallest multiple of `align` that is not below this address.
    pub fn align_up(self, align: usize) -> (a: Address)
        requires
            align > 0,
            self.value() + align <= usize::MAX,
        ensures
            a.value() % align == 0,
            self.value() <= a.value() < self.value() + align,
    {
        let r = self.0 % align;
        if r == 0 {
            Address(self.0)
        } else {
            proof {
                vstd::arithmetic::div_mod::lemma_fundamental_div_mod(self.0 as int, align as int);
                vstd::arithmetic::div_mod::lemma_mod_multiples_basic(self.0 as int / align as int + 1, align as int);
                assert(self.0 + (align - r) == (self.0 as int / align as int + 1) * align) by (nonlinear_arith)
                    requires
                        self.0 == align * (self.0 as int / align as int) + r,
                ;
            }
            Address(self.0 + (align - r))
        }
    }
}

/// A reference to a heap object: a non-zero address.
#[derive(Clone, Copy, Debug, PartialEq, Eq, Structural)]
pub struct ObjectReference(usize);

impl ObjectReference {
    /// The raw address of the object.
    pub closed spec fn value(self) -> usize {
        self.0
    }

    /// Whether the reference respects its invariant (non-zero address).
    pub closed spec fn wf(self) -> bool {
        self.0 != 0
    }

    /// The reference whose value is `v`.
    pub closed spec fn from_value(v: usize) -> ObjectReference {
        ObjectReference(v)
    }

    /// The reference built from a value has that value.
    pub broadcast proof fn lemma_from_value(v: usize)
        ensures
            #[trigger] ObjectReference::from_value(v).value() == v,
    {
    }

    /// References with equal values are equal, and a well-formed reference is not zero.
    pub broadcast proof fn lemma_value_injective(a: ObjectReference, b: ObjectReference)
        ensures
            #[trigger] a.value() == #[trigger] b.value() ==> a == b,
            a.wf() <==> a.value() != 0,
    {
    }

    /// The object reference at `addr`, or `None` for the zero address.
    pub fn from_raw_address(addr: Address) -> (r: Option<ObjectReference>)
        ensures
            r is Some <==> addr.value() != 0,
            r matches Some(o) ==> o.value() == addr.value() && o.wf() && o
                == ObjectReference::from_value(addr.value()),
    {
        if addr.as_usize() == 0 {
            None
        } else {
            Some(ObjectReference(addr.as_usize()))
        }
    }

    /// The raw address of the object.
    pub closed spec fn to_address_spec(self) -> Address {
        Address::from_value(self.0)
    }

    /// The raw address of the object.
    pub fn to_raw_address(self) -> (a: Address)
        ensures
            a.value() == self.value(),
            a == self.to_address_spec(),
    {
        Address::from_usize(self.0)
    }
}

} // verus!
