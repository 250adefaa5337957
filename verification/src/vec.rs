//! A fixed-arity vector of four numbers, one component per ingredient tier.
//!
//! There are two numeric kinds: `u32` for quantities (inventories and
//! costs) and `i32` for signed changes. Arithmetic never wraps silently: an
//! operation whose exact result does not fit the component type is excluded by
//! the operation's precondition, and every result is stated over mathematical
//! integers.

use vstd::prelude::*;
use vstd::std_specs::convert::FromSpecImpl;
use vstd::std_specs::ops::AddSpecImpl;
use vstd::std_specs::ops::SubSpecImpl;

verus! {

/// Absolute value over the mathematical integers.
pub open spec fn abs(x: int) -> int {
    if x < 0 {
        -x
    } else {
        x
    }
}

/// Sum of the absolute values of the first four elements of `s`.
pub open spec fn norm1_of(s: Seq<int>) -> int {
    abs(s[0]) + abs(s[1]) + abs(s[2]) + abs(s[3])
}

/// Sum of the element-wise products of the first four elements of `a` and `b`.
pub open spec fn dot_of(a: Seq<int>, b: Seq<int>) -> int {
    a[0] * b[0] + a[1] * b[1] + a[2] * b[2] + a[3] * b[3]
}

/// The elements of `s` read as mathematical integers.
pub open spec fn unsigned_ints(s: Seq<u32>) -> Seq<int> {
    s.map_values(|x: u32| x as int)
}

/// The elements of `s` read as mathematical integers.
pub open spec fn signed_ints(s: Seq<i32>) -> Seq<int> {
    s.map_values(|x: i32| x as int)
}

/// Every negative element of `s` replaced by zero.
pub open spec fn positive_of(s: Seq<int>) -> Seq<int> {
    s.map_values(|x: int| if x > 0 { x } else { 0 })
}

/// What a plain numeric cast makes of an unsigned value: values up to
/// `i32::MAX` are kept, larger ones wrap around by `2^32`.
pub open spec fn cast_signed(x: u32) -> int {
    if x <= i32::MAX {
        x as int
    } else {
        x - 0x1_0000_0000
    }
}

/// Absolute value of a number, in its own numeric kind.
pub trait Abs: Sized {
    type Output;

    /// Whether the absolute value of `self` fits the numeric kind.
    spec fn has_absolute(&self) -> bool;

    /// The absolute value of `self`, where it fits.
    spec fn spec_absolute(&self) -> Self;

    fn absolute(&self) -> (r: Self)
        requires
            self.has_absolute(),
        ensures
            r == self.spec_absolute(),
    ;
}

impl Abs for u32 {
    type Output = Self;

    open spec fn has_absolute(&self) -> bool {
        true
    }

    open spec fn spec_absolute(&self) -> Self {
        *self
    }

    fn absolute(&self) -> (r: Self) {
        *self
    }
}

impl Abs for i32 {
    type Output = Self;

    open spec fn has_absolute(&self) -> bool {
        *self != i32::MIN
    }

    open spec fn spec_absolute(&self) -> Self {
        abs(*self as int) as i32
    }

    fn absolute(&self) -> (r: Self) {
        if *self < 0 {
            -*self
        } else {
            *self
        }
    }
}

/// A vector of exactly four components, indexed by ingredient tier.
///
/// Its view is the sequence of its components, which always has length four.
#[derive(Clone, Copy, Debug)]
pub struct Vec4<T> {
    data: [T; 4],
}

impl<T> View for Vec4<T> {
    type V = Seq<T>;

    closed spec fn view(&self) -> Seq<T> {
        self.data@
    }
}

impl<T> Vec4<T> {
    /// The vector with the given four components.
    pub closed spec fn quad(a: T, b: T, c: T, d: T) -> Self {
        Vec4 { data: [a, b, c, d] }
    }

    /// The components of `quad(a, b, c, d)` are `a`, `b`, `c`, `d`, in order.
    pub broadcast proof fn lemma_quad(a: T, b: T, c: T, d: T)
        ensures
            #[trigger] Self::quad(a, b, c, d)@ == seq![a, b, c, d],
    {
        assert(Self::quad(a, b, c, d)@ =~= seq![a, b, c, d]);
    }

    /// Every vector has exactly four components.
    pub broadcast proof fn lemma_len(self)
        ensures
            #[trigger] self@.len() == 4,
    {
    }

    /// Two vectors with the same components are the same vector.
    pub proof fn lemma_ext(self, other: Self)
        requires
            self@ == other@,
        ensures
            self == other,
    {
        assert(self.data =~= other.data);
    }
}

/// The facts about a vector's components that proofs use most.
pub broadcast group group_vec4 {
    Vec4::lemma_quad,
    Vec4::lemma_len,
}

impl<T> From<[T; 4]> for Vec4<T> {
    fn from(data: [T; 4]) -> (r: Self)
        ensures
            r@ == data@,
    {
        Self { data }
    }
}

impl<T> FromSpecImpl<[T; 4]> for Vec4<T> {
    open spec fn obeys_from_spec() -> bool {
        true
    }

    closed spec fn from_spec(data: [T; 4]) -> Self {
        Vec4 { data }
    }
}

impl<T> std::ops::Index<usize> for Vec4<T> {
    type Output = T;

    fn index(&self, index: usize) -> (r: &T)
        ensures
            *r == self@[index as int],
    {
        &self.data[index]
    }
}

impl<T> vstd::std_specs::core::IndexSpecImpl<usize> for Vec4<T> {
    open spec fn index_req(&self, index: &usize) -> bool {
        *index < 4
    }
}

impl<T> std::ops::IndexMut<usize> for Vec4<T> {
    fn index_mut(&mut self, index: usize) -> (r: &mut T)
        requires
            index < 4,
        ensures
            *r == old(self)@[index as int],
            final(self)@ == old(self)@.update(index as int, *final(r)),
    {
        &mut self.data[index]
    }
}

/// The exact product of two unsigned components.
fn product_unsigned(x: u32, y: u32) -> (p: u128)
    ensures
        p == x * y,
        p <= 0xffff_ffff_0000_0000,
{
    assert(0 <= x * y <= 0xffff_ffff_0000_0000) by (nonlinear_arith)
        requires
            0 <= x <= 0xffff_ffff,
            0 <= y <= 0xffff_ffff,
    ;
    (x as u128) * (y as u128)
}

/// The exact product of two signed components.
fn product_signed(x: i32, y: i32) -> (p: i128)
    ensures
        p == x * y,
        -0x4000_0000_0000_0000 <= p <= 0x4000_0000_0000_0000,
{
    assert(-0x4000_0000_0000_0000 <= x * y <= 0x4000_0000_0000_0000) by (nonlinear_arith)
        requires
            -0x8000_0000 <= x <= 0x7fff_ffff,
            -0x8000_0000 <= y <= 0x7fff_ffff,
    ;
    (x as i128) * (y as i128)
}

/// The plain numeric cast of an unsigned component to a signed one.
fn to_signed(x: u32) -> (r: i32)
    ensures
        r == cast_signed(x),
{
    if x <= 0x7fff_ffff {
        x as i32
    } else {
        (x as i64 - 0x1_0000_0000) as i32
    }
}

impl From<Vec4<u32>> for Vec4<i32> {
    /// Casts each component; exact for components up to `i32::MAX`.
    fn from(data: Vec4<u32>) -> (r: Self)
        ensures
            forall|i: int| 0 <= i < 4 ==> #[trigger] r@[i] == cast_signed(data@[i]),
    {
        Self {
            data: [
                to_signed(data.data[0]),
                to_signed(data.data[1]),
                to_signed(data.data[2]),
                to_signed(data.data[3]),
            ],
        }
    }
}

impl FromSpecImpl<Vec4<u32>> for Vec4<i32> {
    open spec fn obeys_from_spec() -> bool {
        true
    }

    open spec fn from_spec(data: Vec4<u32>) -> Self {
        Vec4::quad(
            cast_signed(data@[0]) as i32,
            cast_signed(data@[1]) as i32,
            cast_signed(data@[2]) as i32,
            cast_signed(data@[3]) as i32,
        )
    }
}

impl std::ops::Add for Vec4<u32> {
    type Output = Self;

    fn add(self, other: Self) -> (r: Self)
        ensures
            forall|i: int| 0 <= i < 4 ==> #[trigger] r@[i] == self@[i] + other@[i],
    {
        assert(self@[0] == self.data[0] && self@[1] == self.data[1] && self@[2] == self.data[2]
            && self@[3] == self.data[3]);
        Self {
            data: [
                self.data[0] + other.data[0],
                self.data[1] + other.data[1],
                self.data[2] + other.data[2],
                self.data[3] + other.data[3],
            ],
        }
    }
}

impl AddSpecImpl for Vec4<u32> {
    open spec fn obeys_add_spec() -> bool {
        true
    }

    open spec fn add_req(self, other: Self) -> bool {
        forall|i: int|
            #![trigger self@[i]]
            0 <= i < 4 ==> self@[i] + other@[i] <= u32::MAX
    }

    open spec fn add_spec(self, other: Self) -> Self {
        Vec4::quad(
            (self@[0] + other@[0]) as u32,
            (self@[1] + other@[1]) as u32,
            (self@[2] + other@[2]) as u32,
            (self@[3] + other@[3]) as u32,
        )
    }
}

impl std::ops::Sub for Vec4<u32> {
    type Output = Self;

    fn sub(self, other: Self) -> (r: Self)
        ensures
            forall|i: int| 0 <= i < 4 ==> #[trigger] r@[i] == self@[i] - other@[i],
    {
        assert(self@[0] == self.data[0] && self@[1] == self.data[1] && self@[2] == self.data[2]
            && self@[3] == self.data[3]);
        Self {
            data: [
                self.data[0] - other.data[0],
                self.data[1] - other.data[1],
                self.data[2] - other.data[2],
                self.data[3] - other.data[3],
            ],
        }
    }
}

impl SubSpecImpl for Vec4<u32> {
    open spec fn obeys_sub_spec() -> bool {
        true
    }

    open spec fn sub_req(self, other: Self) -> bool {
        forall|i: int|
            #![trigger self@[i]]
            0 <= i < 4 ==> self@[i] >= other@[i]
    }

    open spec fn sub_spec(self, other: Self) -> Self {
        Vec4::quad(
            (self@[0] - other@[0]) as u32,
            (self@[1] - other@[1]) as u32,
            (self@[2] - other@[2]) as u32,
            (self@[3] - other@[3]) as u32,
        )
    }
}

impl std::ops::Add for Vec4<i32> {
    type Output = Self;

    fn add(self, other: Self) -> (r: Self)
        ensures
            forall|i: int| 0 <= i < 4 ==> #[trigger] r@[i] == self@[i] + other@[i],
    {
        assert(self@[0] == self.data[0] && self@[1] == self.data[1] && self@[2] == self.data[2]
            && self@[3] == self.data[3]);
        Self {
            data: [
                self.data[0] + other.data[0],
                self.data[1] + other.data[1],
                self.data[2] + other.data[2],
                self.data[3] + other.data[3],
            ],
        }
    }
}

impl AddSpecImpl for Vec4<i32> {
    open spec fn obeys_add_spec() -> bool {
        true
    }

    open spec fn add_req(self, other: Self) -> bool {
        forall|i: int|
            #![trigger self@[i]]
            0 <= i < 4 ==> i32::MIN <= self@[i] + other@[i] <= i32::MAX
    }

    open spec fn add_spec(self, other: Self) -> Self {
        Vec4::quad(
            (self@[0] + other@[0]) as i32,
            (self@[1] + other@[1]) as i32,
            (self@[2] + other@[2]) as i32,
            (self@[3] + other@[3]) as i32,
        )
    }
}

impl std::ops::Sub for Vec4<i32> {
    type Output = Self;

    fn sub(self, other: Self) -> (r: Self)
        ensures
            forall|i: int| 0 <= i < 4 ==> #[trigger] r@[i] == self@[i] - other@[i],
    {
        assert(self@[0] == self.data[0] && self@[1] == self.data[1] && self@[2] == self.data[2]
            && self@[3] == self.data[3]);
        Self {
            data: [
                self.data[0] - other.data[0],
                self.data[1] - other.data[1],
                self.data[2] - other.data[2],
                self.data[3] - other.data[3],
            ],
        }
    }
}

impl SubSpecImpl for Vec4<i32> {
    open spec fn obeys_sub_spec() -> bool {
        true
    }

    open spec fn sub_req(self, other: Self) -> bool {
        forall|i: int|
            #![trigger self@[i]]
            0 <= i < 4 ==> i32::MIN <= self@[i] - other@[i] <= i32::MAX
    }

    open spec fn sub_spec(self, other: Self) -> Self {
        Vec4::quad(
            (self@[0] - other@[0]) as i32,
            (self@[1] - other@[1]) as i32,
            (self@[2] - other@[2]) as i32,
            (self@[3] - other@[3]) as i32,
        )
    }
}

impl Vec4<u32> {
    /// The components as mathematical integers.
    pub open spec fn ints(&self) -> Seq<int> {
        unsigned_ints(self@)
    }

    /// The sum of the absolute values of the four components; for unsigned
    /// components, their plain sum.
    pub fn norm1(&self) -> (r: u32)
        requires
            norm1_of(self.ints()) <= u32::MAX,
        ensures
            r == norm1_of(self.ints()),
            r == self@[0] + self@[1] + self@[2] + self@[3],
    {
        let a: u32 = self.data[0].absolute();
        let b: u32 = self.data[1].absolute();
        let c: u32 = self.data[2].absolute();
        let d: u32 = self.data[3].absolute();
        a + b + c + d
    }

    /// The sum of the element-wise products of `self` and `other`.
    pub fn dot_product(&self, other: &Self) -> (r: u32)
        requires
            dot_of(self.ints(), other.ints()) <= u32::MAX,
        ensures
            r == dot_of(self.ints(), other.ints()),
    {
        let p0: u128 = product_unsigned(self.data[0], other.data[0]);
        let p1: u128 = product_unsigned(self.data[1], other.data[1]);
        let p2: u128 = product_unsigned(self.data[2], other.data[2]);
        let p3: u128 = product_unsigned(self.data[3], other.data[3]);
        (p0 + p1 + p2 + p3) as u32
    }
}

impl Vec4<i32> {
    /// The components as mathematical integers.
    pub open spec fn ints(&self) -> Seq<int> {
        signed_ints(self@)
    }

    /// The sum of the absolute values of the four components.
    pub fn norm1(&self) -> (r: i32)
        requires
            norm1_of(self.ints()) <= i32::MAX,
        ensures
            r == norm1_of(self.ints()),
    {
        let a: i32 = self.data[0].absolute();
        let b: i32 = self.data[1].absolute();
        let c: i32 = self.data[2].absolute();
        let d: i32 = self.data[3].absolute();
        a + b + c + d
    }

    /// The sum of the element-wise products of `self` and `other`.
    pub fn dot_product(&self, other: &Self) -> (r: i32)
        requires
            i32::MIN <= dot_of(self.ints(), other.ints()) <= i32::MAX,
        ensures
            r == dot_of(self.ints(), other.ints()),
    {
        let p0: i128 = product_signed(self.data[0], other.data[0]);
        let p1: i128 = product_signed(self.data[1], other.data[1]);
        let p2: i128 = product_signed(self.data[2], other.data[2]);
        let p3: i128 = product_signed(self.data[3], other.data[3]);
        (p0 + p1 + p2 + p3) as i32
    }

    /// The vector with every negative component replaced by zero.
    pub fn positive(&self) -> (r: Self)
        ensures
            forall|i: int| 0 <= i < 4 ==> #[trigger] r@[i] == if self@[i] > 0 { self@[i] } else { 0 },
            r.ints() == positive_of(self.ints()),
    {
        let r: Self = [
            if self[0] > 0 { self[0] } else { 0 },
            if self[1] > 0 { self[1] } else { 0 },
            if self[2] > 0 { self[2] } else { 0 },
            if self[3] > 0 { self[3] } else { 0 },
        ].into();
        assert(r.ints() =~= positive_of(self.ints()));
        r
    }
}

} // verus!
