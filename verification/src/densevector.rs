//! A fixed-length vector stored in one contiguous buffer.

use vstd::prelude::*;
use vstd::std_specs::cmp::PartialEqSpec;

verus! {

/// Why an operation on vectors was refused.
#[derive(Debug, PartialEq)]
pub enum Error {
    /// Two vectors that were to be combined differ in size.
    MismatchedVectorSizes,
    /// The source of the elements could not announce how many it holds.
    UnsizedSource,
}

/// A vector that stores its values in a contiguous indexed array internally.
///
/// Its model is the sequence of its elements, in storage order. A vector is
/// never changed after it was built: every operation reads it or builds a new
/// one.
#[derive(Debug)]
pub struct DenseVector<T> {
    ns: Vec<T>,
}

impl<T> View for DenseVector<T> {
    type V = Seq<T>;

    closed spec fn view(&self) -> Seq<T> {
        self.ns@
    }
}

/// What reading position `i` of `s` gives when every position past the end
/// holds `zero`.
pub open spec fn padded<T>(s: Seq<T>, i: int, zero: T) -> T {
    if 0 <= i < s.len() {
        s[i]
    } else {
        zero
    }
}

/// `products` and `sums` record a left-to-right accumulation of the
/// elementwise products of `a` and `b`: `products[i]` is a result of `times` on
/// `a[i]` and `b[i]`, `sums[0]` is `zero`, and each `sums[i + 1]` is a result
/// of `plus` on `sums[i]` and `products[i]`.
pub open spec fn accumulates<T, M: Fn(T, T) -> T, A: Fn(T, T) -> T>(
    a: Seq<T>,
    b: Seq<T>,
    zero: T,
    times: M,
    plus: A,
    products: Seq<T>,
    sums: Seq<T>,
) -> bool {
    &&& a.len() == b.len()
    &&& products.len() == a.len()
    &&& sums.len() == a.len() + 1
    &&& sums[0] == zero
    &&& forall|i: int|
        0 <= i < a.len() ==> times.ensures((a[i], b[i]), #[trigger] products[i]) && plus.ensures(
            (sums[i], products[i]),
            sums[i + 1],
        )
}

/// `total` is a possible value of the sum of the elementwise products of `a`
/// and `b`, accumulated from `zero` in storage order.
pub open spec fn is_inner_product<T, M: Fn(T, T) -> T, A: Fn(T, T) -> T>(
    a: Seq<T>,
    b: Seq<T>,
    zero: T,
    times: M,
    plus: A,
    total: T,
) -> bool {
    exists|products: Seq<T>, sums: Seq<T>|
        #[trigger] accumulates(a, b, zero, times, plus, products, sums) && sums[a.len() as int]
            == total
}

/// `v` is a possible result of multiplying every element of `a` by `k`: it has
/// the size of `a`, and `v[i]` is a result of `times` on `a[i]` and `k`.
pub open spec fn is_scaled<T, M: Fn(T, T) -> T>(a: Seq<T>, k: T, times: M, v: Seq<T>) -> bool {
    &&& v.len() == a.len()
    &&& forall|i: int| 0 <= i < a.len() ==> times.ensures((a[i], k), #[trigger] v[i])
}

/// `f` gives at most one result for each pair of arguments.
pub open spec fn is_single_valued<T, F: Fn(T, T) -> T>(f: F) -> bool {
    forall|x: T, y: T, p: T, q: T|
        #[trigger] f.ensures((x, y), p) && #[trigger] f.ensures((x, y), q) ==> p == q
}

/// Two accumulations over the same operands pass through the same partial
/// sums, where `times` and `plus` give one result each.
proof fn lemma_partial_sums_agree<T, M: Fn(T, T) -> T, A: Fn(T, T) -> T>(
    a: Seq<T>,
    b: Seq<T>,
    zero: T,
    times: M,
    plus: A,
    products1: Seq<T>,
    sums1: Seq<T>,
    products2: Seq<T>,
    sums2: Seq<T>,
    i: int,
)
    requires
        is_single_valued(times),
        is_single_valued(plus),
        accumulates(a, b, zero, times, plus, products1, sums1),
        accumulates(a, b, zero, times, plus, products2, sums2),
        0 <= i <= a.len(),
    ensures
        sums1[i] == sums2[i],
    decreases i,
{
    if i > 0 {
        lemma_partial_sums_agree(
            a,
            b,
            zero,
            times,
            plus,
            products1,
            sums1,
            products2,
            sums2,
            i - 1,
        );
        assert(times.ensures((a[i - 1], b[i - 1]), products1[i - 1]));
        assert(times.ensures((a[i - 1], b[i - 1]), products2[i - 1]));
        assert(plus.ensures((sums1[i - 1], products1[i - 1]), sums1[i - 1 + 1]));
        assert(plus.ensures((sums2[i - 1], products2[i - 1]), sums2[i - 1 + 1]));
    }
}

/// The operands determine the inner product: where `times` and `plus` give
/// one result each, the inner product of `a` and `b` can take one value only.
pub proof fn lemma_inner_product_is_determined<T, M: Fn(T, T) -> T, A: Fn(T, T) -> T>(
    a: Seq<T>,
    b: Seq<T>,
    zero: T,
    times: M,
    plus: A,
    total1: T,
    total2: T,
)
    requires
        is_single_valued(times),
        is_single_valued(plus),
        is_inner_product(a, b, zero, times, plus, total1),
        is_inner_product(a, b, zero, times, plus, total2),
    ensures
        total1 == total2,
{
    let (products1, sums1) = choose|products: Seq<T>, sums: Seq<T>|
        #[trigger] accumulates(a, b, zero, times, plus, products, sums) && sums[a.len() as int]
            == total1;
    let (products2, sums2) = choose|products: Seq<T>, sums: Seq<T>|
        #[trigger] accumulates(a, b, zero, times, plus, products, sums) && sums[a.len() as int]
            == total2;
    lemma_partial_sums_agree(
        a,
        b,
        zero,
        times,
        plus,
        products1,
        sums1,
        products2,
        sums2,
        a.len() as int,
    );
}

/// The operands determine the scaled vector: where `times` gives one result,
/// scaling `a` by `k` can give one vector only.
pub proof fn lemma_scaled_is_determined<T, M: Fn(T, T) -> T>(
    a: Seq<T>,
    k: T,
    times: M,
    v1: Seq<T>,
    v2: Seq<T>,
)
    requires
        is_single_valued(times),
        is_scaled(a, k, times, v1),
        is_scaled(a, k, times, v2),
    ensures
        v1 == v2,
{
    assert forall|i: int| 0 <= i < a.len() implies v1[i] == v2[i] by {
        assert(times.ensures((a[i], k), v1[i]));
        assert(times.ensures((a[i], k), v2[i]));
    }
    assert(v1 =~= v2);
}

/// The inner product is commutative wherever the multiplication of the
/// elements is: if `times` gives for `(y, x)` whatever it gives for `(x, y)`,
/// then every value that the inner product of `a` and `b` can take is one that
/// the inner product of `b` and `a` can take.
pub proof fn lemma_inner_product_commutes<T, M: Fn(T, T) -> T, A: Fn(T, T) -> T>(
    a: Seq<T>,
    b: Seq<T>,
    zero: T,
    times: M,
    plus: A,
    total: T,
)
    requires
        forall|x: T, y: T, p: T| #[trigger] times.ensures((x, y), p) ==> times.ensures((y, x), p),
        is_inner_product(a, b, zero, times, plus, total),
    ensures
        is_inner_product(b, a, zero, times, plus, total),
{
    let (products, sums) = choose|products: Seq<T>, sums: Seq<T>|
        #[trigger] accumulates(a, b, zero, times, plus, products, sums) && sums[a.len() as int]
            == total;
    assert forall|i: int| 0 <= i < b.len() implies times.ensures(
        (b[i], a[i]),
        #[trigger] products[i],
    ) && plus.ensures((sums[i], products[i]), sums[i + 1]) by {
        assert(times.ensures((a[i], b[i]), products[i]));
    }
    assert(accumulates(b, a, zero, times, plus, products, sums));
}

/// The inner product of the empty vector with itself is `zero`.
pub proof fn lemma_inner_product_of_nothing<T, M: Fn(T, T) -> T, A: Fn(T, T) -> T>(
    zero: T,
    times: M,
    plus: A,
    total: T,
)
    ensures
        is_inner_product(Seq::<T>::empty(), Seq::<T>::empty(), zero, times, plus, total) <==> total
            == zero,
{
    if total == zero {
        assert(accumulates(
            Seq::<T>::empty(),
            Seq::<T>::empty(),
            zero,
            times,
            plus,
            Seq::<T>::empty(),
            seq![zero],
        ));
    }
}

/// Scaling twice is scaling by the product of the two scalars, wherever the
/// multiplication of the elements is associative for them: let `c` be a
/// product of `c1` and `c2`, and let every result of multiplying by `c1` and
/// then by `c2` be a result of multiplying by `c`. Then every vector that
/// comes of scaling `a` by `c1` and the outcome by `c2` is one that comes of
/// scaling `a` by `c`.
pub proof fn lemma_scale_twice<T, M: Fn(T, T) -> T>(
    a: Seq<T>,
    c1: T,
    c2: T,
    c: T,
    times: M,
    once: Seq<T>,
    twice: Seq<T>,
)
    requires
        times.ensures((c1, c2), c),
        forall|x: T, u: T, w: T|
            #[trigger] times.ensures((x, c1), u) && #[trigger] times.ensures((u, c2), w)
                ==> times.ensures((x, c), w),
        is_scaled(a, c1, times, once),
        is_scaled(once, c2, times, twice),
    ensures
        is_scaled(a, c, times, twice),
{
    assert forall|i: int| 0 <= i < a.len() implies times.ensures((a[i], c), #[trigger] twice[i]) by {
        assert(times.ensures((a[i], c1), once[i]));
        assert(times.ensures((once[i], c2), twice[i]));
    }
}

/// Sums the elementwise products of two buffers of one length.
fn fold_products<T: Copy, M: Fn(T, T) -> T, A: Fn(T, T) -> T>(
    a: &Vec<T>,
    b: &Vec<T>,
    zero: T,
    times: M,
    plus: A,
) -> (total: T)
    requires
        a.len() == b.len(),
        forall|x: T, y: T| times.requires((x, y)),
        forall|x: T, y: T| plus.requires((x, y)),
    ensures
        is_inner_product(a@, b@, zero, times, plus, total),
{
    let mut acc: T = zero;
    let ghost mut products: Seq<T> = Seq::empty();
    let ghost mut sums: Seq<T> = seq![zero];
    let mut i: usize = 0;
    while i < a.len()
        invariant
            a.len() == b.len(),
            i <= a.len(),
            forall|x: T, y: T| times.requires((x, y)),
            forall|x: T, y: T| plus.requires((x, y)),
            products.len() == i,
            sums.len() == i + 1,
            sums[0] == zero,
            sums[i as int] == acc,
            forall|k: int|
                0 <= k < i ==> times.ensures((a@[k], b@[k]), #[trigger] products[k]) && plus.ensures(
                    (sums[k], products[k]),
                    sums[k + 1],
                ),
        decreases a.len() - i,
    {
        let p: T = times(a[i], b[i]);
        let next: T = plus(acc, p);
        proof {
            products = products.push(p);
            sums = sums.push(next);
        }
        acc = next;
        i = i + 1;
    }
    proof {
        assert(accumulates(a@, b@, zero, times, plus, products, sums));
    }
    acc
}

impl<T: Copy> DenseVector<T> {
    /// Number of values in this vector.
    pub fn size(&self) -> (n: usize)
        ensures
            n == self@.len(),
    {
        self.ns.len()
    }

    /// Creates a vector that holds `items`, in their order.
    pub fn from_iter(items: Vec<T>) -> (v: DenseVector<T>)
        ensures
            v@ == items@,
    {
        DenseVector { ns: items }
    }

    /// Creates a vector from a collection that knows its own size.
    pub fn from(x: Vec<T>) -> (v: DenseVector<T>)
        ensures
            v@ == x@,
    {
        DenseVector::from_iter(x)
    }

    /// Creates a vector from the elements drawn from a source and the count
    /// that the source announced before it was consumed (`None` where it could
    /// announce none). A source without a count is refused; otherwise the
    /// vector holds `items`.
    pub fn from_source(items: Vec<T>, count: Option<usize>) -> (r: Result<DenseVector<T>, Error>)
        ensures
            count is None ==> r == Err::<DenseVector<T>, Error>(Error::UnsizedSource),
            count is Some ==> r is Ok && r->Ok_0@ == items@,
    {
        match count {
            None => Err(Error::UnsizedSource),
            Some(_) => Ok(DenseVector::from_iter(items)),
        }
    }

    /// The stored values, in storage order, borrowed.
    pub fn iter(&self) -> (items: &[T])
        ensures
            items@ == self@,
    {
        self.ns.as_slice()
    }

    /// The stored values, in storage order, by value.
    pub fn into_iter(self) -> (items: Vec<T>)
        ensures
            items@ == self@,
    {
        self.ns
    }

    /// Reads position `index` of the vector taken as padded without end by
    /// `zero`: a position past the last element gives `zero` and is no error.
    pub fn index(&self, index: usize, zero: T) -> (x: T)
        ensures
            x == padded(self@, index as int, zero),
    {
        if index < self.ns.len() {
            self.ns[index]
        } else {
            zero
        }
    }

    /// Multiplies every element by `rhs` and gives the results as a new vector
    /// of the same size: element `i` is a result of `times` on the old element
    /// `i` and `rhs`.
    pub fn scale<M: Fn(T, T) -> T>(self, rhs: T, times: M) -> (v: DenseVector<T>)
        requires
            forall|x: T, y: T| times.requires((x, y)),
        ensures
            is_scaled(self@, rhs, times, v@),
    {
        let mut out: Vec<T> = Vec::new();
        let mut i: usize = 0;
        while i < self.ns.len()
            invariant
                i <= self.ns.len(),
                out.len() == i,
                forall|x: T, y: T| times.requires((x, y)),
                forall|k: int| 0 <= k < i ==> times.ensures((self.ns@[k], rhs), #[trigger] out@[k]),
            decreases self.ns.len() - i,
        {
            out.push(times(self.ns[i], rhs));
            i = i + 1;
        }
        DenseVector { ns: out }
    }

    /// Inner product. Vectors of different sizes are refused; otherwise the
    /// result is the sum of the elementwise products, accumulated from `zero`
    /// in storage order.
    pub fn dot<M: Fn(T, T) -> T, A: Fn(T, T) -> T>(
        self,
        rhs: DenseVector<T>,
        zero: T,
        times: M,
        plus: A,
    ) -> (r: Result<T, Error>)
        requires
            forall|x: T, y: T| times.requires((x, y)),
            forall|x: T, y: T| plus.requires((x, y)),
        ensures
            self@.len() != rhs@.len() ==> r == Err::<T, Error>(Error::MismatchedVectorSizes),
            self@.len() == rhs@.len() ==> r is Ok && is_inner_product(
                self@,
                rhs@,
                zero,
                times,
                plus,
                r->Ok_0,
            ),
    {
        if self.size() != rhs.size() {
            Err(Error::MismatchedVectorSizes)
        } else {
            Ok(fold_products(&self.ns, &rhs.ns, zero, times, plus))
        }
    }

    /// Euclidean length: a result of `root` on the inner product of the vector
    /// with itself. For the empty vector that is `root` of `zero`.
    pub fn length<M: Fn(T, T) -> T, A: Fn(T, T) -> T, R: Fn(T) -> T>(
        &self,
        zero: T,
        times: M,
        plus: A,
        root: R,
    ) -> (len: T)
        requires
            forall|x: T, y: T| times.requires((x, y)),
            forall|x: T, y: T| plus.requires((x, y)),
            forall|x: T| root.requires((x,)),
        ensures
            exists|total: T|
                is_inner_product(self@, self@, zero, times, plus, total) && #[trigger] root.ensures(
                    (total,),
                    len,
                ),
    {
        let total: T = fold_products(&self.ns, &self.ns, zero, times, plus);
        root(total)
    }
}

/// Two sequences agree where both have an element: at every position below
/// the shorter length the elements are equal. Positions that only the longer
/// one has are not looked at, so a sequence agrees with each of its prefixes.
pub open spec fn agree<T: PartialEq>(a: Seq<T>, b: Seq<T>) -> bool {
    forall|i: int| 0 <= i < a.len() && i < b.len() ==> #[trigger] a[i].eq_spec(&b[i])
}

/// Whether `==` on the elements is known to compute their `eq_spec`.
pub open spec fn elements_obey_eq<T: PartialEq>() -> bool {
    T::obeys_eq_spec()
}

impl<T: Copy + PartialEq> DenseVector<T> {
    /// Equality of vectors: the elements are pairwise equal at every index up
    /// to the shorter size. A difference in size alone does not make two
    /// vectors unequal.
    pub fn equals(&self, other: &DenseVector<T>) -> (same: bool)
        ensures
            T::obeys_eq_spec() ==> same == agree(self@, other@),
    {
        let mut i: usize = 0;
        while i < self.ns.len() && i < other.ns.len()
            invariant
                T::obeys_eq_spec() ==> forall|k: int| 0 <= k < i ==> #[trigger] self.ns@[k].eq_spec(&other.ns@[k]),
                i <= self.ns.len(),
                i <= other.ns.len(),
            decreases self.ns.len() - i,
        {
            if !(self.ns[i] == other.ns[i]) {
                return false;
            }
            i = i + 1;
        }
        true
    }
}

impl<T: Copy + PartialEq> PartialEq for DenseVector<T> {
    fn eq(&self, other: &DenseVector<T>) -> (same: bool) {
        self.equals(other)
    }
}

impl<T: Copy + PartialEq> vstd::std_specs::cmp::PartialEqSpecImpl for DenseVector<T> {
    open spec fn obeys_eq_spec() -> bool {
        elements_obey_eq::<T>()
    }

    open spec fn eq_spec(&self, other: &DenseVector<T>) -> bool {
        agree(self@, other@)
    }
}

impl<T: Copy> Clone for DenseVector<T> {
    /// An independent copy with the same elements.
    fn clone(&self) -> (copy: DenseVector<T>)
        ensures
            copy@ == self@,
    {
        let mut out: Vec<T> = Vec::new();
        let mut i: usize = 0;
        while i < self.ns.len()
            invariant
                i <= self.ns.len(),
                out@ == self.ns@.take(i as int),
            decreases self.ns.len() - i,
        {
            out.push(self.ns[i]);
            i = i + 1;
        }
        DenseVector { ns: out }
    }
}

/// Scalar multiplication with the scalar written first: the same vector as
/// `rhs.scale(lhs, times)`.
pub fn scaled<T: Copy, M: Fn(T, T) -> T>(lhs: T, rhs: DenseVector<T>, times: M) -> (v: DenseVector<T>)
    requires
        forall|x: T, y: T| times.requires((x, y)),
    ensures
        is_scaled(rhs@, lhs, times, v@),
{
    rhs.scale(lhs, times)
}

} // verus!
