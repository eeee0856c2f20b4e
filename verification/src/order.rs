//! Comparing segments unit by unit, and containers segment by segment.
use crate::iter::Iter;
use crate::packed::raws;
use crate::strlike::StrLike;
use core::cmp::Ordering;
use vstd::prelude::*;

verus! {

/// How one value stands to another.
#[derive(Clone, Copy, Debug, PartialEq, Eq, Structural)]
pub enum Order {
    Less,
    Equal,
    Greater,
}

/// The standard library's name for an order.
pub open spec fn ordering_of(order: Order) -> Ordering {
    match order {
        Order::Less => Ordering::Less,
        Order::Equal => Ordering::Equal,
        Order::Greater => Ordering::Greater,
    }
}

/// The other way round.
pub open spec fn reversed(order: Order) -> Order {
    match order {
        Order::Less => Order::Greater,
        Order::Equal => Order::Equal,
        Order::Greater => Order::Less,
    }
}

/// The order `ac` of a first and a third value goes with the order `ab` of
/// the first and a second and the order `bc` of the second and the third:
/// where neither of these is `Greater`, `ac` is `Less` if one of them is and
/// `Equal` if both are `Equal`.
pub open spec fn follows(ab: Order, bc: Order, ac: Order) -> bool {
    &&& ab == Order::Less && bc != Order::Greater ==> ac == Order::Less
    &&& ab != Order::Greater && bc == Order::Less ==> ac == Order::Less
    &&& ab == Order::Equal && bc == Order::Equal ==> ac == Order::Equal
}

/// How the number `x` stands to the number `y`.
pub open spec fn numeric_order(x: int, y: int) -> Order {
    if x < y {
        Order::Less
    } else if x > y {
        Order::Greater
    } else {
        Order::Equal
    }
}

impl Order {
    /// The order under the standard library's name for it.
    pub fn to_ordering(self) -> (r: Ordering)
        ensures
            r == ordering_of(self),
    {
        match self {
            Order::Less => Ordering::Less,
            Order::Equal => Ordering::Equal,
            Order::Greater => Ordering::Greater,
        }
    }
}

/// Units of raw data that stand in an order: the integers are, by their
/// size.
pub trait OrdUnit: Copy {
    /// How the unit stands to `other`.
    spec fn unit_order(self, other: Self) -> Order;

    /// Units are equal in the order exactly where they are the same, and
    /// the order turns round with its arguments.
    proof fn unit_order_laws(a: Self, b: Self)
        ensures
            a.unit_order(b) == Order::Equal <==> a == b,
            b.unit_order(a) == reversed(a.unit_order(b)),
    ;

    /// What comes before a unit comes before what that unit comes before
    /// or equals, and likewise the other way round.
    proof fn unit_order_transitive(a: Self, b: Self, c: Self)
        ensures
            follows(a.unit_order(b), b.unit_order(c), a.unit_order(c)),
    ;

    /// How the unit stands to `other`.
    fn compare_unit(&self, other: &Self) -> (r: Order)
        ensures
            r == self.unit_order(*other),
    ;
}

impl OrdUnit for u8 {
    open spec fn unit_order(self, other: u8) -> Order {
        numeric_order(self as int, other as int)
    }

    proof fn unit_order_laws(a: u8, b: u8) {
    }

    proof fn unit_order_transitive(a: u8, b: u8, c: u8) {
    }

    fn compare_unit(&self, other: &u8) -> (r: Order) {
        if *self < *other {
            Order::Less
        } else if *self > *other {
            Order::Greater
        } else {
            Order::Equal
        }
    }
}

impl OrdUnit for u16 {
    open spec fn unit_order(self, other: u16) -> Order {
        numeric_order(self as int, other as int)
    }

    proof fn unit_order_laws(a: u16, b: u16) {
    }

    proof fn unit_order_transitive(a: u16, b: u16, c: u16) {
    }

    fn compare_unit(&self, other: &u16) -> (r: Order) {
        if *self < *other {
            Order::Less
        } else if *self > *other {
            Order::Greater
        } else {
            Order::Equal
        }
    }
}

impl OrdUnit for u32 {
    open spec fn unit_order(self, other: u32) -> Order {
        numeric_order(self as int, other as int)
    }

    proof fn unit_order_laws(a: u32, b: u32) {
    }

    proof fn unit_order_transitive(a: u32, b: u32, c: u32) {
    }

    fn compare_unit(&self, other: &u32) -> (r: Order) {
        if *self < *other {
            Order::Less
        } else if *self > *other {
            Order::Greater
        } else {
            Order::Equal
        }
    }
}

impl OrdUnit for u64 {
    open spec fn unit_order(self, other: u64) -> Order {
        numeric_order(self as int, other as int)
    }

    proof fn unit_order_laws(a: u64, b: u64) {
    }

    proof fn unit_order_transitive(a: u64, b: u64, c: u64) {
    }

    fn compare_unit(&self, other: &u64) -> (r: Order) {
        if *self < *other {
            Order::Less
        } else if *self > *other {
            Order::Greater
        } else {
            Order::Equal
        }
    }
}

impl OrdUnit for u128 {
    open spec fn unit_order(self, other: u128) -> Order {
        numeric_order(self as int, other as int)
    }

    proof fn unit_order_laws(a: u128, b: u128) {
    }

    proof fn unit_order_transitive(a: u128, b: u128, c: u128) {
    }

    fn compare_unit(&self, other: &u128) -> (r: Order) {
        if *self < *other {
            Order::Less
        } else if *self > *other {
            Order::Greater
        } else {
            Order::Equal
        }
    }
}

impl OrdUnit for usize {
    open spec fn unit_order(self, other: usize) -> Order {
        numeric_order(self as int, other as int)
    }

    proof fn unit_order_laws(a: usize, b: usize) {
    }

    proof fn unit_order_transitive(a: usize, b: usize, c: usize) {
    }

    fn compare_unit(&self, other: &usize) -> (r: Order) {
        if *self < *other {
            Order::Less
        } else if *self > *other {
            Order::Greater
        } else {
            Order::Equal
        }
    }
}

impl OrdUnit for i8 {
    open spec fn unit_order(self, other: i8) -> Order {
        numeric_order(self as int, other as int)
    }

    proof fn unit_order_laws(a: i8, b: i8) {
    }

    proof fn unit_order_transitive(a: i8, b: i8, c: i8) {
    }

    fn compare_unit(&self, other: &i8) -> (r: Order) {
        if *self < *other {
            Order::Less
        } else if *self > *other {
            Order::Greater
        } else {
            Order::Equal
        }
    }
}

impl OrdUnit for i16 {
    open spec fn unit_order(self, other: i16) -> Order {
        numeric_order(self as int, other as int)
    }

    proof fn unit_order_laws(a: i16, b: i16) {
    }

    proof fn unit_order_transitive(a: i16, b: i16, c: i16) {
    }

    fn compare_unit(&self, other: &i16) -> (r: Order) {
        if *self < *other {
            Order::Less
        } else if *self > *other {
            Order::Greater
        } else {
            Order::Equal
        }
    }
}

impl OrdUnit for i32 {
    open spec fn unit_order(self, other: i32) -> Order {
        numeric_order(self as int, other as int)
    }

    proof fn unit_order_laws(a: i32, b: i32) {
    }

    proof fn unit_order_transitive(a: i32, b: i32, c: i32) {
    }

    fn compare_unit(&self, other: &i32) -> (r: Order) {
        if *self < *other {
            Order::Less
        } else if *self > *other {
            Order::Greater
        } else {
            Order::Equal
        }
    }
}

impl OrdUnit for i64 {
    open spec fn unit_order(self, other: i64) -> Order {
        numeric_order(self as int, other as int)
    }

    proof fn unit_order_laws(a: i64, b: i64) {
    }

    proof fn unit_order_transitive(a: i64, b: i64, c: i64) {
    }

    fn compare_unit(&self, other: &i64) -> (r: Order) {
        if *self < *other {
            Order::Less
        } else if *self > *other {
            Order::Greater
        } else {
            Order::Equal
        }
    }
}

impl OrdUnit for i128 {
    open spec fn unit_order(self, other: i128) -> Order {
        numeric_order(self as int, other as int)
    }

    proof fn unit_order_laws(a: i128, b: i128) {
    }

    proof fn unit_order_transitive(a: i128, b: i128, c: i128) {
    }

    fn compare_unit(&self, other: &i128) -> (r: Order) {
        if *self < *other {
            Order::Less
        } else if *self > *other {
            Order::Greater
        } else {
            Order::Equal
        }
    }
}

impl OrdUnit for isize {
    open spec fn unit_order(self, other: isize) -> Order {
        numeric_order(self as int, other as int)
    }

    proof fn unit_order_laws(a: isize, b: isize) {
    }

    proof fn unit_order_transitive(a: isize, b: isize, c: isize) {
    }

    fn compare_unit(&self, other: &isize) -> (r: Order) {
        if *self < *other {
            Order::Less
        } else if *self > *other {
            Order::Greater
        } else {
            Order::Equal
        }
    }
}

/// Lexicographic order: the first place at which the sequences differ
/// decides by `elem`, and a sequence comes before those that it starts.
pub open spec fn lex<A>(a: Seq<A>, b: Seq<A>, elem: spec_fn(A, A) -> Order) -> Order
    decreases a.len(),
{
    if a.len() == 0 {
        if b.len() == 0 {
            Order::Equal
        } else {
            Order::Less
        }
    } else if b.len() == 0 {
        Order::Greater
    } else if elem(a[0], b[0]) != Order::Equal {
        elem(a[0], b[0])
    } else {
        lex(a.drop_first(), b.drop_first(), elem)
    }
}

/// How the units `a` stand to the units `b`, lexicographically.
pub open spec fn lex_units<U: OrdUnit>(a: Seq<U>, b: Seq<U>) -> Order {
    lex(a, b, |x: U, y: U| x.unit_order(y))
}

/// How the segments `a` stand to the segments `b`: lexicographically, each
/// pair of segments compared by its units.
pub open spec fn lex_segments<U: OrdUnit>(a: Seq<Seq<U>>, b: Seq<Seq<U>>) -> Order {
    lex(a, b, |x: Seq<U>, y: Seq<U>| lex_units(x, y))
}

/// Where `elem` says `Equal` of equal elements only, `lex` says `Equal` of
/// equal sequences only.
pub proof fn lemma_lex_equal<A>(a: Seq<A>, b: Seq<A>, elem: spec_fn(A, A) -> Order)
    requires
        forall|x: A, y: A| #[trigger] elem(x, y) == Order::Equal <==> x == y,
    ensures
        lex(a, b, elem) == Order::Equal <==> a == b,
    decreases a.len(),
{
    if a.len() > 0 && b.len() > 0 {
        lemma_lex_equal(a.drop_first(), b.drop_first(), elem);
        if a == b {
            assert(elem(a[0], b[0]) == Order::Equal);
        }
        if lex(a, b, elem) == Order::Equal {
            assert(a[0] == b[0]);
            assert(a =~= seq![a[0]] + a.drop_first());
            assert(b =~= seq![b[0]] + b.drop_first());
        }
    } else if a.len() == 0 && b.len() == 0 {
        assert(a =~= b);
    }
}

/// Where `elem` turns round with its arguments, so does `lex`.
pub proof fn lemma_lex_reversed<A>(a: Seq<A>, b: Seq<A>, elem: spec_fn(A, A) -> Order)
    requires
        forall|x: A, y: A| #[trigger] elem(y, x) == reversed(elem(x, y)),
    ensures
        lex(b, a, elem) == reversed(lex(a, b, elem)),
    decreases a.len(),
{
    if a.len() > 0 && b.len() > 0 {
        assert(elem(b[0], a[0]) == reversed(elem(a[0], b[0])));
        lemma_lex_reversed(a.drop_first(), b.drop_first(), elem);
    }
}

/// Where `elem` is transitive, so is `lex`.
pub proof fn lemma_lex_transitive<A>(
    a: Seq<A>,
    b: Seq<A>,
    c: Seq<A>,
    elem: spec_fn(A, A) -> Order,
)
    requires
        forall|x: A, y: A, z: A| #[trigger] follows(elem(x, y), elem(y, z), elem(x, z)),
    ensures
        follows(lex(a, b, elem), lex(b, c, elem), lex(a, c, elem)),
    decreases a.len(),
{
    if a.len() > 0 && b.len() > 0 && c.len() > 0 {
        assert(follows(elem(a[0], b[0]), elem(b[0], c[0]), elem(a[0], c[0])));
        lemma_lex_transitive(a.drop_first(), b.drop_first(), c.drop_first(), elem);
    }
}

/// Runs of units compare equal exactly where they are the same, and the
/// other way round where they are compared the other way round.
pub proof fn lemma_lex_units<U: OrdUnit>(a: Seq<U>, b: Seq<U>)
    ensures
        lex_units(a, b) == Order::Equal <==> a == b,
        lex_units(b, a) == reversed(lex_units(a, b)),
{
    let elem = |x: U, y: U| x.unit_order(y);
    assert forall|x: U, y: U| #[trigger] elem(x, y) == Order::Equal <==> x == y by {
        U::unit_order_laws(x, y);
    }
    assert forall|x: U, y: U| #[trigger] elem(y, x) == reversed(elem(x, y)) by {
        U::unit_order_laws(x, y);
    }
    lemma_lex_equal(a, b, elem);
    lemma_lex_reversed(a, b, elem);
}

/// Lists of segments compare equal exactly where they are the same, and
/// the other way round where they are compared the other way round.
pub proof fn lemma_lex_segments<U: OrdUnit>(a: Seq<Seq<U>>, b: Seq<Seq<U>>)
    ensures
        lex_segments(a, b) == Order::Equal <==> a == b,
        lex_segments(b, a) == reversed(lex_segments(a, b)),
{
    let elem = |x: Seq<U>, y: Seq<U>| lex_units(x, y);
    assert forall|x: Seq<U>, y: Seq<U>| #[trigger] elem(x, y) == Order::Equal <==> x == y by {
        lemma_lex_units(x, y);
    }
    assert forall|x: Seq<U>, y: Seq<U>| #[trigger] elem(y, x) == reversed(elem(x, y)) by {
        lemma_lex_units(x, y);
    }
    lemma_lex_equal(a, b, elem);
    lemma_lex_reversed(a, b, elem);
}

/// The order of runs of units is transitive.
pub proof fn lemma_lex_units_transitive<U: OrdUnit>(a: Seq<U>, b: Seq<U>, c: Seq<U>)
    ensures
        follows(lex_units(a, b), lex_units(b, c), lex_units(a, c)),
{
    let elem = |x: U, y: U| x.unit_order(y);
    assert forall|x: U, y: U, z: U| #[trigger]
        follows(elem(x, y), elem(y, z), elem(x, z)) by {
        U::unit_order_transitive(x, y, z);
    }
    lemma_lex_transitive(a, b, c, elem);
}

/// The order of lists of segments is transitive.
pub proof fn lemma_lex_segments_transitive<U: OrdUnit>(
    a: Seq<Seq<U>>,
    b: Seq<Seq<U>>,
    c: Seq<Seq<U>>,
)
    ensures
        follows(lex_segments(a, b), lex_segments(b, c), lex_segments(a, c)),
{
    let elem = |x: Seq<U>, y: Seq<U>| lex_units(x, y);
    assert forall|x: Seq<U>, y: Seq<U>, z: Seq<U>| #[trigger]
        follows(elem(x, y), elem(y, z), elem(x, z)) by {
        lemma_lex_units_transitive(x, y, z);
    }
    lemma_lex_transitive(a, b, c, elem);
}

/// Sequences that agree before `i` compare as what follows from `i` on.
pub proof fn lemma_lex_skip<A>(a: Seq<A>, b: Seq<A>, elem: spec_fn(A, A) -> Order, i: int)
    requires
        0 <= i <= a.len(),
        i <= b.len(),
        forall|j: int| 0 <= j < i ==> elem(a[j], b[j]) == Order::Equal,
    ensures
        lex(a, b, elem) == lex(a.skip(i), b.skip(i), elem),
    decreases i,
{
    if i == 0 {
        assert(a.skip(0) =~= a);
        assert(b.skip(0) =~= b);
    } else {
        assert(elem(a[0], b[0]) == Order::Equal);
        assert forall|j: int| 0 <= j < i - 1 implies elem(a.drop_first()[j], b.drop_first()[j])
            == Order::Equal by {
            assert(elem(a[j + 1], b[j + 1]) == Order::Equal);
        }
        lemma_lex_skip(a.drop_first(), b.drop_first(), elem, i - 1);
        assert(a.drop_first().skip(i - 1) =~= a.skip(i));
        assert(b.drop_first().skip(i - 1) =~= b.skip(i));
    }
}

/// Compares two runs of units lexicographically.
pub fn compare_units<U: OrdUnit>(a: &[U], b: &[U]) -> (r: Order)
    ensures
        r == lex_units(a@, b@),
{
    let ghost elem = |x: U, y: U| x.unit_order(y);
    let mut i: usize = 0;
    while i < a.len() && i < b.len()
        invariant
            0 <= i <= a@.len(),
            i <= b@.len(),
            elem == (|x: U, y: U| x.unit_order(y)),
            forall|j: int| 0 <= j < i ==> elem(a@[j], b@[j]) == Order::Equal,
        decreases a@.len() - i,
    {
        let found = a[i].compare_unit(&b[i]);
        match found {
            Order::Equal => {
                i = i + 1;
            },
            _ => {
                proof {
                    lemma_lex_skip(a@, b@, elem, i as int);
                    assert(a@.skip(i as int)[0] == a@[i as int]);
                    assert(b@.skip(i as int)[0] == b@[i as int]);
                }
                return found;
            },
        }
    }
    proof {
        lemma_lex_skip(a@, b@, elem, i as int);
    }
    if i < b.len() {
        Order::Less
    } else if i < a.len() {
        Order::Greater
    } else {
        Order::Equal
    }
}

/// Compares what two cursors still have to give, segment by segment.
pub fn compare_segments<'a, 'b, U: OrdUnit, T: StrLike<Data = [U]> + ?Sized>(
    left: Iter<'a, T>,
    right: Iter<'b, T>,
) -> (r: Order)
    ensures
        r == lex_segments::<U>(left.remaining(), right.remaining()),
{
    let ghost elem = |x: Seq<U>, y: Seq<U>| lex_units(x, y);
    let ghost sa = left.remaining();
    let ghost sb = right.remaining();
    let mut a = left;
    let mut b = right;
    let ghost mut i: int = 0;
    proof {
        assert(sa.skip(0) =~= sa);
        assert(sb.skip(0) =~= sb);
    }
    loop
        invariant
            0 <= i <= sa.len(),
            i <= sb.len(),
            elem == (|x: Seq<U>, y: Seq<U>| lex_units(x, y)),
            sa == left.remaining(),
            sb == right.remaining(),
            a.remaining() == sa.skip(i),
            b.remaining() == sb.skip(i),
            forall|j: int| 0 <= j < i ==> elem(sa[j], sb[j]) == Order::Equal,
        decreases sa.len() - i,
    {
        proof {
            lemma_lex_skip(sa, sb, elem, i);
        }
        let x = a.next();
        let y = b.next();
        match (x, y) {
            (None, None) => {
                return Order::Equal;
            },
            (None, Some(_)) => {
                return Order::Less;
            },
            (Some(_), None) => {
                return Order::Greater;
            },
            (Some(s), Some(t)) => {
                let found = compare_units(s.to_data(), t.to_data());
                proof {
                    assert(sa.skip(i)[0] == sa[i]);
                    assert(sb.skip(i)[0] == sb[i]);
                }
                match found {
                    Order::Equal => {
                        proof {
                            assert(sa.skip(i).drop_first() =~= sa.skip(i + 1));
                            assert(sb.skip(i).drop_first() =~= sb.skip(i + 1));
                            i = i + 1;
                        }
                    },
                    _ => {
                        return found;
                    },
                }
            },
        }
    }
}

/// Whether what a cursor still has to give is the segments of `items`.
pub fn same_segments<'a, U: OrdUnit, T: StrLike<Data = [U]> + ?Sized>(
    left: Iter<'a, T>,
    items: &[&T],
) -> (r: bool)
    ensures
        r == (left.remaining() == raws::<T>(items@)),
{
    let ghost sa = left.remaining();
    let ghost sb = raws::<T>(items@);
    let mut a = left;
    let mut i: usize = 0;
    proof {
        assert(sa.skip(0) =~= sa);
    }
    loop
        invariant
            0 <= i <= sa.len(),
            i <= items@.len(),
            sa == left.remaining(),
            sb == raws::<T>(items@),
            a.remaining() == sa.skip(i as int),
            forall|j: int| 0 <= j < i ==> sa[j] == sb[j],
        decreases sa.len() - i,
    {
        match a.next() {
            None => {
                proof {
                    if i == items@.len() {
                        assert(sa =~= sb);
                    }
                }
                return i == items.len();
            },
            Some(s) => {
                if i >= items.len() {
                    return false;
                }
                proof {
                    assert(sa.skip(i as int)[0] == sa[i as int]);
                    lemma_lex_units::<U>(sa[i as int], sb[i as int]);
                }
                match compare_units(s.to_data(), items[i].to_data()) {
                    Order::Equal => {
                        proof {
                            assert(sa.skip(i as int).drop_first() =~= sa.skip(i + 1));
                        }
                        i = i + 1;
                    },
                    _ => {
                        return false;
                    },
                }
            },
        }
    }
}

} // verus!
