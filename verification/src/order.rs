//! Three-way comparison, the byte-wise order of text, and the keys that ordered collections use.

use vstd::prelude::*;
use vstd::utf8::encode_utf8;

verus! {

/// The outcome of comparing one value with another.
#[derive(Clone, Copy, Debug, PartialEq, Eq, Structural)]
pub enum Order {
    Less,
    Equal,
    Greater,
}

impl Order {
    /// The outcome of the same comparison with its two sides exchanged.
    pub open spec fn reverse(self) -> Order {
        match self {
            Order::Less => Order::Greater,
            Order::Equal => Order::Equal,
            Order::Greater => Order::Less,
        }
    }
}

/// The lexicographic order of byte sequences.
pub open spec fn bytes_order(a: Seq<u8>, b: Seq<u8>) -> Order
    decreases a.len(),
{
    if a.len() == 0 && b.len() == 0 {
        Order::Equal
    } else if a.len() == 0 {
        Order::Less
    } else if b.len() == 0 {
        Order::Greater
    } else if a[0] < b[0] {
        Order::Less
    } else if a[0] > b[0] {
        Order::Greater
    } else {
        bytes_order(a.skip(1), b.skip(1))
    }
}

/// The order of text: that of its UTF-8 bytes.
pub open spec fn text_order(a: Seq<char>, b: Seq<char>) -> Order {
    bytes_order(encode_utf8(a), encode_utf8(b))
}

proof fn lemma_bytes_order_dual(a: Seq<u8>, b: Seq<u8>)
    ensures
        bytes_order(b, a) == bytes_order(a, b).reverse(),
    decreases a.len(),
{
    if a.len() > 0 && b.len() > 0 && a[0] == b[0] {
        lemma_bytes_order_dual(a.skip(1), b.skip(1));
    }
}

proof fn lemma_bytes_order_equal(a: Seq<u8>, b: Seq<u8>)
    ensures
        bytes_order(a, b) is Equal <==> a == b,
    decreases a.len(),
{
    if a.len() > 0 && b.len() > 0 && a[0] == b[0] {
        lemma_bytes_order_equal(a.skip(1), b.skip(1));
        if a.skip(1) == b.skip(1) {
            assert(a == seq![a[0]] + a.skip(1));
            assert(b == seq![b[0]] + b.skip(1));
        }
    }
    if a.len() == 0 && b.len() == 0 {
        assert(a =~= b);
    }
}

proof fn lemma_bytes_order_transitive(a: Seq<u8>, b: Seq<u8>, c: Seq<u8>)
    requires
        bytes_order(a, b) !is Greater,
        bytes_order(b, c) is Less,
    ensures
        bytes_order(a, c) is Less,
    decreases a.len(),
{
    if a.len() > 0 && b.len() > 0 && c.len() > 0 && a[0] == b[0] && b[0] == c[0] {
        lemma_bytes_order_transitive(a.skip(1), b.skip(1), c.skip(1));
    }
}

/// Two texts compare equal exactly when they are the same text.
pub proof fn lemma_text_order_equal(a: Seq<char>, b: Seq<char>)
    ensures
        text_order(a, b) is Equal <==> a == b,
{
    lemma_bytes_order_equal(encode_utf8(a), encode_utf8(b));
    if encode_utf8(a) == encode_utf8(b) {
        vstd::utf8::encode_utf8_decode_utf8(a);
        vstd::utf8::encode_utf8_decode_utf8(b);
    }
}

/// Exchanging the sides of a text comparison reverses its outcome.
pub proof fn lemma_text_order_dual(a: Seq<char>, b: Seq<char>)
    ensures
        text_order(b, a) == text_order(a, b).reverse(),
{
    lemma_bytes_order_dual(encode_utf8(a), encode_utf8(b));
}

/// Text that is not after a second one is before whatever the second one is before.
pub proof fn lemma_text_order_transitive(a: Seq<char>, b: Seq<char>, c: Seq<char>)
    requires
        text_order(a, b) !is Greater,
        text_order(b, c) is Less,
    ensures
        text_order(a, c) is Less,
{
    lemma_bytes_order_transitive(encode_utf8(a), encode_utf8(b), encode_utf8(c));
}

/// Text that is before a second one is before whatever the second one is not after.
pub proof fn lemma_text_order_below(a: Seq<char>, b: Seq<char>, c: Seq<char>)
    requires
        text_order(a, b) is Less,
        text_order(b, c) !is Greater,
    ensures
        text_order(a, c) is Less,
{
    lemma_text_order_equal(b, c);
    if b != c {
        lemma_text_order_transitive(a, b, c);
    }
}

/// Compares two texts byte by byte.
pub fn compare_text(a: &str, b: &str) -> (r: Order)
    ensures
        r == text_order(a@, b@),
{
    let left: &[u8] = a.as_bytes();
    let right: &[u8] = b.as_bytes();
    let mut i: usize = 0;
    proof {
        assert(left@.skip(0) == left@);
        assert(right@.skip(0) == right@);
    }
    while i < left.len() && i < right.len()
        invariant
            i <= left.len(),
            i <= right.len(),
            left@ == encode_utf8(a@),
            right@ == encode_utf8(b@),
            bytes_order(left@.skip(i as int), right@.skip(i as int)) == text_order(a@, b@),
        decreases left.len() - i,
    {
        if left[i] < right[i] {
            return Order::Less;
        }
        if left[i] > right[i] {
            return Order::Greater;
        }
        proof {
            assert(left@.skip(i as int).skip(1) == left@.skip(i + 1));
            assert(right@.skip(i as int).skip(1) == right@.skip(i + 1));
        }
        i = i + 1;
    }
    if i < right.len() {
        Order::Less
    } else if i < left.len() {
        Order::Greater
    } else {
        Order::Equal
    }
}

/// Whether two texts are the same.
pub fn same_text(a: &str, b: &str) -> (r: bool)
    ensures
        r == (a@ == b@),
{
    let order = compare_text(a, b);
    proof {
        lemma_text_order_equal(a@, b@);
    }
    order == Order::Equal
}

/// A value that an ordered collection can be sorted by.
///
/// Keys that compare equal are one key to the collection, even where they are told apart by
/// other means.
pub trait SortKey: DeepView + Sized {
    /// The order of two keys.
    spec fn order(a: Self::V, b: Self::V) -> Order;

    /// A key compares equal with itself.
    proof fn order_reflexive(a: Self::V)
        ensures
            Self::order(a, a) is Equal,
    ;

    /// Compares two keys. The outcome fits with how either compares with a third key.
    fn compare(&self, other: &Self) -> (r: Order)
        ensures
            r == Self::order(self.deep_view(), other.deep_view()),
            Self::order(other.deep_view(), self.deep_view()) == r.reverse(),
            r is Less ==> forall|c: Self::V|
                Self::order(other.deep_view(), c) !is Greater ==> #[trigger] Self::order(
                    self.deep_view(),
                    c,
                ) is Less,
            r is Equal ==> forall|c: Self::V| #[trigger]
                Self::order(self.deep_view(), c) == Self::order(other.deep_view(), c),
            r is Greater ==> forall|c: Self::V|
                Self::order(self.deep_view(), c) !is Greater ==> #[trigger] Self::order(
                    other.deep_view(),
                    c,
                ) is Less,
    ;
}

impl SortKey for String {
    open spec fn order(a: Seq<char>, b: Seq<char>) -> Order {
        text_order(a, b)
    }

    proof fn order_reflexive(a: Seq<char>) {
        lemma_text_order_equal(a, a);
    }

    fn compare(&self, other: &Self) -> (r: Order) {
        let r = compare_text(self.as_str(), other.as_str());
        proof {
            lemma_text_order_dual(self@, other@);
            lemma_text_order_equal(self@, other@);
            assert forall|c: Seq<char>|
                r is Less && text_order(other@, c) !is Greater implies #[trigger] text_order(
                self@,
                c,
            ) is Less by {
                lemma_text_order_below(self@, other@, c);
            }
            assert forall|c: Seq<char>|
                r is Greater && text_order(self@, c) !is Greater implies #[trigger] text_order(
                other@,
                c,
            ) is Less by {
                lemma_text_order_below(other@, self@, c);
            }
        }
        r
    }
}

} // verus!
