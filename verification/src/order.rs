use vstd::prelude::*;

verus! {

/// The result of comparing two names.
#[derive(Clone, Copy, PartialEq, Eq, Debug, Structural)]
pub enum NameOrder {
    Less,
    Equal,
    Greater,
}

/// `a` and `b` agree on their first `k` characters.
pub open spec fn common_prefix(a: Seq<char>, b: Seq<char>, k: int) -> bool {
    &&& 0 <= k <= a.len()
    &&& k <= b.len()
    &&& forall|j: int| 0 <= j < k ==> a[j] == b[j]
}

/// `k` is where `a` first falls below `b`: `a` ends there while `b` goes on,
/// or `a` has a smaller character there.
pub open spec fn less_at(a: Seq<char>, b: Seq<char>, k: int) -> bool {
    &&& common_prefix(a, b, k)
    &&& ((k == a.len() && k < b.len()) || (k < a.len() && k < b.len() && (a[k] as u32) < (b[k] as u32)))
}

/// Lexicographic order of texts by code point, which is the order of `str`.
pub open spec fn name_less(a: Seq<char>, b: Seq<char>) -> bool {
    exists|k: int| #[trigger] less_at(a, b, k)
}

proof fn lemma_less_at_unique(a: Seq<char>, b: Seq<char>, k1: int, k2: int)
    requires
        less_at(a, b, k1),
        common_prefix(a, b, k2),
    ensures
        k2 <= k1,
{
    if k2 > k1 {
        assert(a[k1] == b[k1]);
    }
}

/// No text is below itself.
pub proof fn lemma_name_less_irreflexive(a: Seq<char>)
    ensures
        !name_less(a, a),
{
}

/// Two texts are not below each other.
pub proof fn lemma_name_less_asymmetric(a: Seq<char>, b: Seq<char>)
    ensures
        !(name_less(a, b) && name_less(b, a)),
{
    if name_less(a, b) && name_less(b, a) {
        let k1 = choose|k: int| #[trigger] less_at(a, b, k);
        let k2 = choose|k: int| #[trigger] less_at(b, a, k);
        assert(common_prefix(a, b, k2));
        lemma_less_at_unique(a, b, k1, k2);
        assert(common_prefix(b, a, k1));
        lemma_less_at_unique(b, a, k2, k1);
        assert(k1 == k2);
    }
}

/// The order is transitive.
pub proof fn lemma_name_less_transitive(a: Seq<char>, b: Seq<char>, c: Seq<char>)
    requires
        name_less(a, b),
        name_less(b, c),
    ensures
        name_less(a, c),
{
    let k1 = choose|k: int| #[trigger] less_at(a, b, k);
    let k2 = choose|k: int| #[trigger] less_at(b, c, k);
    if k1 < k2 {
        assert(less_at(a, c, k1));
    } else if k2 < k1 {
        assert(less_at(a, c, k2));
    } else {
        assert(less_at(a, c, k1));
    }
}

/// Compares two names in `str` order.
pub fn compare_names(a: &str, b: &str) -> (r: NameOrder)
    ensures
        (r == NameOrder::Less) == name_less(a@, b@),
        (r == NameOrder::Equal) == (a@ == b@),
        (r == NameOrder::Greater) == name_less(b@, a@),
{
    proof {
        lemma_name_less_asymmetric(a@, b@);
        lemma_name_less_irreflexive(a@);
    }
    let n = a.unicode_len();
    let m = b.unicode_len();
    let mut i: usize = 0;
    while i < n && i < m && a.get_char(i) == b.get_char(i)
        invariant
            n == a@.len(),
            m == b@.len(),
            common_prefix(a@, b@, i as int),
        decreases n - i,
    {
        i = i + 1;
    }
    if i == n && i == m {
        assert(a@ =~= b@);
        NameOrder::Equal
    } else if i == n {
        assert(less_at(a@, b@, i as int));
        NameOrder::Less
    } else if i == m {
        assert(less_at(b@, a@, i as int));
        NameOrder::Greater
    } else {
        let ca = a.get_char(i);
        let cb = b.get_char(i);
        if (ca as u32) < (cb as u32) {
            assert(less_at(a@, b@, i as int));
            NameOrder::Less
        } else {
            assert(common_prefix(b@, a@, i as int));
            assert(less_at(b@, a@, i as int));
            assert(a@ != b@);
            NameOrder::Greater
        }
    }
}

} // verus!
