//! Sorting vectors of integers and of records under a chosen order.

use vstd::prelude::*;
use vstd::utf8::encode_utf8;

verus! {

/// A total preorder on `T`, chosen by type.
pub trait Order<T> {
    /// Whether `a` may stand before `b`.
    spec fn precedes(a: T, b: T) -> bool;

    /// Decides `precedes`.
    fn in_order(a: &T, b: &T) -> (yes: bool)
        ensures
            yes == Self::precedes(*a, *b),
    ;

    /// Of two values, one may stand before the other.
    proof fn total(a: T, b: T)
        ensures
            Self::precedes(a, b) || Self::precedes(b, a),
    ;

    /// What stands before a value stands before all that the value stands before.
    proof fn transitive(a: T, b: T, c: T)
        requires
            Self::precedes(a, b),
            Self::precedes(b, c),
        ensures
            Self::precedes(a, c),
    ;
}

/// Every element may stand before every later one.
pub open spec fn sorted<T, O: Order<T>>(s: Seq<T>) -> bool {
    forall|i: int, j: int| 0 <= i < j < s.len() ==> O::precedes(s[i], s[j])
}

/// `after` is `before` sorted and the elements that may stand either way
/// have kept their order: `from` names, for each place of `after`, the place
/// of `before` that its element came from. Each place of `before` is named
/// once, every element may stand before every later one, and of two
/// elements that may stand either way the one that came first still does.
pub open spec fn stably_sorted<T, O: Order<T>>(before: Seq<T>, after: Seq<T>, from: Seq<int>) -> bool {
    &&& before.len() == after.len() == from.len()
    &&& forall|k: int|
        0 <= k < after.len() ==> 0 <= #[trigger] from[k] < before.len() && after[k]
            == before[from[k]]
    &&& forall|j: int, k: int| 0 <= j < k < after.len() ==> from[j] != from[k]
    &&& forall|j: int, k: int|
        0 <= j < k < after.len() ==> O::precedes(after[j], after[k]) && (O::precedes(
            after[k],
            after[j],
        ) ==> from[j] < from[k])
}

/// Sorts `v` under the order `O`: afterwards it holds the same elements,
/// each as often as before, and every element may stand before every later
/// one. Elements that may stand either way keep the order they had.
pub fn sort_by<T, O: Order<T>>(v: &mut Vec<T>)
    ensures
        sorted::<T, O>(final(v)@),
        final(v)@.to_multiset() == old(v)@.to_multiset(),
        exists|from: Seq<int>| stably_sorted::<T, O>(old(v)@, final(v)@, from),
{
    let n = v.len();
    let mut i: usize = 0;
    let ghost mut from: Seq<int> = Seq::new(n as nat, |k: int| k);
    while i < n
        invariant
            i <= n,
            n == v@.len() == old(v)@.len() == from.len(),
            v@.to_multiset() == old(v)@.to_multiset(),
            forall|k: int|
                0 <= k < n ==> 0 <= #[trigger] from[k] < n && v@[k] == old(v)@[from[k]],
            forall|j: int, k: int| 0 <= j < k < n ==> from[j] != from[k],
            forall|k: int| i <= k < n ==> #[trigger] from[k] == k,
            forall|k: int| 0 <= k < i ==> #[trigger] from[k] < i,
            forall|j: int, k: int|
                0 <= j < k < i ==> O::precedes(v@[j], v@[k]) && (O::precedes(v@[k], v@[j])
                    ==> from[j] < from[k]),
        decreases n - i,
    {
        let mut j: usize = 0;
        while j < i && O::in_order(&v[j], &v[i])
            invariant
                j <= i < n,
                n == v@.len(),
                forall|k: int| 0 <= k < j ==> O::precedes(v@[k], v@[i as int]),
            decreases i - j,
        {
            j += 1;
        }
        let ghost before = v@;
        let ghost from_before = from;
        let moved = v.remove(i);
        v.insert(j, moved);
        proof {
            vstd::seq_lib::to_multiset_remove(before, i as int);
            vstd::seq_lib::to_multiset_insert(before.remove(i as int), j as int, moved);
            assert(before.to_multiset().contains(moved)) by {
                vstd::seq_lib::to_multiset_contains(before, moved);
                assert(before[i as int] == moved);
            }
            assert(before.to_multiset().remove(moved).insert(moved) =~= before.to_multiset());
            from = from_before.remove(i as int).insert(j as int, i as int);
            // Where the element at each place stood before this step.
            let source = |k: int|
                if k < j {
                    k
                } else if k == j {
                    i as int
                } else if k <= i {
                    k - 1
                } else {
                    k
                };
            assert forall|k: int| 0 <= k < n implies #[trigger] v@[k] == before[source(k)]
                && from[k] == from_before[source(k)] by {}
            assert forall|k: int| 0 <= k < n implies 0 <= #[trigger] from[k] < n && v@[k] == old(
                v,
            )@[from[k]] by {
                assert(v@[k] == before[source(k)] && from[k] == from_before[source(k)]);
            }
            assert forall|a: int, b: int| 0 <= a < b < n implies from[a] != from[b] by {
                assert(v@[a] == before[source(a)] && from[a] == from_before[source(a)]);
                assert(v@[b] == before[source(b)] && from[b] == from_before[source(b)]);
            }
            assert forall|k: int| i + 1 <= k < n implies #[trigger] from[k] == k by {
                assert(v@[k] == before[source(k)] && from[k] == from_before[source(k)]);
            }
            assert forall|k: int| 0 <= k < i + 1 implies #[trigger] from[k] < i + 1 by {
                assert(v@[k] == before[source(k)] && from[k] == from_before[source(k)]);
            }
            assert forall|a: int, b: int| 0 <= a < b < i + 1 implies O::precedes(v@[a], v@[b]) && (
            O::precedes(v@[b], v@[a]) ==> from[a] < from[b]) by {
                assert(v@[a] == before[source(a)] && from[a] == from_before[source(a)]);
                assert(v@[b] == before[source(b)] && from[b] == from_before[source(b)]);
                if a == j {
                    // The element moved in stands before all that it was
                    // moved past, and none of them before it.
                    O::total(before[j as int], moved);
                    if source(b) > j {
                        O::transitive(moved, before[j as int], before[source(b)]);
                        if O::precedes(before[source(b)], moved) {
                            O::transitive(before[j as int], before[source(b)], moved);
                        }
                    }
                }
            }
        }
        i += 1;
    }
    proof {
        assert(stably_sorted::<T, O>(old(v)@, v@, from));
    }
}

/// Integers in ascending order.
pub struct Ascending;

impl Order<i32> for Ascending {
    open spec fn precedes(a: i32, b: i32) -> bool {
        a <= b
    }

    fn in_order(a: &i32, b: &i32) -> (yes: bool) {
        *a <= *b
    }

    proof fn total(a: i32, b: i32) {
    }

    proof fn transitive(a: i32, b: i32, c: i32) {
    }
}

/// Sorts integers in ascending order.
pub fn sort_integers(v: &mut Vec<i32>)
    ensures
        forall|i: int, j: int| 0 <= i < j < final(v)@.len() ==> final(v)@[i] <= final(v)@[j],
        final(v)@.to_multiset() == old(v)@.to_multiset(),
{
    sort_by::<i32, Ascending>(v);
    proof {
        assert forall|i: int, j: int| 0 <= i < j < v@.len() implies v@[i] <= v@[j] by {
            assert(Ascending::precedes(v@[i], v@[j]));
        }
    }
}

/// Sorts the sample `[1, 5, 10, 2, 15]` and returns it in ascending order.
pub fn sort_integer_vector() -> (sample: Vec<i32>)
    ensures
        sample@ == seq![1i32, 2, 5, 10, 15],
{
    let mut sample: Vec<i32> = Vec::new();
    sample.push(1);
    sample.push(5);
    sample.push(10);
    sample.push(2);
    sample.push(15);
    let ghost unsorted = sample@;
    sort_integers(&mut sample);
    proof {
        let s = sample@;
        vstd::seq_lib::to_multiset_len(s);
        vstd::seq_lib::to_multiset_len(unsorted);
        assert(unsorted =~= seq![1i32, 5, 10, 2, 15]);
        assert forall|x: i32| unsorted.contains(x) implies s.contains(x) by {
            vstd::seq_lib::to_multiset_contains(unsorted, x);
            vstd::seq_lib::to_multiset_contains(s, x);
        }
        assert(unsorted[0] == 1 && unsorted.contains(1));
        assert(unsorted[3] == 2 && unsorted.contains(2));
        assert(unsorted[1] == 5 && unsorted.contains(5));
        assert(unsorted[2] == 10 && unsorted.contains(10));
        assert(unsorted[4] == 15 && unsorted.contains(15));
        let k1 = choose|k: int| 0 <= k < s.len() && s[k] == 1;
        let k2 = choose|k: int| 0 <= k < s.len() && s[k] == 2;
        let k3 = choose|k: int| 0 <= k < s.len() && s[k] == 5;
        let k4 = choose|k: int| 0 <= k < s.len() && s[k] == 10;
        let k5 = choose|k: int| 0 <= k < s.len() && s[k] == 15;
        assert(k1 < k2 && k2 < k3 && k3 < k4 && k4 < k5);
        assert(s =~= seq![1i32, 2, 5, 10, 15]);
    }
    sample
}

/// Whether the bytes `a` from position `from` on come at or before the
/// bytes `b` from there on, in dictionary order: the first byte that
/// differs decides, and a text that ends first comes first.
pub open spec fn bytes_le_from(a: Seq<u8>, b: Seq<u8>, from: int) -> bool
    decreases a.len() - from,
{
    if from < 0 || from >= a.len() {
        true
    } else if from >= b.len() {
        false
    } else if a[from] != b[from] {
        a[from] < b[from]
    } else {
        bytes_le_from(a, b, from + 1)
    }
}

/// Dictionary order on byte strings.
pub open spec fn bytes_le(a: Seq<u8>, b: Seq<u8>) -> bool {
    bytes_le_from(a, b, 0)
}

/// Of two byte strings, one comes at or before the other.
pub proof fn lemma_bytes_le_total(a: Seq<u8>, b: Seq<u8>, from: int)
    requires
        0 <= from,
    ensures
        bytes_le_from(a, b, from) || bytes_le_from(b, a, from),
    decreases a.len() - from,
{
    if from < a.len() && from < b.len() && a[from] == b[from] {
        lemma_bytes_le_total(a, b, from + 1);
    }
}

/// Dictionary order is transitive.
pub proof fn lemma_bytes_le_transitive(a: Seq<u8>, b: Seq<u8>, c: Seq<u8>, from: int)
    requires
        0 <= from,
        bytes_le_from(a, b, from),
        bytes_le_from(b, c, from),
    ensures
        bytes_le_from(a, c, from),
    decreases a.len() - from,
{
    if from < a.len() && from < b.len() && from < c.len() && a[from] == b[from] && b[from]
        == c[from] {
        lemma_bytes_le_transitive(a, b, c, from + 1);
    }
}

/// Decides dictionary order on two byte strings.
pub fn bytes_in_order(a: &[u8], b: &[u8]) -> (yes: bool)
    ensures
        yes == bytes_le(a@, b@),
{
    let mut i: usize = 0;
    while i < a.len() && i < b.len()
        invariant
            i <= a@.len(),
            i <= b@.len(),
            bytes_le(a@, b@) == bytes_le_from(a@, b@, i as int),
        decreases a@.len() - i,
    {
        if a[i] != b[i] {
            return a[i] < b[i];
        }
        i += 1;
    }
    i >= a.len()
}

/// A person with a name and an age.
#[derive(Debug, Clone, PartialEq, Eq, PartialOrd, Ord)]
pub struct Person {
    pub name: String,
    pub age: u32,
}

impl Person {
    /// A person called `name`, `age` years old.
    pub fn new(name: String, age: u32) -> (person: Person)
        ensures
            person.name == name,
            person.age == age,
    {
        Person { name, age }
    }

    /// The name as the bytes by which names are ordered.
    pub open spec fn name_bytes(self) -> Seq<u8> {
        encode_utf8(self.name@)
    }
}

/// People by name in dictionary order of its bytes, those of one name by
/// age, youngest first.
pub struct ByNameThenAge;

impl Order<Person> for ByNameThenAge {
    open spec fn precedes(a: Person, b: Person) -> bool {
        if bytes_le(a.name_bytes(), b.name_bytes()) && bytes_le(b.name_bytes(), a.name_bytes()) {
            a.age <= b.age
        } else {
            bytes_le(a.name_bytes(), b.name_bytes())
        }
    }

    fn in_order(a: &Person, b: &Person) -> (yes: bool) {
        let forth = bytes_in_order(a.name.as_str().as_bytes(), b.name.as_str().as_bytes());
        let back = bytes_in_order(b.name.as_str().as_bytes(), a.name.as_str().as_bytes());
        if forth && back {
            a.age <= b.age
        } else {
            forth
        }
    }

    proof fn total(a: Person, b: Person) {
        lemma_bytes_le_total(a.name_bytes(), b.name_bytes(), 0);
    }

    proof fn transitive(a: Person, b: Person, c: Person) {
        let (x, y, z) = (a.name_bytes(), b.name_bytes(), c.name_bytes());
        lemma_bytes_le_transitive(x, y, z, 0);
        if bytes_le(z, x) {
            lemma_bytes_le_transitive(z, x, y, 0);
            if bytes_le(y, x) {
                lemma_bytes_le_transitive(y, x, z, 0);
            }
            if bytes_le(z, y) {
                lemma_bytes_le_transitive(y, z, x, 0);
            }
        }
    }
}

/// People by age, oldest first.
pub struct ByAgeDescending;

impl Order<Person> for ByAgeDescending {
    open spec fn precedes(a: Person, b: Person) -> bool {
        a.age >= b.age
    }

    fn in_order(a: &Person, b: &Person) -> (yes: bool) {
        a.age >= b.age
    }

    proof fn total(a: Person, b: Person) {
    }

    proof fn transitive(a: Person, b: Person, c: Person) {
    }
}

/// Three values of which each must stand before the next can be sorted in
/// one way only.
proof fn lemma_sorted_three<T, O: Order<T>>(s: Seq<T>, unsorted: Seq<T>, a: T, b: T, c: T)
    requires
        sorted::<T, O>(s),
        s.to_multiset() == unsorted.to_multiset(),
        unsorted.len() == 3,
        unsorted.contains(a),
        unsorted.contains(b),
        unsorted.contains(c),
        !O::precedes(b, a),
        !O::precedes(c, b),
        !O::precedes(c, a),
    ensures
        s == seq![a, b, c],
{
    vstd::seq_lib::to_multiset_len(s);
    vstd::seq_lib::to_multiset_len(unsorted);
    assert forall|x: T| unsorted.contains(x) implies s.contains(x) by {
        vstd::seq_lib::to_multiset_contains(unsorted, x);
        vstd::seq_lib::to_multiset_contains(s, x);
    }
    O::total(a, a);
    O::total(b, b);
    let ka = choose|k: int| 0 <= k < s.len() && s[k] == a;
    let kb = choose|k: int| 0 <= k < s.len() && s[k] == b;
    let kc = choose|k: int| 0 <= k < s.len() && s[k] == c;
    assert(ka < kb) by {
        if kb < ka {
            assert(O::precedes(s[kb], s[ka]));
        }
    }
    assert(kb < kc) by {
        if kc < kb {
            assert(O::precedes(s[kc], s[kb]));
        }
    }
    assert(s =~= seq![a, b, c]);
}

/// Sorts a sample of three people twice: by name, which gives Al, John,
/// Zoe, and then by age from the oldest, which gives Al (60), Zoe (25),
/// John (1). The second order is returned.
pub fn sort_struct_vector() -> (people: Vec<Person>)
    ensures
        people@.len() == 3,
        people@[0].name@ == "Al"@ && people@[0].age == 60,
        people@[1].name@ == "Zoe"@ && people@[1].age == 25,
        people@[2].name@ == "John"@ && people@[2].age == 1,
{
    let mut people: Vec<Person> = Vec::new();
    people.push(Person::new("Zoe".to_string(), 25));
    people.push(Person::new("Al".to_string(), 60));
    people.push(Person::new("John".to_string(), 1));
    let ghost unsorted = people@;
    let ghost (zoe, al, john) = (unsorted[0], unsorted[1], unsorted[2]);
    proof {
        broadcast use vstd::string::to_string_from_display_ensures_for_str;

        reveal_strlit("Zoe");
        reveal_strlit("Al");
        reveal_strlit("John");
        vstd::string::is_ascii_spec_bytes("Zoe");
        vstd::string::is_ascii_spec_bytes("Al");
        vstd::string::is_ascii_spec_bytes("John");
        assert(zoe.name_bytes()[0] == 90 && al.name_bytes()[0] == 65 && john.name_bytes()[0]
            == 74);
    }
    sort_by::<Person, ByNameThenAge>(&mut people);
    proof {
        lemma_sorted_three::<Person, ByNameThenAge>(people@, unsorted, al, john, zoe);
        assert(people@ == seq![al, john, zoe]);
    }
    let ghost by_name = people@;
    sort_by::<Person, ByAgeDescending>(&mut people);
    proof {
        assert(by_name[0] == al && by_name[1] == john && by_name[2] == zoe);
        lemma_sorted_three::<Person, ByAgeDescending>(people@, by_name, al, zoe, john);
    }
    people
}

} // verus!
