//! Field names: the names the library gives a meaning to, and comparisons of names.

use vstd::prelude::*;

verus! {

/// The name that the first field of every point cloud carries.
pub open spec fn x_name() -> Seq<char> {
    seq!['x']
}

/// The name that the second field of every point cloud carries.
pub open spec fn y_name() -> Seq<char> {
    seq!['y']
}

/// The name that the third field of every point cloud carries.
pub open spec fn z_name() -> Seq<char> {
    seq!['z']
}

/// The name of the field that holds the row of a point in an organized cloud.
pub open spec fn row_name() -> Seq<char> {
    seq!['r', 'o', 'w']
}

/// The name of the field that holds the column of a point in an organized cloud.
pub open spec fn column_name() -> Seq<char> {
    seq!['c', 'o', 'l', 'u', 'm', 'n']
}

/// Whether `s` holds exactly the characters of `name`.
pub fn is_named(s: &String, name: &str) -> (r: bool)
    ensures
        r == (s@ == name@),
{
    let expected = String::from_str(name);
    *s == expected
}

/// The names of a sequence of strings.
pub open spec fn names_of(names: Seq<String>) -> Seq<Seq<char>> {
    names.map_values(|s: String| s@)
}

/// The name of the field that tells, after a merge, which cloud a point
/// came from.
pub open spec fn filename_name() -> Seq<char> {
    seq!['f', 'i', 'l', 'e', 'n', 'a', 'm', 'e']
}

/// Whether two lists of names are equal.
pub fn same_names(a: &Vec<String>, b: &Vec<String>) -> (r: bool)
    ensures
        r == (names_of(a@) == names_of(b@)),
{
    if a.len() != b.len() {
        proof {
            assert(names_of(a@).len() != names_of(b@).len());
        }
        return false;
    }
    let n = a.len();
    let mut i: usize = 0;
    while i < n
        invariant
            n == a.len(),
            n == b.len(),
            i <= n,
            forall|j: int| 0 <= j < i ==> #[trigger] a@[j]@ == b@[j]@,
        decreases n - i,
    {
        if a[i] != b[i] {
            proof {
                assert(names_of(a@)[i as int] != names_of(b@)[i as int]);
            }
            return false;
        }
        i += 1;
    }
    proof {
        assert(names_of(a@) =~= names_of(b@));
    }
    true
}

/// Whether `names` holds `name`.
pub fn contains_name(names: &Vec<String>, name: &str) -> (r: bool)
    ensures
        r == names_of(names@).contains(name@),
{
    let expected = String::from_str(name);
    let n = names.len();
    let mut i: usize = 0;
    while i < n
        invariant
            n == names.len(),
            i <= n,
            expected@ == name@,
            forall|j: int| 0 <= j < i ==> #[trigger] names@[j]@ != name@,
        decreases n - i,
    {
        if names[i] == expected {
            proof {
                assert(names_of(names@)[i as int] == name@);
            }
            return true;
        }
        i += 1;
    }
    proof {
        if names_of(names@).contains(name@) {
            let k = choose|k: int| 0 <= k < names_of(names@).len() && names_of(names@)[k] == name@;
            assert(names@[k]@ == name@);
        }
    }
    false
}

} // verus!
