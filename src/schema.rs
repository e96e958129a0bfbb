//! The schema index: header names in file order, resolved by name.

use vstd::prelude::*;
use vstd::string::*;
use csv::StringRecord;
use crate::record::record_fields;
use crate::text::views;

verus! {

/// `i` is the first position of `name` in `names`.
pub open spec fn is_first_index(names: Seq<Seq<char>>, name: Seq<char>, i: int) -> bool {
    &&& 0 <= i < names.len()
    &&& names[i] == name
    &&& forall|j: int| 0 <= j < i ==> names[j] != name
}

/// Where `name` resolves in `names`: its first position, as duplicate headers
/// resolve to the leftmost column.
pub open spec fn lookup(names: Seq<Seq<char>>, name: Seq<char>) -> Option<int> {
    if exists|i: int| is_first_index(names, name, i) {
        Some(choose|i: int| is_first_index(names, name, i))
    } else {
        None
    }
}

/// The first position of a name is where it resolves.
pub proof fn lemma_lookup_found(names: Seq<Seq<char>>, name: Seq<char>, i: int)
    requires
        is_first_index(names, name, i),
    ensures
        lookup(names, name) == Some(i),
{
    let k = choose|k: int| is_first_index(names, name, k);
    assert(is_first_index(names, name, k));
    if k < i {
        assert(names[k] != name);
    } else if i < k {
        assert(names[i] != name);
    }
}

/// A resolved name is a position of that name.
pub proof fn lemma_lookup_valid(names: Seq<Seq<char>>, name: Seq<char>)
    ensures
        lookup(names, name) matches Some(i) ==> is_first_index(names, name, i),
        lookup(names, name) is None <==> !names.contains(name),
{
    if lookup(names, name) is None {
        if names.contains(name) {
            let j = choose|j: int| 0 <= j < names.len() && names[j] == name;
            lemma_first_of(names, name, j);
        }
    } else {
        let i = lookup(names, name)->0;
        assert(names[i] == name);
    }
}

proof fn lemma_first_of(names: Seq<Seq<char>>, name: Seq<char>, j: int)
    requires
        0 <= j < names.len(),
        names[j] == name,
    ensures
        exists|i: int| is_first_index(names, name, i),
    decreases j,
{
    if exists|k: int| 0 <= k < j && names[k] == name {
        let k = choose|k: int| 0 <= k < j && names[k] == name;
        lemma_first_of(names, name, k);
    } else {
        assert(is_first_index(names, name, j));
    }
}

/// The header names of one file, in column order.
pub struct Schema {
    names: Vec<String>,
}

impl View for Schema {
    type V = Seq<Seq<char>>;

    closed spec fn view(&self) -> Seq<Seq<char>> {
        views(self.names@)
    }
}

impl Schema {
    /// A schema over the given header names.
    pub fn from_names(names: Vec<String>) -> (r: Schema)
        ensures
            r@ == views(names@),
    {
        Schema { names }
    }

    /// A schema over the fields of a header record.
    pub fn from_record(header: &StringRecord) -> (r: Schema)
        ensures
            r@ == record_fields(*header),
    {
        let n = header.len();
        let mut names: Vec<String> = Vec::new();
        let mut i: usize = 0;
        while i < n
            invariant
                n == record_fields(*header).len(),
                i <= n,
                views(names@) == record_fields(*header).take(i as int),
            decreases n - i,
        {
            let field = header.get(i).unwrap();
            let ghost prev = names@;
            names.push(String::from_str(field));
            proof {
                assert(views(names@) =~= views(prev).push(record_fields(*header)[i as int]));
                assert(record_fields(*header).take(i + 1) =~= record_fields(*header).take(
                    i as int,
                ).push(record_fields(*header)[i as int]));
            }
            i = i + 1;
        }
        proof {
            assert(record_fields(*header).take(n as int) =~= record_fields(*header));
        }
        Schema { names }
    }

    /// The number of columns.
    pub fn column_count(&self) -> (n: usize)
        ensures
            n == self@.len(),
    {
        self.names.len()
    }

    /// The name of column `i`.
    pub fn name(&self, i: usize) -> (r: &str)
        requires
            i < self@.len(),
        ensures
            r@ == self@[i as int],
    {
        self.names[i].as_str()
    }

    /// The column that `name` resolves to: the leftmost with that name.
    pub fn resolve(&self, name: &str) -> (r: Option<usize>)
        ensures
            r matches Some(i) ==> lookup(self@, name@) == Some(i as int),
            r is None ==> lookup(self@, name@) is None,
    {
        let target = String::from_str(name);
        let mut i: usize = 0;
        while i < self.names.len()
            invariant
                i <= self@.len(),
                self@.len() == self.names@.len(),
                target@ == name@,
                forall|j: int| 0 <= j < i ==> self@[j] != name@,
            decreases self.names.len() - i,
        {
            if self.names[i] == target {
                proof {
                    lemma_lookup_found(self@, name@, i as int);
                }
                return Some(i);
            }
            i = i + 1;
        }
        None
    }
}

} // verus!
