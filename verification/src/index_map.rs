//! A map from the names of indices, in the order of the names.

use vstd::prelude::*;
use vstd::utf8::encode_utf8;

verus! {

/// `a` comes before `b` in the lexicographic order of byte strings.
pub open spec fn bytes_before(a: Seq<u8>, b: Seq<u8>) -> bool
    decreases a.len(),
{
    if b.len() == 0 {
        false
    } else if a.len() == 0 {
        true
    } else if a[0] == b[0] {
        bytes_before(a.drop_first(), b.drop_first())
    } else {
        a[0] < b[0]
    }
}

/// The name `a` comes before the name `b`: strings are ordered by their bytes.
pub open spec fn name_before(a: Seq<char>, b: Seq<char>) -> bool {
    bytes_before(encode_utf8(a), encode_utf8(b))
}

/// The names of the entries rise strictly.
pub open spec fn is_sorted<T>(entries: Seq<(String, T)>) -> bool {
    forall|i: int, j: int|
        0 <= i < j < entries.len() ==> name_before(
            #[trigger] entries[i].0@,
            #[trigger] entries[j].0@,
        )
}

/// No string comes before itself.
pub proof fn lemma_irreflexive(a: Seq<u8>)
    ensures
        !bytes_before(a, a),
    decreases a.len(),
{
    if a.len() > 0 {
        lemma_irreflexive(a.drop_first());
    }
}

/// The order is transitive.
pub proof fn lemma_transitive(a: Seq<u8>, b: Seq<u8>, c: Seq<u8>)
    requires
        bytes_before(a, b),
        bytes_before(b, c),
    ensures
        bytes_before(a, c),
    decreases a.len(),
{
    if a.len() > 0 && a[0] == b[0] && b[0] == c[0] {
        lemma_transitive(a.drop_first(), b.drop_first(), c.drop_first());
    }
}

/// Of two different strings, one comes before the other.
pub proof fn lemma_total(a: Seq<u8>, b: Seq<u8>)
    requires
        !bytes_before(a, b),
        !bytes_before(b, a),
    ensures
        a == b,
    decreases a.len(),
{
    if a.len() > 0 && b.len() > 0 {
        lemma_total(a.drop_first(), b.drop_first());
        assert(a == seq![a[0]] + a.drop_first());
        assert(b == seq![b[0]] + b.drop_first());
    } else {
        assert(a == b);
    }
}

/// Two names with the same bytes are the same.
pub proof fn lemma_same_name(a: Seq<char>, b: Seq<char>)
    requires
        !name_before(a, b),
        !name_before(b, a),
    ensures
        a == b,
{
    lemma_total(encode_utf8(a), encode_utf8(b));
    vstd::utf8::encode_utf8_decode_utf8(a);
    vstd::utf8::encode_utf8_decode_utf8(b);
}

/// How one name compares to another.
pub enum NameOrder {
    /// The first comes before the second.
    Before,
    /// They are the same.
    Same,
    /// The first comes after the second.
    After,
}

/// The common beginning of two byte strings does not matter for their order.
proof fn lemma_skip_common(a: Seq<u8>, b: Seq<u8>, n: int)
    requires
        0 <= n <= a.len(),
        n <= b.len(),
        a.take(n) == b.take(n),
    ensures
        bytes_before(a, b) == bytes_before(a.skip(n), b.skip(n)),
    decreases n,
{
    if n == 0 {
        assert(a.skip(0) == a);
        assert(b.skip(0) == b);
    } else {
        assert(a[0] == a.take(n)[0] && b[0] == b.take(n)[0]);
        let x = a.drop_first();
        let y = b.drop_first();
        assert(x.take(n - 1) == a.take(n).skip(1));
        assert(y.take(n - 1) == b.take(n).skip(1));
        lemma_skip_common(x, y, n - 1);
        assert(x.skip(n - 1) == a.skip(n));
        assert(y.skip(n - 1) == b.skip(n));
    }
}

/// Find out which of two names comes first.
pub fn order_of(a: &str, b: &str) -> (order: NameOrder)
    ensures
        match order {
            NameOrder::Before => name_before(a@, b@),
            NameOrder::Same => a@ == b@,
            NameOrder::After => name_before(b@, a@),
        },
{
    let x = a.as_bytes();
    let y = b.as_bytes();
    let mut i: usize = 0;
    while i < x.len() && i < y.len()
        invariant
            i <= x@.len(),
            i <= y@.len(),
            x@ == encode_utf8(a@),
            y@ == encode_utf8(b@),
            x@.take(i as int) == y@.take(i as int),
        decreases x@.len() - i,
    {
        if x[i] != y[i] {
            proof {
                lemma_skip_common(x@, y@, i as int);
                lemma_skip_common(y@, x@, i as int);
            }
            return if x[i] < y[i] {
                NameOrder::Before
            } else {
                NameOrder::After
            };
        }
        proof {
            assert(x@.take(i + 1) == x@.take(i as int).push(x@[i as int]));
            assert(y@.take(i + 1) == y@.take(i as int).push(y@[i as int]));
        }
        i += 1;
    }
    proof {
        lemma_skip_common(x@, y@, i as int);
        lemma_skip_common(y@, x@, i as int);
    }
    if i < y.len() {
        NameOrder::Before
    } else if i < x.len() {
        NameOrder::After
    } else {
        proof {
            assert(x@.take(i as int) == x@);
            assert(y@.take(i as int) == y@);
            lemma_irreflexive(x@);
            lemma_same_name(a@, b@);
        }
        NameOrder::Same
    }
}

/// The entry at place `i` is for `name`.
pub open spec fn is_entry<T>(entries: Seq<(String, T)>, name: Seq<char>, i: int) -> bool {
    0 <= i < entries.len() && entries[i].0@ == name
}

/// The map from the names of the `entries` to their values.
pub open spec fn as_map<T>(entries: Seq<(String, T)>) -> Map<Seq<char>, T> {
    Map::new(
        |name: Seq<char>| exists|i: int| is_entry(entries, name, i),
        |name: Seq<char>| entries[choose|i: int| is_entry(entries, name, i)].1,
    )
}

/// The names of the `entries`.
pub open spec fn names<T>(entries: Seq<(String, T)>) -> Seq<Seq<char>> {
    entries.map_values(|entry: (String, T)| entry.0@)
}

/// Where names rise strictly, a name has at most one entry.
pub proof fn lemma_entry<T>(entries: Seq<(String, T)>, name: Seq<char>, i: int)
    requires
        is_sorted(entries),
        is_entry(entries, name, i),
    ensures
        as_map(entries).contains_key(name),
        as_map(entries)[name] == entries[i].1,
        forall|j: int| #[trigger] is_entry(entries, name, j) ==> j == i,
{
    assert forall|j: int| #[trigger] is_entry(entries, name, j) implies j == i by {
        lemma_irreflexive(encode_utf8(name));
        if i < j {
            assert(name_before(entries[i].0@, entries[j].0@));
        } else if j < i {
            assert(name_before(entries[j].0@, entries[i].0@));
        }
    }
}

/// Entries with the same names in the same places have the same order and the same domain.
pub proof fn lemma_same_names<T, U>(entries: Seq<(String, T)>, others: Seq<(String, U)>)
    requires
        is_sorted(entries),
        entries.len() == others.len(),
        forall|i: int| 0 <= i < entries.len() ==> #[trigger] others[i].0 == entries[i].0,
    ensures
        is_sorted(others),
        names(others) == names(entries),
        as_map(others).dom() == as_map(entries).dom(),
{
    assert forall|i: int, j: int| 0 <= i < j < others.len() implies name_before(
        #[trigger] others[i].0@,
        #[trigger] others[j].0@,
    ) by {
        assert(others[i].0 == entries[i].0 && others[j].0 == entries[j].0);
    }
    assert forall|name: Seq<char>| as_map(others).dom().contains(name) == as_map(
        entries,
    ).dom().contains(name) by {
        if exists|i: int| is_entry(entries, name, i) {
            let i = choose|i: int| is_entry(entries, name, i);
            assert(is_entry(others, name, i));
        }
        if exists|i: int| is_entry(others, name, i) {
            let i = choose|i: int| is_entry(others, name, i);
            assert(is_entry(entries, name, i));
        }
    }
    assert(as_map(others).dom() =~= as_map(entries).dom());
}

/// A map from names to values of type `T`, which is walked in the order of the names.
pub struct IndexMap<T> {
    entries: Vec<(String, T)>,
}

impl<T> View for IndexMap<T> {
    type V = Map<Seq<char>, T>;

    /// The value of each name.
    open spec fn view(&self) -> Map<Seq<char>, T> {
        as_map(self.spec_entries())
    }
}

impl<T> IndexMap<T> {
    /// The entries of the map, in order.
    pub closed spec fn spec_entries(self) -> Seq<(String, T)> {
        self.entries@
    }

    #[verifier::type_invariant]
    spec fn is_well_formed(self) -> bool {
        is_sorted(self.entries@)
    }

    /// Construct an empty map.
    pub fn new() -> (map: Self)
        ensures
            map.spec_entries() == Seq::<(String, T)>::empty(),
            map@ == Map::<Seq<char>, T>::empty(),
    {
        let map = IndexMap { entries: Vec::new() };
        assert(map@ =~= Map::<Seq<char>, T>::empty());
        map
    }

    /// The number of entries.
    pub fn len(&self) -> (len: usize)
        ensures
            len == self.spec_entries().len(),
            is_sorted(self.spec_entries()),
    {
        proof {
            use_type_invariant(self);
        }
        self.entries.len()
    }

    /// The name and the value of the entry at place `i`.
    pub fn at(&self, i: usize) -> (entry: (&String, &T))
        requires
            i < self.spec_entries().len(),
        ensures
            *entry.0 == self.spec_entries()[i as int].0,
            *entry.1 == self.spec_entries()[i as int].1,
            self@.contains_key(entry.0@),
            self@[entry.0@] == *entry.1,
    {
        proof {
            use_type_invariant(self);
            lemma_entry(self.entries@, self.entries@[i as int].0@, i as int);
        }
        let entry = &self.entries[i];
        (&entry.0, &entry.1)
    }

    /// All entries, in order.
    pub fn into_entries(self) -> (entries: Vec<(String, T)>)
        ensures
            entries@ == self.spec_entries(),
            is_sorted(entries@),
    {
        proof {
            use_type_invariant(&self);
        }
        self.entries
    }

    /// Apply `f` to every value.
    pub fn map<U, F: Fn(T) -> U>(self, f: F) -> (map: IndexMap<U>)
        requires
            forall|value: T| #[trigger] call_requires(f, (value,)),
        ensures
            names(map.spec_entries()) == names(self.spec_entries()),
            map@.dom() == self@.dom(),
            forall|name: Seq<char>| #[trigger]
                map@.contains_key(name) ==> call_ensures(f, (self@[name],), map@[name]),
    {
        proof {
            use_type_invariant(&self);
        }
        let ghost source = self.entries@;
        let mut rest = self.entries;
        let mut mapped: Vec<(String, U)> = Vec::new();
        while rest.len() > 0
            invariant
                forall|value: T| #[trigger] call_requires(f, (value,)),
                rest@.len() + mapped@.len() == source.len(),
                rest@ == source.skip(mapped@.len() as int),
                forall|j: int|
                    0 <= j < mapped@.len() ==> {
                        &&& #[trigger] mapped@[j].0 == source[j].0
                        &&& call_ensures(f, (source[j].1,), mapped@[j].1)
                    },
            decreases rest@.len(),
        {
            let ghost n = mapped@.len() as int;
            let (name, value) = rest.remove(0);
            proof {
                assert(source.skip(n)[0] == source[n]);
                assert(source.skip(n).remove(0) == source.skip(n + 1));
            }
            mapped.push((name, f(value)));
        }
        proof {
            lemma_same_names(source, mapped@);
            assert forall|name: Seq<char>| #[trigger] as_map(mapped@).contains_key(name)
                implies call_ensures(f, (as_map(source)[name],), as_map(mapped@)[name]) by {
                let j = choose|j: int| is_entry(mapped@, name, j);
                lemma_entry(mapped@, name, j);
                lemma_entry(source, name, j);
            }
        }
        IndexMap { entries: mapped }
    }

    /// The place of `name`, if it is there, and else the place where it belongs.
    fn find(&self, name: &str) -> (found: Result<usize, usize>)
        ensures
            match found {
                Ok(i) => is_entry(self.spec_entries(), name@, i as int),
                Err(i) => {
                    &&& i <= self.spec_entries().len()
                    &&& forall|j: int|
                        0 <= j < i ==> name_before(
                            #[trigger] self.spec_entries()[j].0@,
                            name@,
                        )
                    &&& forall|j: int|
                        i <= j < self.spec_entries().len() ==> name_before(
                            name@,
                            #[trigger] self.spec_entries()[j].0@,
                        )
                },
            },
    {
        proof {
            use_type_invariant(self);
        }
        let mut i: usize = 0;
        while i < self.entries.len()
            invariant
                i <= self.entries@.len(),
                is_sorted(self.entries@),
                forall|j: int| 0 <= j < i ==> name_before(#[trigger] self.entries@[j].0@, name@),
            decreases self.entries@.len() - i,
        {
            match order_of(self.entries[i].0.as_str(), name) {
                NameOrder::Before => {},
                NameOrder::Same => {
                    return Ok(i);
                },
                NameOrder::After => {
                    proof {
                        assert forall|j: int| i <= j < self.entries@.len() implies name_before(
                            name@,
                            #[trigger] self.entries@[j].0@,
                        ) by {
                            if i < j {
                                assert(name_before(
                                    self.entries@[i as int].0@,
                                    self.entries@[j].0@,
                                ));
                                lemma_transitive(
                                    encode_utf8(name@),
                                    encode_utf8(self.entries@[i as int].0@),
                                    encode_utf8(self.entries@[j].0@),
                                );
                            }
                        }
                    }
                    return Err(i);
                },
            }
            i += 1;
        }
        Err(i)
    }

    /// Look up the value of `name`.
    pub fn get(&self, name: &str) -> (value: Option<&T>)
        ensures
            match value {
                Some(value) => self@.contains_key(name@) && self@[name@] == *value,
                None => !self@.contains_key(name@),
            },
    {
        proof {
            use_type_invariant(self);
        }
        match self.find(name) {
            Ok(i) => {
                proof {
                    lemma_entry(self.entries@, name@, i as int);
                }
                Some(&self.entries[i].1)
            },
            Err(i) => {
                proof {
                    if self@.contains_key(name@) {
                        let j = choose|j: int| is_entry(self.entries@, name@, j);
                        lemma_irreflexive(encode_utf8(name@));
                        assert(self.entries@[j].0@ == name@);
                    }
                }
                None
            },
        }
    }

    /// Set the value of `name`, in place of the one it has, if any.
    pub fn insert(&mut self, name: String, value: T)
        ensures
            final(self)@ == old(self)@.insert(name@, value),
            is_sorted(final(self).spec_entries()),
    {
        proof {
            use_type_invariant(&*self);
        }
        let ghost before = self.entries@;
        let found = self.find(name.as_str());
        let mut entries: Vec<(String, T)> = Vec::new();
        std::mem::swap(&mut entries, &mut self.entries);
        match found {
            Ok(i) => {
                entries[i] = (name, value);
                proof {
                    let after = entries@;
                    lemma_entry(before, name@, i as int);
                    assert forall|j: int, k: int| 0 <= j < k < after.len() implies name_before(
                        #[trigger] after[j].0@,
                        #[trigger] after[k].0@,
                    ) by {
                        assert(after[j].0@ == before[j].0@);
                        assert(after[k].0@ == before[k].0@);
                    }
                    assert(is_entry(after, name@, i as int));
                    lemma_entry(after, name@, i as int);
                    assert forall|other: Seq<char>| other != name@ implies {
                        &&& #[trigger] as_map(after).dom().contains(other) == as_map(
                            before,
                        ).dom().contains(other)
                        &&& as_map(after).contains_key(other) ==> as_map(after)[other] == as_map(
                            before,
                        )[other]
                    } by {
                        if exists|j: int| is_entry(before, other, j) {
                            let j = choose|j: int| is_entry(before, other, j);
                            assert(is_entry(after, other, j));
                            lemma_entry(before, other, j);
                            lemma_entry(after, other, j);
                        }
                        if exists|j: int| is_entry(after, other, j) {
                            let j = choose|j: int| is_entry(after, other, j);
                            assert(is_entry(before, other, j));
                        }
                    }
                }
            },
            Err(i) => {
                let ghost added = name@;
                entries.insert(i, (name, value));
                proof {
                    let after = entries@;
                    assert forall|j: int, k: int| 0 <= j < k < after.len() implies name_before(
                        #[trigger] after[j].0@,
                        #[trigger] after[k].0@,
                    ) by {
                        let x = if j < i { j } else { j - 1 };
                        let y = if k < i { k } else { k - 1 };
                        if j != i {
                            assert(after[j] == before[x]);
                        }
                        if k != i {
                            assert(after[k] == before[y]);
                        }
                    }
                    assert(is_entry(after, added, i as int));
                    lemma_entry(after, added, i as int);
                    assert forall|other: Seq<char>| other != added implies {
                        &&& #[trigger] as_map(after).dom().contains(other) == as_map(
                            before,
                        ).dom().contains(other)
                        &&& as_map(after).contains_key(other) ==> as_map(after)[other] == as_map(
                            before,
                        )[other]
                    } by {
                        if exists|j: int| is_entry(before, other, j) {
                            let j = choose|j: int| is_entry(before, other, j);
                            let k = if j < i { j } else { j + 1 };
                            assert(after[k] == before[j]);
                            assert(is_entry(after, other, k));
                            lemma_entry(before, other, j);
                            lemma_entry(after, other, k);
                        }
                        if exists|j: int| is_entry(after, other, j) {
                            let j = choose|j: int| is_entry(after, other, j);
                            let k = if j < i { j } else { j - 1 };
                            assert(after[j] == before[k]);
                            assert(is_entry(before, other, k));
                        }
                    }
                }
            },
        }
        proof {
            assert(as_map(entries@) =~= as_map(before).insert(name@, value));
        }
        self.entries = entries;
    }
}

impl<T: Clone> Clone for IndexMap<T> {
    fn clone(&self) -> (copy: Self)
        ensures
            names(copy.spec_entries()) == names(self.spec_entries()),
            copy@.dom() == self@.dom(),
            forall|name: Seq<char>| #[trigger]
                copy@.contains_key(name) ==> cloned(self@[name], copy@[name]),
    {
        proof {
            use_type_invariant(self);
        }
        let mut entries: Vec<(String, T)> = Vec::new();
        let mut i: usize = 0;
        while i < self.entries.len()
            invariant
                i <= self.entries@.len(),
                i == entries@.len(),
                forall|j: int|
                    0 <= j < i ==> {
                        &&& #[trigger] entries@[j].0 == self.entries@[j].0
                        &&& cloned(self.entries@[j].1, entries@[j].1)
                    },
            decreases self.entries@.len() - i,
        {
            let entry = &self.entries[i];
            let name = entry.0.clone();
            let value = entry.1.clone();
            assert(cloned(self.entries@[i as int].1, value));
            assert(name == self.entries@[i as int].0);
            entries.push((name, value));
            i += 1;
        }
        proof {
            lemma_same_names(self.entries@, entries@);
            assert forall|name: Seq<char>| #[trigger] as_map(entries@).contains_key(name) implies cloned(
                as_map(self.entries@)[name],
                as_map(entries@)[name],
            ) by {
                let j = choose|j: int| is_entry(entries@, name, j);
                lemma_entry(entries@, name, j);
                lemma_entry(self.entries@, name, j);
            }
        }
        IndexMap { entries }
    }
}

} // verus!
