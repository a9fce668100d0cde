//! Deduplicated strings with stable indices.
//!
//! The interner keeps every distinct string once, in the order of first
//! appearance, and a hash map from content to position. A string handed in
//! again gets the index it got the first time.

use fnv::FnvHashMap;
use vstd::prelude::*;
use vstd::string::StringExecFns;

verus! {

/// The hasher of the `fnv` crate.
#[verifier::external_type_specification]
#[verifier::external_body]
pub struct ExFnvHasher(fnv::FnvHasher);

/// The hasher factory that `fnv` maps are built with.
#[verifier::external_type_specification]
#[verifier::external_body]
#[verifier::reject_recursive_types(H)]
pub struct ExBuildHasherDefault<H>(std::hash::BuildHasherDefault<H>);

/// The handle of an interned string: its position in the interner.
#[derive(Eq, PartialEq, Copy, Clone, Hash, Debug, Structural)]
pub struct InternedString {
    index: usize,
}

/// A key that compares and hashes by the content of a string: equality is
/// that of the contents, and the hash is that of the one field.
#[derive(Eq, Clone, Hash, Debug)]
pub struct InternedStringRef {
    content: String,
}

impl PartialEq for InternedStringRef {
    fn eq(&self, other: &InternedStringRef) -> (equal: bool) {
        self.content == other.content
    }
}

impl vstd::std_specs::cmp::PartialEqSpecImpl for InternedStringRef {
    open spec fn obeys_eq_spec() -> bool {
        true
    }

    open spec fn eq_spec(&self, other: &InternedStringRef) -> bool {
        self.content() == other.content()
    }
}

pub struct StringInterner {
    indices: FnvHashMap<InternedStringRef, usize>,
    values: Vec<String>,
}

/// What an index map holds: for each content, the index stored under it.
pub uninterp spec fn index_map_contents(map: FnvHashMap<InternedStringRef, usize>) -> Map<
    Seq<char>,
    usize,
>;

/// An empty index map, by `FnvHashMap::default`.
#[verifier::external_body]
fn new_index_map() -> (map: FnvHashMap<InternedStringRef, usize>)
    ensures
        index_map_contents(map).dom() =~= Set::empty(),
{
    FnvHashMap::default()
}

/// The index stored under the content of `key`, by `HashMap::get`, which
/// finds the entry whose key equals `key`.
#[verifier::external_body]
fn lookup_index(map: &FnvHashMap<InternedStringRef, usize>, key: &InternedStringRef) -> (found:
    Option<usize>)
    ensures
        found == (if index_map_contents(*map).contains_key(key.content()) {
            Some(index_map_contents(*map)[key.content()])
        } else {
            None
        }),
{
    map.get(key).copied()
}

/// Stores `index` under the content of `key`, by `HashMap::insert`, which
/// replaces what was stored under an equal key.
#[verifier::external_body]
fn insert_index(map: &mut FnvHashMap<InternedStringRef, usize>, key: InternedStringRef, index: usize)
    ensures
        index_map_contents(*final(map)) == index_map_contents(*old(map)).insert(
            key.content(),
            index,
        ),
{
    map.insert(key, index);
}

/// Number of contents with an index, by `HashMap::len`.
#[verifier::external_body]
fn count_indices(map: &FnvHashMap<InternedStringRef, usize>) -> (count: usize)
    ensures
        count == index_map_contents(*map).dom().len(),
{
    map.len()
}

impl InternedString {
    /// The position of the string in its interner.
    pub closed spec fn position(&self) -> int {
        self.index as int
    }

    pub fn index(&self) -> (index: usize)
        ensures
            index == self.position(),
    {
        self.index
    }
}

impl InternedStringRef {
    /// The characters that the key stands for.
    pub closed spec fn content(&self) -> Seq<char> {
        self.content@
    }

    pub fn to_str(&self) -> (string: &str)
        ensures
            string@ == self.content(),
    {
        self.content.as_str()
    }

    pub fn from_str(string: &str) -> (key: InternedStringRef)
        ensures
            key.content() == string@,
    {
        InternedStringRef { content: String::from_str(string) }
    }
}

/// The state after interning `string` into `strings`, and the index that the
/// string gets: the one it has already, or the next free one.
pub open spec fn interned(strings: Seq<Seq<char>>, string: Seq<char>) -> (Seq<Seq<char>>, int) {
    if strings.contains(string) {
        (strings, strings.index_of(string))
    } else {
        (strings.push(string), strings.len() as int)
    }
}

impl StringInterner {
    /// The interned strings, each at its index.
    pub closed spec fn view(&self) -> Seq<Seq<char>> {
        Seq::new(self.values@.len(), |i: int| self.values@[i]@)
    }

    /// The index map, as a mathematical map.
    pub closed spec fn index_model(&self) -> Map<Seq<char>, usize> {
        index_map_contents(self.indices)
    }

    /// No string is held twice, and the index map knows the position of
    /// exactly the held strings.
    pub open spec fn wf(&self) -> bool {
        &&& self@.no_duplicates()
        &&& self.index_model().dom() =~= self@.to_set()
        &&& forall|i: int| 0 <= i < self@.len() ==> self.index_model()[#[trigger] self@[i]] == i
    }

    pub fn new() -> (interner: StringInterner)
        ensures
            interner.wf(),
            interner@ == Seq::<Seq<char>>::empty(),
    {
        let interner = StringInterner { indices: new_index_map(), values: Vec::new() };
        assert(interner@ =~= Seq::<Seq<char>>::empty());
        assert(interner@.to_set() =~= Set::<Seq<char>>::empty());
        interner
    }

    /// The handle of `string`: it is stored first where no string with the
    /// same content is held yet.
    pub fn intern(&mut self, string: String) -> (symbol: InternedString)
        requires
            old(self).wf(),
        ensures
            final(self).wf(),
            (final(self)@, symbol.position()) == interned(old(self)@, string@),
    {
        let key = InternedStringRef::from_str(string.as_str());
        let ghost before = self@;
        match lookup_index(&self.indices, &key) {
            Some(index) => {
                proof {
                    let at = choose|i: int| 0 <= i < before.len() && before[i] == string@;
                    assert(before[at] == string@);
                    assert(before.index_of(string@) == at);
                }
                InternedString { index: index }
            },
            None => {
                let index = self.values.len();
                self.values.push(string);
                insert_index(&mut self.indices, key, index);
                proof {
                    assert(self@ =~= before.push(string@));
                    assert(!before.contains(string@));
                    assert forall|i: int| 0 <= i < self@.len() implies self.index_model()[
                    #[trigger] self@[i]] == i by {
                        if i < before.len() {
                            assert(before[i] == self@[i]);
                            assert(before.contains(before[i]));
                        }
                    }
                    assert(self@.to_set() =~= before.to_set().insert(string@)) by {
                        assert forall|s: Seq<char>| self@.to_set().contains(s) implies
                            before.to_set().insert(string@).contains(s) by {
                            let i = choose|i: int| 0 <= i < self@.len() && self@[i] == s;
                            if i < before.len() {
                                assert(before[i] == s);
                            }
                        }
                        assert forall|s: Seq<char>|
                            before.to_set().insert(string@).contains(s) implies self@.to_set().contains(
                            s,
                        ) by {
                            if s == string@ {
                                assert(self@[before.len() as int] == s);
                            } else {
                                let i = choose|i: int| 0 <= i < before.len() && before[i] == s;
                                assert(self@[i] == s);
                            }
                        }
                    }
                }
                InternedString { index: index }
            },
        }
    }

    /// The content of an interned string.
    pub fn resolve(&self, symbol: InternedString) -> (string: &str)
        requires
            symbol.position() < self@.len(),
        ensures
            string@ == self@[symbol.position()],
    {
        self.values[symbol.index].as_str()
    }

    /// Number of strings held.
    pub fn len(&self) -> (count: usize)
        ensures
            count == self@.len(),
    {
        self.values.len()
    }

    /// Number of entries of the index map.
    pub fn index_count(&self) -> (count: usize)
        requires
            self.wf(),
        ensures
            count == self@.len(),
    {
        proof {
            self@.unique_seq_to_set();
        }
        count_indices(&self.indices)
    }
}

/// Two strings interned one after the other get the same index exactly where
/// their contents are equal, and a string keeps the index it once got.
pub proof fn lemma_intern_same_index_iff_same_content(
    strings: Seq<Seq<char>>,
    first: Seq<char>,
    second: Seq<char>,
)
    requires
        strings.no_duplicates(),
    ensures
        interned(strings, first).0.no_duplicates(),
        (first == second) <==> interned(interned(strings, first).0, second).1 == interned(
            strings,
            first,
        ).1,
        interned(interned(interned(strings, first).0, second).0, first).1 == interned(
            strings,
            first,
        ).1,
{
    let (after_first, index_first) = interned(strings, first);
    let (after_second, index_second) = interned(after_first, second);
    assert(after_first[index_first] == first);
    assert(after_first.contains(first));
    assert(after_first.no_duplicates());
    assert(after_second[index_second] == second);
    assert(after_second[index_first] == first);
    assert(after_second.contains(first));
    assert(after_second.no_duplicates());
    assert(after_first.index_of(first) == index_first);
    assert(after_second.index_of(first) == index_first);
    if first == second {
        assert(after_first.index_of(second) == index_first);
    }
}

} // verus!
