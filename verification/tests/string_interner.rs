use fnv::FnvHasher;
use rlox::string_interner::{InternedStringRef, StringInterner};
use std::hash::{Hash, Hasher};

#[test]
fn interned_string_refs_equal() {
    let a = "test";
    let b = "test";
    let a_ref = InternedStringRef::from_str(&a);
    let b_ref = InternedStringRef::from_str(&b);

    assert_eq!(a_ref, b_ref);
}

#[test]
fn interned_string_refs_not_equal() {
    let a = "test";
    let b = "test two";
    let a_ref = InternedStringRef::from_str(&a);
    let b_ref = InternedStringRef::from_str(&b);

    assert_ne!(a_ref, b_ref);
}

#[test]
fn interned_string_refs_hash_equal() {
    let a = "test";
    let b = "test";
    let a_ref = InternedStringRef::from_str(&a);
    let b_ref = InternedStringRef::from_str(&b);
    let mut a_hash_builder = FnvHasher::default();
    let mut b_hash_builder = FnvHasher::default();
    a_ref.hash(&mut a_hash_builder);
    b_ref.hash(&mut b_hash_builder);

    assert_eq!(a_hash_builder.finish(), b_hash_builder.finish());
}

#[test]
fn interned_string_refs_hash_not_equal() {
    let a = "test";
    let b = "test two";
    let a_ref = InternedStringRef::from_str(&a);
    let b_ref = InternedStringRef::from_str(&b);
    let mut a_hash_builder = FnvHasher::default();
    let mut b_hash_builder = FnvHasher::default();
    a_ref.hash(&mut a_hash_builder);
    b_ref.hash(&mut b_hash_builder);

    assert_ne!(a_hash_builder.finish(), b_hash_builder.finish());
}

#[test]
fn interned_string_resolve() {
    let s = "test";
    let mut interner = StringInterner::new();
    let interned = interner.intern(s.to_string());
    let resolved = interner.resolve(interned);

    assert_eq!(s, resolved);
}

#[test]
fn interned_string_equal() {
    let a = "test";
    let b = "test";
    let mut interner = StringInterner::new();
    let a_interned = interner.intern(a.to_string());
    let b_interned = interner.intern(b.to_string());

    assert_eq!(a_interned, b_interned);
    assert_eq!(interner.index_count(), 1);
    assert_eq!(interner.len(), 1);
}

#[test]
fn interned_string_not_equal() {
    let a = "test";
    let b = "test two";
    let mut interner = StringInterner::new();
    let a_interned = interner.intern(a.to_string());
    let b_interned = interner.intern(b.to_string());

    assert_ne!(a_interned, b_interned);
    assert_eq!(interner.index_count(), 2);
    assert_eq!(interner.len(), 2);
}

#[test]
fn interned_indices_are_dense_and_stable() {
    let mut interner = StringInterner::new();
    let words = ["one", "two", "one", "three", "two", "one"];
    let indices: Vec<usize> =
        words.iter().map(|word| interner.intern(word.to_string()).index()).collect();
    assert_eq!(indices, vec![0, 1, 0, 2, 1, 0]);
    assert_eq!(interner.len(), 3);
    assert_eq!(interner.index_count(), 3);
    for (word, index) in words.iter().zip(indices) {
        let again = interner.intern(word.to_string());
        assert_eq!(again.index(), index);
        assert_eq!(interner.resolve(again), *word);
    }
}

#[test]
fn interned_key_gives_its_content_back() {
    let key = InternedStringRef::from_str("content");
    assert_eq!(key.to_str(), "content");
}
