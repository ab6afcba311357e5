use core::any::TypeId;
use core::hash::Hash;
use core::hash::Hasher;
use tt_bridge::TypeIdHasher;

fn verify_hashing_with(type_id: TypeId) {
    let mut hasher = TypeIdHasher::default();
    type_id.hash(&mut hasher);
    let _ = hasher.finish();
}

#[test]
fn type_id_hasher() {
    verify_hashing_with(TypeId::of::<usize>());
    verify_hashing_with(TypeId::of::<()>());
    verify_hashing_with(TypeId::of::<str>());
    verify_hashing_with(TypeId::of::<&str>());
    verify_hashing_with(TypeId::of::<Vec<u8>>());
}

#[test]
fn hasher_keeps_eight_byte_value() {
    let mut hasher = TypeIdHasher::new();
    assert_eq!(hasher.finish(), 0);
    hasher.write(&0x0102_0304_0506_0708u64.to_ne_bytes());
    assert_eq!(hasher.finish(), 0x0102_0304_0506_0708);
}

#[test]
fn hasher_ignores_other_lengths() {
    let mut hasher = TypeIdHasher::new();
    hasher.write(&7u64.to_ne_bytes());
    hasher.write(&[1, 2, 3]);
    assert_eq!(hasher.finish(), 7);
}
