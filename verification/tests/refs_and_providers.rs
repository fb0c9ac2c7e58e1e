use strutters::OwnedRef;
use strutters::OwningRef;
use strutters::provider::ClosureProvider;
use strutters::provider::ObjectProvider;
use strutters::provider::Provider;

#[test]
fn owned_ref_concrete() {
    let owned: OwnedRef<i32> = OwnedRef::Concrete(5);
    assert_eq!(owned.concrete(), 5);
    let value = 7;
    let borrowed: OwnedRef<i32> = OwnedRef::Reference(&value);
    assert_eq!(borrowed.concrete(), 7);
}

#[test]
fn owning_ref_concrete() {
    let owned: OwningRef<i32> = OwningRef::Concrete(5);
    assert_eq!(owned.concrete(), 5);
    let value = 7;
    let borrowed: OwningRef<i32> = OwningRef::Reference(&value);
    assert_eq!(borrowed.concrete(), 7);
}

#[test]
fn providers_create() {
    assert_eq!(ObjectProvider::from(1337).create(), 1337);
    assert_eq!(ClosureProvider::from(|| 1337).create(), 1337);
    let object = ObjectProvider::from(9);
    assert_eq!(object.create(), 9);
    assert_eq!(object.create(), 9);
}
