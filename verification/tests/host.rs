use canonical::{Id, Store};

/// A counter state as the counter example module keeps it: some junk, and a value.
#[test]
fn counter() {
    let mut store = Store::new();
    let counter: (u32, i32) = (0xffffffff, 99);

    let id = Id::new(&mut store, &counter);
    let mut restored: (u32, i32) = id.reify(&store).unwrap();
    assert_eq!(restored, counter);

    restored.1 += 1;
    let id = Id::new(&mut store, &restored);
    let again: (u32, i32) = id.reify(&store).unwrap();
    assert_eq!(again, (0xffffffff, 100));
}
