#![allow(clippy::unit_cmp)]

use canonical::{Id, Repr, Store};

#[test]
fn zero_sized_reprs() {
    let mut store = Store::new();
    let repr = Repr::new(());

    let id = Id::new(&mut store, &repr);

    let restored = id.reify(&store).unwrap();
    assert_eq!((), restored);
}
