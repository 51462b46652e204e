use klocki::bag::Bag;
use klocki::holder::Holder;
use klocki::ShapeType;

#[test]
fn hold_single_use() {
    let mut bag = Bag::new(&[0u8; 32]);
    let mut holder = Holder::default();

    let first = holder.hold(ShapeType::T, &mut bag);
    assert!(first.is_some());

    // The second hold in the same piece lifetime is a no-op.
    let second = holder.hold(ShapeType::L, &mut bag);
    assert_eq!(second, None);

    holder.unlock();
    let third = holder.hold(ShapeType::S, &mut bag);
    assert_eq!(third, Some(ShapeType::T));
}

#[test]
fn first_hold_draws_from_bag() {
    let mut bag = Bag::new(&[5u8; 32]);
    let expected = bag.peek(1)[0];
    let mut holder = Holder::default();
    let swapped = holder.hold(ShapeType::J, &mut bag);
    assert_eq!(swapped, Some(expected));
}
