use klocki::bag::Bag;
use klocki::shape::all_shape_types;
use klocki::ShapeType;

#[test]
fn bag_test() {
    let seed = [0; 32];
    let mut bag = Bag::new(&seed);
    assert_eq!(14, bag.peek(14).len());

    for _ in 0..7 {
        bag.pop();
    }

    let mut types = Vec::<ShapeType>::with_capacity(7);

    for _ in 0..7 {
        let shape = bag.pop();
        types.push(shape);
    }

    let shapes = all_shape_types();

    for shape in shapes {
        assert!(types.contains(&shape));
    }
}

#[test]
fn bag_every_window_of_seven_is_fair() {
    let seed = [7u8; 32];
    let mut bag = Bag::new(&seed);

    for _ in 0..10 {
        let mut counts = [0usize; 8];
        for _ in 0..7 {
            counts[klocki::shape_code(bag.pop())] += 1;
        }
        for code in 1..=7 {
            assert_eq!(counts[code], 1);
        }
    }
}

#[test]
fn bag_same_seed_same_sequence() {
    let mut seed = [0u8; 32];
    for (i, b) in seed.iter_mut().enumerate() {
        *b = i as u8;
    }
    let mut a = Bag::new(&seed);
    let mut b = Bag::new(&seed);
    for _ in 0..100 {
        assert_eq!(a.pop(), b.pop());
    }
}

#[test]
fn bag_different_seeds_differ_somewhere() {
    let mut a = Bag::new(&[1u8; 32]);
    let mut b = Bag::new(&[2u8; 32]);
    let mut same = true;
    for _ in 0..70 {
        if a.pop() != b.pop() {
            same = false;
        }
    }
    assert!(!same);
}

#[test]
fn bag_peek_does_not_disturb_the_queue() {
    let seed = [3u8; 32];
    let mut bag = Bag::new(&seed);
    let ahead = bag.peek(5);
    assert_eq!(ahead.len(), 5);
    for expected in ahead {
        assert_eq!(bag.pop(), expected);
    }
}

#[test]
fn bag_always_keeps_seven_of_lookahead() {
    let seed = [9u8; 32];
    let mut bag = Bag::new(&seed);
    for _ in 0..50 {
        bag.pop();
        assert!(bag.peek(14).len() >= 7);
    }
}
