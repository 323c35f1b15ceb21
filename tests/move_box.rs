use movebox::{Arena, MovableAllocation, MoveBox};

#[test]
fn it_works() {
    let mut bx1 = MoveBox::new(5);
    assert_eq!(*bx1.read(), 5);
    bx1.relocate();
    assert_eq!(*bx1.read(), 5);
    let mut bx2 = MoveBox::new(6);
    assert_eq!(*bx2.read(), 6);
    bx1.relocate();
    bx2.relocate();
    assert_eq!(*bx1.read(), 5);
    assert_eq!(*bx2.read(), 6);
}

#[test]
fn value_survives_one_relocation() {
    let mut h = MoveBox::new(5);
    assert_eq!(*h.read(), 5);
    h.relocate();
    assert_eq!(*h.read(), 5);
}

#[test]
fn two_handles_relocate_independently() {
    let mut h1 = MoveBox::new(5);
    let mut h2 = MoveBox::new(6);
    h1.relocate();
    h2.relocate();
    assert_eq!(*h1.read(), 5);
    assert_eq!(*h2.read(), 6);
}

#[test]
fn second_relocation_without_access_is_refused() {
    let mut h = MoveBox::new(1);
    assert!(h.can_relocate());
    h.relocate();
    assert!(!h.can_relocate());
    assert_eq!(*h.read(), 1);
    assert!(h.can_relocate());
}

#[test]
fn write_access_resolves_and_updates() {
    let mut h = MoveBox::new(10u32);
    h.relocate();
    *h.write() += 5;
    assert!(h.can_relocate());
    assert_eq!(*h.read(), 15);
    h.relocate();
    assert_eq!(*h.read(), 15);
}

#[test]
fn many_relocations_keep_the_value() {
    let mut h = MoveBox::new(vec![1u8, 2, 3]);
    for i in 0..100u8 {
        h.relocate();
        assert_eq!(*h.read(), vec![1u8, 2, 3 + i]);
        h.write()[2] += 1;
    }
    assert_eq!(*h.read(), vec![1u8, 2, 103]);
}

#[test]
fn owned_payload_moves_across() {
    let mut h = MoveBox::new(String::from("payload"));
    h.relocate();
    h.write().push_str("-moved");
    h.relocate();
    assert_eq!(h.read().as_str(), "payload-moved");
}

#[test]
fn destroy_frees_one_record_when_resolved() {
    let h = MoveBox::new(3);
    assert_eq!(h.destroy(), 1);
    let mut h = MoveBox::new(3);
    h.relocate();
    assert_eq!(*h.read(), 3);
    assert_eq!(h.destroy(), 1);
}

#[test]
fn destroy_frees_pending_stub_too() {
    let mut h = MoveBox::new(String::from("x"));
    h.relocate();
    assert_eq!(h.destroy(), 2);
}

#[test]
fn arena_reuses_freed_slots() {
    let mut arena: Arena<u8> = Arena::new();
    let a = arena.allocate(MovableAllocation { fwd: 0, data: Some(1) });
    let b = arena.allocate(MovableAllocation { fwd: 1, data: Some(2) });
    assert_eq!(a, 0);
    assert_eq!(b, 1);
    let rec = arena.release(a);
    assert_eq!(rec.data, Some(1));
    let c = arena.allocate(MovableAllocation { fwd: 0, data: Some(3) });
    assert_eq!(c, a);
    assert_eq!(arena.get(c).data, Some(3));
    assert_eq!(arena.get(b).data, Some(2));
}

#[test]
fn relocating_a_record_leaves_a_stub() {
    let mut arena: Arena<u8> = Arena::new();
    let at = arena.allocate(MovableAllocation { fwd: 0, data: Some(9) });
    arena.get_mut(at).fwd = at;
    let to = MovableAllocation::relocate(&mut arena, at);
    assert_ne!(to, at);
    assert_eq!(arena.get(at).fwd, to);
    assert_eq!(arena.get(at).data, Some(9));
    assert_eq!(arena.get(to).fwd, to);
    assert_eq!(arena.get(to).data, None);
}
