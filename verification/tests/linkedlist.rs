use armory::linkedlist::{Armor, Component, List, Suit};

fn armor(component: Component, version: i32) -> Armor {
    Armor { component, version }
}

#[test]
fn empty_list_has_nothing() {
    let mut list = List::new();
    assert_eq!(list.size(), 0);
    assert_eq!(list.peek(), None);
    assert_eq!(list.pop(), None);
    assert_eq!(list.size(), 0);
}

#[test]
fn size_tracks_pushes_and_pops() {
    let mut list = List::new();
    list.push(armor(Component::Helmet(false), 1));
    list.push(armor(Component::Wifi(true), 1));
    list.push(armor(Component::Missiles(4), 1));
    assert_eq!(list.size(), 3);
    list.pop();
    assert_eq!(list.size(), 2);
    list.pop();
    list.pop();
    assert_eq!(list.size(), 0);
    assert_eq!(list.pop(), None);
    assert_eq!(list.size(), 0);
}

#[test]
fn peek_then_pop_agree() {
    let mut list = List::new();
    list.push(armor(Component::ArcReactor(88), 2));
    list.push(armor(Component::Helmet(true), 2));
    let peeked = list.peek();
    let popped = list.pop();
    assert_eq!(peeked, popped);
    assert_eq!(popped, Some(armor(Component::Helmet(true), 2)));
}

#[test]
fn lifo_order() {
    let a = armor(Component::LeftRepulsor(false, 70), 1);
    let b = armor(Component::RightRepulsor(true, 20), 1);
    let mut list = List::new();
    list.push(a);
    list.push(b);
    assert_eq!(list.pop(), Some(b));
    assert_eq!(list.pop(), Some(a));
    assert_eq!(list.pop(), None);
}

#[test]
fn clone_copies_the_records() {
    let mut list = List::new();
    list.push(armor(Component::Helmet(true), 4));
    list.push(armor(Component::Missiles(2), 4));
    let mut copy = list.clone();
    assert_eq!(copy.size(), 2);
    assert_eq!(copy.pop(), Some(armor(Component::Missiles(2), 4)));
    assert_eq!(copy.pop(), Some(armor(Component::Helmet(true), 4)));
    assert_eq!(list.size(), 2);
    assert_eq!(list.peek(), Some(armor(Component::Missiles(2), 4)));
}

#[test]
fn compatible_when_versions_match() {
    let mut list = List::new();
    list.push(armor(Component::Helmet(false), 3));
    list.push(armor(Component::Wifi(true), 3));
    let suit = Suit { armor: list, version: 3 };
    assert!(suit.is_compatible());
}

#[test]
fn incompatible_when_head_version_differs() {
    let mut list = List::new();
    list.push(armor(Component::Helmet(false), 3));
    list.push(armor(Component::Wifi(true), 7));
    let suit = Suit { armor: list, version: 3 };
    assert!(!suit.is_compatible());
}

#[test]
fn empty_suit_is_compatible() {
    let suit = Suit { armor: List::new(), version: 5 };
    assert!(suit.is_compatible());
}

#[test]
fn repair_fixes_damaged_thrusters_and_leaves_wifi() {
    let mut list = List::new();
    list.push(armor(Component::Wifi(true), 1));
    list.push(armor(Component::LeftThrusters(true, 30), 1));
    let mut suit = Suit { armor: list, version: 1 };
    suit.repair();
    assert_eq!(
        suit.armor.pop(),
        Some(armor(Component::LeftThrusters(false, 100), 1))
    );
    assert_eq!(suit.armor.pop(), Some(armor(Component::Wifi(true), 1)));
}

#[test]
fn repair_chest_piece_scenario() {
    let mut list = List::new();
    list.push(armor(Component::ChestPiece(true, 10), 1));
    let mut suit = Suit { armor: list, version: 1 };
    suit.repair();
    assert_eq!(
        suit.armor.peek(),
        Some(armor(Component::ChestPiece(false, 100), 1))
    );
    assert_eq!(suit.armor.size(), 1);
}

#[test]
fn repair_leaves_undamaged_and_other_kinds_alone() {
    let mut list = List::new();
    list.push(armor(Component::ArcReactor(55), 2));
    list.push(armor(Component::Missiles(9), 2));
    list.push(armor(Component::RightThrusters(false, 80), 2));
    list.push(armor(Component::LeftRepulsor(true, 5), 2));
    let mut suit = Suit { armor: list, version: 2 };
    suit.repair();
    assert_eq!(
        suit.armor.pop(),
        Some(armor(Component::LeftRepulsor(false, 100), 2))
    );
    assert_eq!(
        suit.armor.pop(),
        Some(armor(Component::RightThrusters(false, 80), 2))
    );
    assert_eq!(suit.armor.pop(), Some(armor(Component::Missiles(9), 2)));
    assert_eq!(suit.armor.pop(), Some(armor(Component::ArcReactor(55), 2)));
}
