use flagnum::example::weekdays::{Weekday, Weekdays};
use flagnum::flags::{Flag, Flags, FlagsRepr};
use flagnum::flagset::{FlagItem, FlagSet};
use flagnum::iter::Iter;

type Item = FlagItem<5>;
type Five = FlagSet<5>;

fn item(offset: usize) -> Item {
    Item::new(offset).unwrap()
}

fn set(bits: u128) -> Five {
    Five::try_from_bits(bits).unwrap()
}

fn all_sets() -> Vec<Five> {
    (0u128..32).map(set).collect()
}

#[test]
fn algebra_laws() {
    for a in all_sets() {
        assert!(a.overlap(a) == a);
        assert!(a.missing().missing() == a);
        for b in all_sets() {
            assert!(a.contains(a.with(b).without(b)));
            assert!(a.with(b).missing() == a.missing().overlap(b.missing()));
        }
    }
    assert!(Five::full().missing() == Five::empty());
}

#[test]
fn containment() {
    for a in all_sets() {
        assert!(a.contains(a));
        assert_eq!(Five::empty().contains(a), a.is_empty());
        assert!(a.contains(Five::empty()));
        assert!(Five::full().contains(a));
    }
}

#[test]
fn queries_are_exact() {
    let a = set(0b01101);
    let b = set(0b00110);
    assert_eq!(a.len(), 3);
    assert_eq!(a.to_bits(), 0b01101);
    assert!(a.with(b) == set(0b01111));
    assert!(a.overlap(b) == set(0b00100));
    assert!(a.without(b) == set(0b01001));
    assert!(b.without(a) == set(0b00010));
    assert!(a.missing() == set(0b10010));
    assert!(a.has_overlap(b));
    assert!(!a.has_overlap(set(0b10010)));
    assert!(!a.contains(b));
    assert!(a.contains(set(0b01001)));
    assert!(!a.is_full());
    assert!(set(0b11111).is_full());
    assert!(set(0).is_empty());
}

#[test]
fn changes_in_place() {
    let mut s = set(0b00011);
    s.insert(set(0b00110));
    assert!(s == set(0b00111));
    s.remove(set(0b00101));
    assert!(s == set(0b00010));
    s.invert();
    assert!(s == set(0b11101));
    s.keep(set(0b01110));
    assert!(s == set(0b01100));
    s.retain(|i: Item| i.offset() == 3);
    assert!(s == set(0b01000));
}

#[test]
fn retain_asks_once_for_each_item_in_order() {
    let asked = std::cell::RefCell::new(Vec::new());
    let kept = set(0b10110).retained(|i: Item| {
        asked.borrow_mut().push(i.offset());
        i.offset() != 2
    });
    assert!(kept == set(0b10010));
    assert_eq!(*asked.borrow(), vec![1, 2, 4]);
    assert!(set(0b10110).retained(|_i: Item| true) == set(0b10110));
    assert!(set(0b10110).retained(|_i: Item| false) == Five::empty());
}

#[test]
fn items_and_bits() {
    assert!(Item::new(5).is_none());
    assert!(FlagItem::<200>::new(127).is_some());
    assert!(FlagItem::<200>::new(128).is_none());
    assert_eq!(item(3).offset(), 3);
    assert_eq!(Five::from_item(item(3)).to_bits(), 0b01000);
    assert_eq!(Five::item_code(item(4)), 0b10000);
    assert_eq!(Five::domain_size(), 5);
    assert_eq!(FlagSet::<200>::domain_size(), 128);
    assert_eq!(Five::items(), vec![item(0), item(1), item(2), item(3), item(4)]);
    assert!(Five::item_at(4) == Some(item(4)));
    assert!(Five::item_at(5).is_none());
    assert!(Five::try_from_bits(0b100000).is_none());
    assert!(Five::from_bits_truncate(0b111_00101) == set(0b00101));
    assert!(item(1) < item(2));
}

#[test]
fn bulk_constructors() {
    assert!(Five::from_items(&[]) == Five::empty());
    assert!(Five::from_items(&[item(4), item(0), item(4)]) == set(0b10001));
    assert!(Five::from_sets(&[]) == Five::empty());
    assert!(Five::from_sets(&[set(0b00011), set(0b00110), set(0)]) == set(0b00111));
}

#[test]
fn iteration_is_in_declaration_order_and_restarts() {
    let s = set(0b11010);
    let expected = vec![item(1), item(3), item(4)];
    assert_eq!(s.into_iter().collect(), expected);
    assert_eq!(s.iter().collect(), expected);
    assert_eq!(Iter::new(s).collect(), expected);

    let mut first = Iter::new(s);
    assert_eq!(first.next(), Some(item(1)));
    assert_eq!(first.next(), Some(item(3)));
    let mut second = Iter::new(s);
    assert_eq!(second.next(), Some(item(1)));
    assert_eq!(first.next(), Some(item(4)));
    assert_eq!(first.next(), None);
    assert_eq!(first.next(), None);
    assert_eq!(second.collect(), vec![item(3), item(4)]);
    assert_eq!(Iter::new(Five::empty()).next(), None);
}

#[test]
fn conversion_round_trip() {
    let a = item(1);
    let b = item(3);
    assert_eq!(Five::from_items(&[a, b]).into_iter().collect(), vec![a, b]);
    assert_eq!(Five::from_items(&[b, a]).into_iter().collect(), vec![a, b]);
    assert!(Five::from_items(&[a, a]) == Five::from_item(a));
    for s in all_sets() {
        assert!(Five::from_items(&s.into_iter().collect()) == s);
        assert_eq!(s.into_iter().collect().len(), s.len());
    }
}

#[test]
fn widest_domain() {
    let full = FlagSet::<128>::full();
    assert_eq!(full.len(), 128);
    assert_eq!(full.to_bits(), u128::MAX);
    assert!(full.missing().is_empty());
    let last = FlagItem::<128>::new(127).unwrap();
    assert_eq!(FlagSet::<128>::from_item(last).to_bits(), 1u128 << 127);
    assert_eq!(full.without(last.into()).len(), 127);
    assert_eq!(full.into_iter().collect().len(), 128);
}

#[test]
fn weekdays_example() {
    assert_eq!(Weekdays::full().len(), 7);
    assert_eq!(Weekdays::weekend().len(), 2);
    assert_eq!(Weekdays::weekend().to_bits(), 0b110_0000);
    assert!(Weekdays::weekend().contains(Weekdays::from_item(Weekday::Saturday)));
    assert!(Weekdays::weekend().contains(Weekdays::from_item(Weekday::Sunday)));
    assert!(!Weekdays::weekend().contains(Weekdays::from_item(Weekday::Friday)));
    assert_eq!(Weekdays::full().non_weekend_len(), 5);
    assert_eq!(Weekdays::weekend().non_weekend_len(), 0);
    assert_eq!(
        Weekdays::from_items(&[Weekday::Monday, Weekday::Sunday]).non_weekend_len(),
        1
    );
    assert!(Weekdays::default() == Weekdays::empty());
    assert_eq!(Weekday::default(), Weekday::Monday);
    assert_eq!(
        Weekdays::items(),
        vec![
            Weekday::Monday,
            Weekday::Tuesday,
            Weekday::Wednesday,
            Weekday::Thursday,
            Weekday::Friday,
            Weekday::Saturday,
            Weekday::Sunday,
        ]
    );
    assert_eq!(
        Iter::new(Weekdays::weekend().missing()).collect(),
        vec![
            Weekday::Monday,
            Weekday::Tuesday,
            Weekday::Wednesday,
            Weekday::Thursday,
            Weekday::Friday,
        ]
    );
    assert!(Weekdays::from_bits_truncate(0xff) == Weekdays::full());
    assert!(Weekdays::try_from_bits(0x80).is_none());
    assert_eq!(Weekday::Saturday.offset(), 5);
}
