use flagnum::builder::FlagnumContext;
use flagnum::flags::{Flags, FlagsRepr};
use flagnum::flagset::{FlagItem, FlagSet};
use flagnum::layout::Layout;
use flagnum::parser::{FlagnumDecl, FlagnumEnum, Variant, WithAttrs};

type Weekday = FlagItem<7>;
type Weekdays = FlagSet<7>;

fn names(list: &[&str]) -> Vec<String> {
    list.iter().map(|name| name.to_string()).collect()
}

/// Mon to Sun, with Sat and Sun in WEEKEND and Sun in CLOSED as well.
fn layout() -> Layout {
    let decl = FlagnumDecl {
        set: WithAttrs::bare("Weekdays".to_string()),
        groups: names(&["WEEKEND", "CLOSED"]).into_iter().map(WithAttrs::bare).collect(),
    };
    let body = FlagnumEnum {
        name: WithAttrs::bare("Weekday".to_string()),
        variants: vec![
            Variant::unit("Mon".to_string(), names(&[])),
            Variant::unit("Tue".to_string(), names(&[])),
            Variant::unit("Wed".to_string(), names(&[])),
            Variant::unit("Thu".to_string(), names(&[])),
            Variant::unit("Fri".to_string(), names(&[])),
            Variant::unit("Sat".to_string(), names(&["WEEKEND"])),
            Variant::unit("Sun".to_string(), names(&["WEEKEND", "CLOSED"])),
        ],
    };
    FlagnumContext::new(decl, body).unwrap().build()
}

fn day(name: &str) -> Weekday {
    layout().item::<Weekdays>(name).unwrap()
}

fn days(list: &[&str]) -> Weekdays {
    let items: Vec<Weekday> = list.iter().map(|name| day(name)).collect();
    Weekdays::from(items)
}

fn weekend() -> Weekdays {
    layout().group_set("WEEKEND").unwrap()
}

fn closed() -> Weekdays {
    layout().group_set("CLOSED").unwrap()
}

#[test]
fn len() {
    assert_eq!(Weekdays::full().len(), 7);
    assert_eq!(Weekdays::empty().len(), 0);
    assert_eq!(weekend().len(), 2);
    assert_eq!(closed().len(), 1);
}

#[test]
fn is_empty() {
    assert!(Weekdays::empty().is_empty());
    assert!(!closed().is_empty());
    assert!(!Weekdays::full().is_empty());
}

#[test]
fn is_full() {
    assert!(Weekdays::full().is_full());
    assert!(!Weekdays::empty().is_full());
    assert!(!closed().is_full());
}

#[test]
fn contains() {
    assert!(weekend().contains(day("Sat").into()));
    assert!(!weekend().contains(day("Fri").into()));

    assert!(weekend().contains(closed()));
    assert!(!closed().contains(weekend()));
}

#[test]
fn intersections() {
    let fri_sat = days(&["Fri", "Sat"]);

    assert!(weekend().has_overlap(fri_sat));
    assert!(!closed().has_overlap(fri_sat));

    assert!(weekend().overlap(fri_sat) == day("Sat").into());
    assert!(closed().overlap(fri_sat).is_empty());
}

#[test]
fn with() {
    assert!(weekend().with(day("Mon").into()) == days(&["Sat", "Sun", "Mon"]));
    assert!(
        weekend().with(days(&["Mon", "Tue"])) == days(&["Sat", "Sun", "Mon", "Tue"])
    );
}

#[test]
fn without() {
    assert!(weekend().without(day("Sat").into()) == day("Sun").into());
    assert!(
        Weekdays::full().without(weekend()) == days(&["Mon", "Tue", "Wed", "Thu", "Fri"])
    );
}

#[test]
fn inverse() {
    assert!(weekend().missing() == days(&["Mon", "Tue", "Wed", "Thu", "Fri"]));
    let mut some = weekend();
    some.invert();
    assert!(some == days(&["Mon", "Tue", "Wed", "Thu", "Fri"]));
}
