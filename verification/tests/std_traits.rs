use flagnum::builder::FlagnumContext;
use flagnum::flags::{Flag, Flags};
use flagnum::flagset::{FlagItem, FlagSet};
use flagnum::layout::Layout;
use flagnum::parser::{FlagnumDecl, FlagnumEnum, Variant, WithAttrs};

fn plain_layout(set: &str, item: &str, variants: &[&str]) -> Layout {
    let decl = FlagnumDecl { set: WithAttrs::bare(set.to_string()), groups: Vec::new() };
    let body = FlagnumEnum {
        name: WithAttrs::bare(item.to_string()),
        variants: variants
            .iter()
            .map(|name| Variant::unit(name.to_string(), Vec::new()))
            .collect(),
    };
    FlagnumContext::new(decl, body).unwrap().build()
}

#[test]
fn debug() {
    let layout = plain_layout("DebugTestSet", "DebugTestItem", &["DebugTestVariant"]);

    let item = layout.item::<FlagSet<1>>("DebugTestVariant").unwrap();
    let fmt_item = layout.name_at(item.offset()).unwrap().to_string();
    assert!(fmt_item.contains("DebugTestVariant"));
    assert!(!fmt_item.contains("DebugTestItem"));

    let set = FlagSet::<1>::full();
    let fmt_set = layout.render_set(set);
    assert!(fmt_set.contains("DebugTestVariant"));
    assert!(!fmt_set.contains("DebugTestItem"));
    assert!(!fmt_set.contains("DebugTestSet"));
}

#[test]
fn from() {
    let a = FlagItem::<2>::new(0).unwrap();

    let set_with_a = FlagSet::<2>::from_item(a);
    assert!(FlagSet::<2>::from(()) == FlagSet::empty());
    assert!(FlagSet::<2>::from(a) == set_with_a);
    assert!(FlagSet::<2>::from(Some(a)) == set_with_a);
    assert!(FlagSet::<2>::from(None) == FlagSet::empty());
    assert!(FlagSet::<2>::from([a]) == set_with_a);
    assert!(FlagSet::<2>::from(&[a]) == set_with_a);
    assert!(FlagSet::<2>::from(&[a][..]) == set_with_a);
    assert!(FlagSet::<2>::from(Vec::from([a])) == set_with_a);
    assert!(FlagSet::<2>::from(&Vec::from([a])) == set_with_a);
}

#[test]
fn from_iter() {
    let a = FlagItem::<2>::new(0).unwrap();
    let b = FlagItem::<2>::new(1).unwrap();

    assert!(FlagSet::<2>::from([a, b]) == FlagSet::full());
    assert!(FlagSet::<2>::from([a]) == FlagSet::from_item(a));
}

#[test]
fn into_iter() {
    let a = FlagItem::<2>::new(0).unwrap();
    let b = FlagItem::<2>::new(1).unwrap();

    assert_eq!(FlagSet::<2>::full().into_iter().collect(), Vec::from([a, b]));
    assert_eq!((&FlagSet::<2>::full()).iter().collect(), Vec::from([a, b]));
}
