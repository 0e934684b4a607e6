use flagnum::bits::{code_at, count_ones, mask_of_len};
use flagnum::builder::{is_well_posed, validate, FlagnumContext};
use flagnum::error::SpecError;
use flagnum::flags::{Flags, FlagsRepr};
use flagnum::flagset::FlagSet;
use flagnum::layout::Layout;
use flagnum::parser::{FlagnumDecl, FlagnumEnum, Variant, WithAttrs};
use flagnum::repr::FlagnumRepr;

fn strings(list: &[&str]) -> Vec<String> {
    list.iter().map(|name| name.to_string()).collect()
}

fn decl(groups: &[&str]) -> FlagnumDecl {
    FlagnumDecl {
        set: WithAttrs::bare("Items".to_string()),
        groups: strings(groups).into_iter().map(WithAttrs::bare).collect(),
    }
}

fn body(variants: Vec<Variant>) -> FlagnumEnum {
    FlagnumEnum { name: WithAttrs::bare("Item".to_string()), variants }
}

/// A domain of `count` untagged items, named I0, I1 and so on.
fn numbered(count: usize) -> FlagnumEnum {
    body((0..count).map(|i| Variant::unit(format!("I{i}"), Vec::new())).collect())
}

fn error_of(decl: FlagnumDecl, body: FlagnumEnum) -> SpecError {
    match FlagnumContext::new(decl, body) {
        Ok(_) => panic!("the declaration should be refused"),
        Err(e) => e,
    }
}

fn weekdays() -> Layout {
    let body = body(vec![
        Variant::unit("Mon".to_string(), strings(&[])),
        Variant::unit("Tue".to_string(), strings(&[])),
        Variant::unit("Wed".to_string(), strings(&[])),
        Variant::unit("Thu".to_string(), strings(&[])),
        Variant::unit("Fri".to_string(), strings(&[])),
        Variant::unit("Sat".to_string(), strings(&["WEEKEND"])),
        Variant::unit("Sun".to_string(), strings(&["WEEKEND", "CLOSED"])),
    ]);
    FlagnumContext::new(decl(&["WEEKEND", "CLOSED", "NEVER"]), body).unwrap().build()
}

#[test]
fn boundary_widths() {
    let expected = [
        (8, FlagnumRepr::U8, 8),
        (9, FlagnumRepr::U16, 16),
        (16, FlagnumRepr::U16, 16),
        (17, FlagnumRepr::U32, 32),
        (32, FlagnumRepr::U32, 32),
        (33, FlagnumRepr::U64, 64),
        (64, FlagnumRepr::U64, 64),
        (65, FlagnumRepr::U128, 128),
        (128, FlagnumRepr::U128, 128),
    ];
    for (count, repr, width) in expected {
        assert_eq!(FlagnumRepr::try_from_enum_len(count), Some(repr));
        let layout = FlagnumContext::new(decl(&[]), numbered(count)).unwrap().build();
        assert_eq!(layout.len(), count);
        assert_eq!(layout.repr(), repr);
        assert_eq!(layout.width(), width);
        assert_eq!(layout.full_mask(), mask_of_len(count));
    }
    assert_eq!(FlagnumRepr::try_from_enum_len(1), Some(FlagnumRepr::U8));
    assert_eq!(FlagnumRepr::try_from_enum_len(0), Some(FlagnumRepr::U8));
}

#[test]
fn too_many_items() {
    assert_eq!(FlagnumRepr::try_from_enum_len(129), None);
    assert_eq!(error_of(decl(&[]), numbered(129)), SpecError::TooManyItems { count: 129 });
    assert_eq!(error_of(decl(&[]), numbered(300)), SpecError::TooManyItems { count: 300 });
    assert!(FlagnumContext::new(decl(&[]), numbered(128)).is_ok());
}

#[test]
fn repr_names_and_widths() {
    assert_eq!(FlagnumRepr::U8.name(), "u8");
    assert_eq!(FlagnumRepr::U16.name(), "u16");
    assert_eq!(FlagnumRepr::U32.name(), "u32");
    assert_eq!(FlagnumRepr::U64.name(), "u64");
    assert_eq!(FlagnumRepr::U128.name(), "u128");
    assert_eq!(FlagnumRepr::U8.width(), 8);
    assert_eq!(FlagnumRepr::U128.width(), 128);
}

#[test]
fn explicit_code_is_refused() {
    let mut second = Variant::unit("B".to_string(), Vec::new());
    second.has_discriminant = true;
    let body = body(vec![Variant::unit("A".to_string(), Vec::new()), second]);
    assert_eq!(error_of(decl(&[]), body), SpecError::ExplicitCodeNotAllowed { item: 1 });
}

#[test]
fn item_with_fields_is_refused() {
    let mut first = Variant::unit("A".to_string(), Vec::new());
    first.is_unit = false;
    let body = body(vec![first, Variant::unit("B".to_string(), Vec::new())]);
    assert_eq!(error_of(decl(&[]), body), SpecError::UnsupportedItemShape { item: 0 });
}

#[test]
fn undeclared_group_is_refused() {
    let body = body(vec![
        Variant::unit("A".to_string(), strings(&["ODD"])),
        Variant::unit("B".to_string(), strings(&["ODD", "EVEN", "PRIME"])),
    ]);
    assert_eq!(error_of(decl(&["ODD"]), body), SpecError::UndeclaredGroup { item: 1, tag: 1 });
}

#[test]
fn group_declared_twice_is_refused() {
    let body = body(vec![Variant::unit("A".to_string(), Vec::new())]);
    assert_eq!(
        error_of(decl(&["ODD", "EVEN", "ODD", "EVEN"]), body),
        SpecError::DuplicateGroupDeclaration { group: 2 }
    );
}

#[test]
fn first_broken_rule_is_reported() {
    // A group declared twice comes before everything else.
    let mut coded = Variant::unit("A".to_string(), strings(&["NONE"]));
    coded.has_discriminant = true;
    coded.is_unit = false;
    assert_eq!(
        error_of(decl(&["G", "G"]), body(vec![coded])),
        SpecError::DuplicateGroupDeclaration { group: 1 }
    );
    // A code of its own comes before the shape of the same item.
    let mut coded = Variant::unit("A".to_string(), strings(&["NONE"]));
    coded.has_discriminant = true;
    coded.is_unit = false;
    assert_eq!(
        error_of(decl(&[]), body(vec![coded])),
        SpecError::ExplicitCodeNotAllowed { item: 0 }
    );
    // The items are looked at before they are counted.
    let mut many = numbered(200);
    many.variants[150].is_unit = false;
    assert_eq!(error_of(decl(&[]), many), SpecError::UnsupportedItemShape { item: 150 });
    // The count comes before the tags.
    let mut many = numbered(129);
    many.variants[0].groups = strings(&["NONE"]);
    assert_eq!(error_of(decl(&[]), many), SpecError::TooManyItems { count: 129 });
}

#[test]
fn messages() {
    assert_eq!(
        SpecError::TooManyItems { count: 129 }.message(),
        "flagnum only supports enums with up to 128 variants"
    );
    assert_eq!(
        SpecError::ExplicitCodeNotAllowed { item: 0 }.message(),
        "flagnum enums cannot have explicit discriminant values"
    );
    assert_eq!(
        SpecError::UnsupportedItemShape { item: 0 }.message(),
        "flagnum enums can only contain unit variants"
    );
    assert_eq!(SpecError::UndeclaredGroup { item: 0, tag: 0 }.message(), "Undeclared flagnum group");
    assert_eq!(
        SpecError::DuplicateGroupDeclaration { group: 1 }.message(),
        "Groups have already been declared for this flagnum enum"
    );
}

#[test]
fn codes_are_powers_of_two_by_position() {
    let layout = weekdays();
    let names = ["Mon", "Tue", "Wed", "Thu", "Fri", "Sat", "Sun"];
    for (index, name) in names.iter().enumerate() {
        assert_eq!(layout.code(name), Some(1u128 << index));
        assert_eq!(layout.code(name), Some(code_at(index)));
        assert_eq!(layout.position(name), Some(index));
        assert_eq!(layout.name_at(index), Some(*name));
    }
    assert_eq!(layout.code("Someday"), None);
    assert_eq!(layout.position("Someday"), None);
    assert_eq!(layout.name_at(7), None);
    assert_eq!(layout.item_type(), "Item");
    assert_eq!(layout.set_type(), "Items");
}

#[test]
fn group_masks_and_full_mask() {
    let layout = weekdays();
    assert_eq!(layout.full_mask(), 0b111_1111);
    assert_eq!(layout.group("WEEKEND"), Some(0b110_0000));
    assert_eq!(layout.group("CLOSED"), Some(0b100_0000));
    assert_eq!(layout.group("NEVER"), Some(0));
    assert_eq!(layout.group("HOLIDAY"), None);
    assert_eq!(layout.group_count(), 3);
    assert_eq!(layout.group_name_at(1), Some("CLOSED"));
    assert_eq!(layout.group_mask_at(1), Some(0b100_0000));
    assert_eq!(layout.group_name_at(3), None);
    assert_eq!(layout.group_mask_at(3), None);
    assert_eq!(layout.width(), 8);
    assert_eq!(layout.repr(), FlagnumRepr::U8);
}

#[test]
fn group_correctness() {
    let layout = weekdays();
    let weekend: FlagSet<7> = layout.group_set("WEEKEND").unwrap();
    let closed: FlagSet<7> = layout.group_set("CLOSED").unwrap();
    assert_eq!(weekend.len(), 2);
    assert_eq!(closed.len(), 1);
    assert_eq!(FlagSet::<7>::full().len(), 7);
    assert!(weekend.contains(closed));
    assert!(!closed.contains(weekend));
    assert_eq!(FlagSet::<7>::full().to_bits(), layout.full_mask());
}

#[test]
fn groups_need_a_set_type_of_the_same_size() {
    let layout = weekdays();
    assert!(layout.matches_type::<FlagSet<7>>());
    assert!(!layout.matches_type::<FlagSet<8>>());
    assert!(layout.group_set::<FlagSet<8>>("WEEKEND").is_none());
    assert!(layout.group_set::<FlagSet<7>>("HOLIDAY").is_none());
    assert!(layout.item::<FlagSet<6>>("Mon").is_none());
    assert!(layout.item::<FlagSet<7>>("Someday").is_none());
}

#[test]
fn rendering() {
    let layout = weekdays();
    assert_eq!(layout.render(0), "{}");
    assert_eq!(layout.render(0b000_0100), "{Wed}");
    assert_eq!(layout.render(0b110_0001), "{Mon, Sat, Sun}");
    assert_eq!(layout.render_set(FlagSet::<7>::full()), "{Mon, Tue, Wed, Thu, Fri, Sat, Sun}");
    assert_eq!(layout.item_names(0b100_0010), strings(&["Tue", "Sun"]));
    // Positions beyond the domain have no name.
    assert_eq!(layout.render(0b1_1000_0000), "{}");
}

#[test]
fn bit_helpers() {
    assert_eq!(count_ones(0), 0);
    assert_eq!(count_ones(0b1011), 3);
    assert_eq!(count_ones(u128::MAX), 128);
    assert_eq!(mask_of_len(0), 0);
    assert_eq!(mask_of_len(7), 0x7f);
    assert_eq!(mask_of_len(128), u128::MAX);
    assert_eq!(code_at(0), 1);
    assert_eq!(code_at(127), 1u128 << 127);
}

#[test]
fn a_domain_needs_items_and_distinct_names() {
    assert!(is_well_posed(&numbered(1)));
    assert!(is_well_posed(&numbered(129)));
    assert!(!is_well_posed(&numbered(0)));
    let twice = body(vec![
        Variant::unit("A".to_string(), Vec::new()),
        Variant::unit("B".to_string(), Vec::new()),
        Variant::unit("A".to_string(), Vec::new()),
    ]);
    assert!(!is_well_posed(&twice));

    assert!(validate(decl(&[]), numbered(0)).is_none());
    assert!(validate(decl(&[]), twice).is_none());
    assert!(matches!(validate(decl(&[]), numbered(3)), Some(Ok(_))));
    assert!(matches!(
        validate(decl(&[]), numbered(129)),
        Some(Err(SpecError::TooManyItems { count: 129 }))
    ));
}

#[test]
fn the_same_declaration_gives_the_same_layout() {
    let first = weekdays();
    let second = weekdays();
    assert_eq!(first.full_mask(), second.full_mask());
    assert_eq!(first.width(), second.width());
    for name in ["WEEKEND", "CLOSED", "NEVER"] {
        assert_eq!(first.group(name), second.group(name));
    }
    for name in ["Mon", "Tue", "Wed", "Thu", "Fri", "Sat", "Sun"] {
        assert_eq!(first.code(name), second.code(name));
    }
}

#[test]
fn the_example_declaration_yields_the_example_masks() {
    let layout = flagnum::example::weekdays::layout();
    assert_eq!(layout.len(), 7);
    assert_eq!(layout.width(), 8);
    assert_eq!(layout.full_mask(), 0x7f);
    assert_eq!(layout.group("WEEKEND"), Some(0x60));
    assert_eq!(layout.name_at(0), Some("Monday"));
    assert_eq!(layout.name_at(6), Some("Sunday"));
    assert_eq!(layout.item_type(), "Weekday");
    assert_eq!(layout.set_type(), "Weekdays");
    let weekend: flagnum::example::weekdays::Weekdays = layout.group_set("WEEKEND").unwrap();
    assert!(weekend == flagnum::example::weekdays::Weekdays::weekend());
    assert_eq!(layout.render_set(weekend), "{Saturday, Sunday}");
}
