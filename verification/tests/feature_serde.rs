use flagnum::builder::FlagnumContext;
use flagnum::feature_serde::{deserialize, serialize, DecodeError, Encoded, SetVisitor};
use flagnum::flags::{Flag, Flags};
use flagnum::flagset::{FlagItem, FlagSet};
use flagnum::layout::Layout;
use flagnum::parser::{FlagnumDecl, FlagnumEnum, Variant, WithAttrs};

type Item = FlagItem<3>;
type Abc = FlagSet<3>;

fn layout() -> Layout {
    let decl = FlagnumDecl { set: WithAttrs::bare("Letters".to_string()), groups: Vec::new() };
    let body = FlagnumEnum {
        name: WithAttrs::bare("Item".to_string()),
        variants: ["A", "B", "C"]
            .iter()
            .map(|name| Variant::unit(name.to_string(), Vec::new()))
            .collect(),
    };
    FlagnumContext::new(decl, body).unwrap().build()
}

/// Writes a set as JSON: the names of its items, as an array.
fn to_json(set: Abc) -> String {
    let layout = layout();
    let names: Vec<String> = serialize(set)
        .iter()
        .map(|item| layout.name_at(item.offset()).unwrap().to_string())
        .collect();
    serde_json::to_string(&names).unwrap()
}

/// Reads a set from JSON. An element that names no item is an error, and
/// so is anything but an array.
fn from_json(text: &str) -> Result<Abc, String> {
    let layout = layout();
    let value: serde_json::Value = serde_json::from_str(text).map_err(|e| e.to_string())?;
    let input = match value {
        serde_json::Value::Array(elements) => {
            let mut items: Vec<Item> = Vec::new();
            for element in elements {
                let name = element.as_str().ok_or("an item is written as its name")?;
                items.push(layout.item::<Abc>(name).ok_or("unknown item")?);
            }
            Encoded::Sequence(items)
        }
        serde_json::Value::Object(_) => Encoded::Object,
        _ => Encoded::Scalar,
    };
    deserialize::<Abc>(input).map_err(|e| match e {
        DecodeError::ExpectedSequence => SetVisitor::<Abc>::new().expecting().to_string(),
    })
}

#[test]
fn roundtrip() {
    let layout = layout();
    let a = layout.item::<Abc>("A").unwrap();
    let c = layout.item::<Abc>("C").unwrap();

    let set = Abc::from([a, c]);
    let contents = to_json(set);

    let set_rt: Abc = from_json(&contents).unwrap();
    assert!(set == set_rt);
}

#[test]
fn de() {
    assert!(from_json("[]").unwrap() == Abc::empty());
    assert!(from_json("[0]").is_err());
    assert!(from_json("{}").is_err());
}

#[test]
fn written_as_names_in_declaration_order() {
    let layout = layout();
    let a = layout.item::<Abc>("A").unwrap();
    let c = layout.item::<Abc>("C").unwrap();
    assert_eq!(to_json(Abc::from([c, a])), "[\"A\",\"C\"]");
    assert_eq!(to_json(Abc::empty()), "[]");
    assert_eq!(to_json(Abc::full()), "[\"A\",\"B\",\"C\"]");
}

#[test]
fn every_set_reads_back() {
    for bits in 0u128..8 {
        let set = Abc::try_from_bits(bits).unwrap();
        assert!(from_json(&to_json(set)).unwrap() == set);
        assert!(deserialize::<Abc>(Encoded::Sequence(serialize(set))) == Ok(set));
        assert_eq!(serialize(set).len(), set.len());
    }
}

#[test]
fn scalar_and_object_are_refused() {
    assert!(from_json("5") == Err("a sequence of set items".to_string()));
    assert!(from_json("\"A\"") == Err("a sequence of set items".to_string()));
    assert!(from_json("{\"A\": true}") == Err("a sequence of set items".to_string()));
    assert!(deserialize::<Abc>(Encoded::Scalar) == Err(DecodeError::ExpectedSequence));
    assert!(deserialize::<Abc>(Encoded::Object) == Err(DecodeError::ExpectedSequence));
}

#[test]
fn visitor_collects_item_by_item() {
    let b = Item::new(1).unwrap();
    let c = Item::new(2).unwrap();
    let mut visitor = SetVisitor::<Abc>::new();
    visitor.visit(c);
    visitor.visit(b);
    visitor.visit(c);
    assert!(visitor.finish() == Abc::from([b, c]));
    assert!(SetVisitor::<Abc>::new().finish() == Abc::empty());
    assert!(SetVisitor::<Abc>::new().visit_seq(&[c, c]) == Abc::from_item(c));
}
