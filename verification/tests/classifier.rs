use yarpgen::errors::YarpError;
use yarpgen::records::Record;

fn row(fields: &[&str]) -> Vec<String> {
    fields.iter().map(|s| s.to_string()).collect()
}

#[test]
fn custom_unit_row_parses() {
    let r = Record::from_record(&row(&["CustomUnit", "A", "Swordsman", "sword.mdl"])).unwrap();
    match r {
        Some(Record::CustomUnit(rec)) => {
            assert_eq!(rec.uid, "A");
            assert_eq!(rec.name, "Swordsman");
            assert_eq!(rec.model, "sword.mdl");
        }
        other => panic!("wrong classification: {:?}", other),
    }
}

#[test]
fn stock_unit_row_parses() {
    let r = Record::from_record(&row(&["StockUnit", "h001", "peon.mdl"])).unwrap();
    match r {
        Some(Record::StockUnit(rec)) => {
            assert_eq!(rec.id, "h001");
            assert_eq!(rec.model, "peon.mdl");
        }
        other => panic!("wrong classification: {:?}", other),
    }
}

#[test]
fn custom_building_row_parses() {
    let r = Record::from_record(&row(&["CustomBuilding", "B", "Barracks", "hall.mdl"])).unwrap();
    assert!(matches!(r, Some(Record::CustomBuilding(_))));
}

#[test]
fn unit_shop_row_parses_with_optional_model() {
    let with = Record::from_record(&row(&["UnitShop", "S", "Armory", "shop.mdl"])).unwrap();
    match with {
        Some(Record::UnitShop(rec)) => assert_eq!(rec.model.as_deref(), Some("shop.mdl")),
        other => panic!("wrong classification: {:?}", other),
    }
    let without = Record::from_record(&row(&["UnitShop", "S", "Armory"])).unwrap();
    match without {
        Some(Record::UnitShop(rec)) => assert_eq!(rec.model, None),
        other => panic!("wrong classification: {:?}", other),
    }
}

#[test]
fn custom_builder_row_parses_with_optional_model() {
    let r = Record::from_record(&row(&["CustomBuilder", "W", "Worker"])).unwrap();
    match r {
        Some(Record::CustomBuilder(rec)) => {
            assert_eq!(rec.uid, "W");
            assert_eq!(rec.model, None);
        }
        other => panic!("wrong classification: {:?}", other),
    }
}

#[test]
fn builder_shop_rows_are_silently_skipped() {
    // the tag table does not list BuilderShop, so any such row is ignored,
    // however many fields it carries
    assert_eq!(Record::from_record(&row(&["BuilderShop", "BS", "Workshop"])).unwrap(), None);
    assert_eq!(Record::from_record(&row(&["BuilderShop", "BS"])).unwrap(), None);
    assert_eq!(Record::from_record(&row(&["BuilderShop"])).unwrap(), None);
}

#[test]
fn context_rows_parse() {
    assert!(matches!(
        Record::from_record(&row(&["SetShopModel", "m.mdl"])).unwrap(),
        Some(Record::SetShopModel(_))
    ));
    assert!(matches!(
        Record::from_record(&row(&["SetDefaultIcon", "icon.blp"])).unwrap(),
        Some(Record::SetDefaultIcon(_))
    ));
    assert!(matches!(
        Record::from_record(&row(&["SetShopScale", "1.5"])).unwrap(),
        Some(Record::SetShopScale(_))
    ));
    assert!(matches!(
        Record::from_record(&row(&["StockUnitModel", "h002", "m.mdl"])).unwrap(),
        Some(Record::StockUnitModel(_))
    ));
    assert!(matches!(
        Record::from_record(&row(&["ShopNewLine"])).unwrap(),
        Some(Record::ShopNewLine)
    ));
}

#[test]
fn unrecognized_tag_is_silently_skipped() {
    assert_eq!(Record::from_record(&row(&["FutureDirective", "x", "y"])).unwrap(), None);
    assert_eq!(Record::from_record(&row(&[])).unwrap(), None);
}

#[test]
fn missing_required_field_is_malformed() {
    let r = Record::from_record(&row(&["CustomUnit", "A", "Swordsman"]));
    match r {
        Err(YarpError::MalformedRecord { fields }) => {
            assert_eq!(fields, row(&["CustomUnit", "A", "Swordsman"]));
        }
        other => panic!("expected a malformed-record error: {:?}", other),
    }
    assert!(Record::from_record(&row(&["StockUnit", "h001"])).is_err());
    assert!(Record::from_record(&row(&["UnitShop", "S"])).is_err());
    assert!(Record::from_record(&row(&["SetShopModel"])).is_err());
    assert!(Record::from_record(&row(&["SetDefaultIcon"])).is_err());
    assert!(Record::from_record(&row(&["SetShopScale"])).is_err());
    assert!(Record::from_record(&row(&["StockUnitModel", "h002"])).is_err());
    assert!(Record::from_record(&row(&["CustomBuilder", "W"])).is_err());
    assert!(Record::from_record(&row(&["CustomBuilding", "B", "Barracks"])).is_err());
}
