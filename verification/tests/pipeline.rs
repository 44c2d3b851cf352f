use yarpgen::codegen::CodeGenerator;
use yarpgen::codegen::IdReference;
use yarpgen::errors::YarpError;
use yarpgen::records::CustomBuilderRecord;
use yarpgen::records::CustomBuildingRecord;
use yarpgen::records::CustomUnitRecord;
use yarpgen::records::Record;
use yarpgen::records::SetDefaultIconRecord;
use yarpgen::records::SetShopModelRecord;
use yarpgen::records::StockUnitRecord;
use yarpgen::records::UnitShopRecord;

fn custom_unit(uid: &str, name: &str, model: &str) -> Record {
    Record::CustomUnit(CustomUnitRecord {
        uid: uid.to_string(),
        name: name.to_string(),
        model: model.to_string(),
    })
}

fn stock_unit(id: &str, model: &str) -> Record {
    Record::StockUnit(StockUnitRecord { id: id.to_string(), model: model.to_string() })
}

fn unit_shop(uid: &str, name: &str, model: Option<&str>) -> Record {
    Record::UnitShop(UnitShopRecord {
        uid: uid.to_string(),
        name: name.to_string(),
        model: model.map(|m| m.to_string()),
    })
}

#[test]
fn example_shop_takes_queue_default_model_and_origin_cell() {
    let mut cg = CodeGenerator::new();
    cg.process_record(custom_unit("A", "Swordsman", "sword.mdl")).unwrap();
    cg.process_record(stock_unit("h001", "peon.mdl")).unwrap();
    cg.process_record(unit_shop("S1", "Armory", None)).unwrap();
    let out = cg.emit();
    assert_eq!(out.shop_definitions.len(), 1);
    let shop = &out.shop_definitions[0];
    assert_eq!(shop.name, "Armory");
    assert_eq!(shop.model, "peon.mdl");
    assert_eq!(
        shop.refs,
        vec![
            IdReference::Constant("A".to_string()),
            IdReference::Literal("h001".to_string()),
        ]
    );
    assert_eq!(out.shop_placements.len(), 1);
    assert_eq!((out.shop_placements[0].x, out.shop_placements[0].y), (0, 0));
}

#[test]
fn duplicate_symbolic_key_is_fatal() {
    let mut cg = CodeGenerator::new();
    cg.process_record(custom_unit("A", "Swordsman", "sword.mdl")).unwrap();
    let r = cg.process_record(custom_unit("A", "Axeman", "axe.mdl"));
    match r {
        Err(YarpError::DuplicateIdentifier { uid }) => assert_eq!(uid, "A"),
        other => panic!("expected a duplicate-identifier error: {:?}", other),
    }
}

#[test]
fn thirteenth_pending_unit_overflows_the_group() {
    let mut cg = CodeGenerator::new();
    for i in 0..12 {
        let uid = format!("U{}", i);
        cg.process_record(custom_unit(&uid, "Unit", "u.mdl")).unwrap();
    }
    let r = cg.process_record(custom_unit("U12", "Unit", "u.mdl"));
    match r {
        Err(YarpError::GroupTooLarge { group, uid }) => {
            assert_eq!(group.len(), 12);
            assert_eq!(uid, "U12");
        }
        other => panic!("expected a group-too-large error: {:?}", other),
    }
}

#[test]
fn thirteenth_pending_building_overflows_the_group() {
    let mut cg = CodeGenerator::new();
    for i in 0..12 {
        let rec = Record::CustomBuilding(CustomBuildingRecord {
            uid: format!("B{}", i),
            name: "Building".to_string(),
            model: "b.mdl".to_string(),
        });
        cg.process_record(rec).unwrap();
    }
    let r = cg.process_record(Record::CustomBuilding(CustomBuildingRecord {
        uid: "B12".to_string(),
        name: "Building".to_string(),
        model: "b.mdl".to_string(),
    }));
    assert!(matches!(r, Err(YarpError::GroupTooLarge { .. })));
}

#[test]
fn closing_a_shop_clears_the_pending_group() {
    let mut cg = CodeGenerator::new();
    for i in 0..12 {
        let uid = format!("U{}", i);
        cg.process_record(custom_unit(&uid, "Unit", "u.mdl")).unwrap();
    }
    cg.process_record(unit_shop("S", "Shop", None)).unwrap();
    // the queue was drained, so another full group fits
    for i in 12..24 {
        let uid = format!("U{}", i);
        cg.process_record(custom_unit(&uid, "Unit", "u.mdl")).unwrap();
    }
    let out = cg.emit();
    assert_eq!(out.shop_definitions[0].refs.len(), 12);
}

#[test]
fn model_paths_are_trimmed_before_storage() {
    let mut cg = CodeGenerator::new();
    cg.process_record(custom_unit("A", "Swordsman", "  sword.mdl  ")).unwrap();
    let out = cg.emit();
    assert_eq!(out.unit_definitions[0].model, "sword.mdl");
}

#[test]
fn constant_names_are_upper_snake_case() {
    let mut cg = CodeGenerator::new();
    cg.process_record(custom_unit("myUnit", "Swordsman", "sword.mdl")).unwrap();
    let out = cg.emit();
    assert_eq!(out.constants, vec!["MY_UNIT".to_string()]);
    assert_eq!(
        out.uid_registry_chunks[0][0],
        ("myUnit".to_string(), "MY_UNIT".to_string())
    );
    assert_eq!(
        out.reverse_registry_chunks[0][0],
        ("MY_UNIT".to_string(), "myUnit".to_string())
    );
}

#[test]
fn default_shop_model_follows_directives() {
    let mut cg = CodeGenerator::new();
    cg.process_record(Record::SetShopModel(SetShopModelRecord { model: "set.mdl".to_string() }))
        .unwrap();
    cg.process_record(unit_shop("S1", "First", None)).unwrap();
    cg.process_record(stock_unit("h001", "stock.mdl")).unwrap();
    cg.process_record(unit_shop("S2", "Second", None)).unwrap();
    cg.process_record(unit_shop("S3", "Third", Some("explicit.mdl"))).unwrap();
    let out = cg.emit();
    assert_eq!(out.shop_definitions[0].model, "set.mdl");
    assert_eq!(out.shop_definitions[1].model, "stock.mdl");
    assert_eq!(out.shop_definitions[2].model, "explicit.mdl");
}

#[test]
fn icon_default_is_captured_at_declaration() {
    let mut cg = CodeGenerator::new();
    cg.process_record(custom_unit("A", "First", "a.mdl")).unwrap();
    cg.process_record(Record::SetDefaultIcon(SetDefaultIconRecord {
        icon: "icon.blp".to_string(),
    }))
    .unwrap();
    cg.process_record(custom_unit("B", "Second", "b.mdl")).unwrap();
    cg.process_record(unit_shop("S", "Shop", None)).unwrap();
    let data = yarpgen::yarp_data::YarpData::from_meta(
        &cg.registries.id,
        &cg.registries.unit,
        &cg.registries.model,
    );
    let sold = &data.shops[0].1[0].sold;
    match (&sold[0], &sold[1]) {
        (yarpgen::yarp_data::YarpDataUnit::Custom(a), yarpgen::yarp_data::YarpDataUnit::Custom(b)) => {
            assert_eq!(a.icon, "");
            assert_eq!(b.icon, "icon.blp");
        }
        other => panic!("expected two custom entries: {:?}", other),
    }
}

#[test]
fn builder_takes_building_group_and_joins_unit_group() {
    let mut cg = CodeGenerator::new();
    cg.process_record(Record::CustomBuilding(CustomBuildingRecord {
        uid: "HALL".to_string(),
        name: "Hall".to_string(),
        model: "hall.mdl".to_string(),
    }))
    .unwrap();
    cg.process_record(Record::CustomBuilder(CustomBuilderRecord {
        uid: "WORKER".to_string(),
        name: "Worker".to_string(),
        model: None,
    }))
    .unwrap();
    cg.process_record(unit_shop("CAMP", "Camp", None)).unwrap();
    let out = cg.emit();
    assert_eq!(out.builder_definitions.len(), 1);
    assert_eq!(
        out.builder_definitions[0].refs,
        vec![IdReference::Constant("HALL".to_string())]
    );
    // the builder itself is sold by the shop
    assert_eq!(
        out.shop_definitions[0].refs,
        vec![IdReference::Constant("WORKER".to_string())]
    );
}

#[test]
fn consume_record_free_function_drives_the_same_state() {
    let mut ctx = yarpgen::yarp_meta::RecordConsumerContext::new();
    let mut ids = yarpgen::yarp_meta::IdRegistry::new();
    let mut units = yarpgen::yarp_meta::UnitRegistry::new();
    let mut models = yarpgen::yarp_meta::ModelRegistry::new();
    yarpgen::yarp_meta::consume_record(
        custom_unit("A", "Swordsman", "sword.mdl"),
        &mut ctx,
        &mut ids,
        &mut units,
        &mut models,
    )
    .unwrap();
    let entries = units.entries();
    assert_eq!(entries.len(), 1);
    assert_eq!(entries[0].0.uid(), "A");
    assert_eq!(entries[0].1.model(), "sword.mdl");
    assert_eq!(ids.symbolic_pairs(), vec![("A".to_string(), "A".to_string())]);
    let model_entries = models.entries();
    assert_eq!(model_entries.len(), 1);
    assert_eq!(model_entries[0].1, "sword.mdl");
}

#[test]
fn stock_model_rebinding_touches_only_the_model_registry() {
    let mut cg = CodeGenerator::new();
    cg.process_record(stock_unit("h001", "old.mdl")).unwrap();
    cg.process_record(unit_shop("S", "Shop", None)).unwrap();
    cg.process_record(Record::StockUnitModel(yarpgen::records::StockUnitModelRecord {
        id: "h001".to_string(),
        model: "new.mdl".to_string(),
    }))
    .unwrap();
    let entries = cg.registries.unit.entries();
    // the entity keeps its own model; the registry binding was rebound
    assert_eq!(entries[0].1.model(), "old.mdl");
    let model_entries = cg.registries.model.entries();
    assert_eq!(model_entries.len(), 2);
    assert_eq!(model_entries[0].1, "new.mdl");
}
