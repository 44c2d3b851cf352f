use yarpgen::codegen::CodeGenerator;
use yarpgen::records::CustomBuilderRecord;
use yarpgen::records::CustomBuildingRecord;
use yarpgen::records::CustomUnitRecord;
use yarpgen::records::Record;
use yarpgen::records::SetShopScaleRecord;
use yarpgen::records::StockUnitModelRecord;
use yarpgen::records::StockUnitRecord;
use yarpgen::records::UnitShopRecord;
use yarpgen::yarp_data::YarpData;
use yarpgen::yarp_data::YarpDataUnit;
use yarpgen::yarp_data::YarpDataUnitVariant;
use yarpgen::yarp_data::transform_yarp_data;
use yarpgen::yarp_meta::UnitIdentifier;
use yarpgen::yarp_meta::YarpUnit;

fn sample_pipeline() -> CodeGenerator {
    let mut cg = CodeGenerator::new();
    cg.process_record(Record::CustomUnit(CustomUnitRecord {
        uid: "SWORD".to_string(),
        name: "Swordsman".to_string(),
        model: "sword.mdl".to_string(),
    }))
    .unwrap();
    cg.process_record(Record::StockUnit(StockUnitRecord {
        id: "h001".to_string(),
        model: "peon.mdl".to_string(),
    }))
    .unwrap();
    cg.process_record(Record::CustomBuilding(CustomBuildingRecord {
        uid: "HALL".to_string(),
        name: "Hall".to_string(),
        model: "hall.mdl".to_string(),
    }))
    .unwrap();
    cg.process_record(Record::CustomBuilder(CustomBuilderRecord {
        uid: "WORKER".to_string(),
        name: "Worker".to_string(),
        model: None,
    }))
    .unwrap();
    cg.process_record(Record::SetShopScale(SetShopScaleRecord { scale: "1.5".to_string() }))
        .unwrap();
    cg.process_record(Record::UnitShop(UnitShopRecord {
        uid: "CAMP".to_string(),
        name: "Camp".to_string(),
        model: None,
    }))
    .unwrap();
    cg.process_record(Record::StockUnitModel(StockUnitModelRecord {
        id: "h009".to_string(),
        model: "grunt.mdl".to_string(),
    }))
    .unwrap();
    cg
}

#[test]
fn serialization_walks_shops_and_flattens_raw_models() {
    let cg = sample_pipeline();
    let data = YarpData::from_meta(&cg.registries.id, &cg.registries.unit, &cg.registries.model);
    assert_eq!(data.shops.len(), 1);
    assert_eq!(data.shops[0].0, "other");
    let shops = &data.shops[0].1;
    assert_eq!(shops.len(), 1);
    let camp = &shops[0];
    assert_eq!(camp.uid, "CAMP");
    assert_eq!(camp.name, "Camp");
    assert_eq!(camp.model, "peon.mdl");
    assert_eq!(camp.scale, "1.5");
    assert_eq!((camp.row, camp.col), (0, 0));
    assert_eq!(camp.sold.len(), 3);
    match &camp.sold[0] {
        YarpDataUnit::Custom(c) => {
            assert_eq!(c.uid, "SWORD");
            assert_eq!(c.variant, YarpDataUnitVariant::Unit);
        }
        other => panic!("expected the custom unit first: {:?}", other),
    }
    match &camp.sold[1] {
        YarpDataUnit::Stock(s) => {
            assert_eq!(s.rawid, "h001");
            assert_eq!(s.model, "peon.mdl");
        }
        other => panic!("expected the stock unit second: {:?}", other),
    }
    match &camp.sold[2] {
        YarpDataUnit::Custom(c) => {
            assert_eq!(c.uid, "WORKER");
            match &c.variant {
                YarpDataUnitVariant::Builder { built } => {
                    assert_eq!(built.len(), 1);
                    match &built[0] {
                        YarpDataUnit::Custom(b) => {
                            assert_eq!(b.uid, "HALL");
                            assert_eq!(b.variant, YarpDataUnitVariant::Building);
                        }
                        other => panic!("expected the building: {:?}", other),
                    }
                }
                other => panic!("expected a builder: {:?}", other),
            }
        }
        other => panic!("expected the builder third: {:?}", other),
    }
    // the side table holds the raw bindings, in registration order
    assert_eq!(
        data.stock_model_registry,
        vec![
            ("h001".to_string(), "peon.mdl".to_string()),
            ("h009".to_string(), "grunt.mdl".to_string()),
        ]
    );
}

#[test]
fn round_trip_restores_the_entity_set() {
    let cg = sample_pipeline();
    let data = YarpData::from_meta(&cg.registries.id, &cg.registries.unit, &cg.registries.model);
    let rebuilt = transform_yarp_data(&data).unwrap();
    let before: Vec<(UnitIdentifier, YarpUnit)> = cg.registries.unit.entries();
    let after: Vec<(UnitIdentifier, YarpUnit)> = rebuilt.unit.entries();
    assert_eq!(before.len(), after.len());
    for pair in before.iter() {
        assert!(after.contains(pair), "missing after the round trip: {:?}", pair);
    }
    for pair in after.iter() {
        assert!(before.contains(pair), "invented by the round trip: {:?}", pair);
    }
    // the symbolic keys come back, possibly in another order
    let mut sym_before = cg.registries.id.symbolic_pairs();
    let mut sym_after = rebuilt.id.symbolic_pairs();
    sym_before.sort();
    sym_after.sort();
    assert_eq!(sym_before, sym_after);
    // the raw side table is replayed into the model registry
    let models = rebuilt.model.entries();
    assert_eq!(models.len(), 2);
    assert_eq!(models[0].0.rawid(), "h001");
    assert_eq!(models[0].1, "peon.mdl");
    assert_eq!(models[1].0.rawid(), "h009");
    assert_eq!(models[1].1, "grunt.mdl");
}

#[test]
fn duplicate_keys_in_a_document_are_fatal() {
    let cg = sample_pipeline();
    let mut data =
        YarpData::from_meta(&cg.registries.id, &cg.registries.unit, &cg.registries.model);
    // a hand-edited duplicate of the shop's key on one of its sold units
    if let YarpDataUnit::Custom(c) = &mut data.shops[0].1[0].sold[0] {
        c.uid = "CAMP".to_string();
    }
    let r = transform_yarp_data(&data);
    match r {
        Err(yarpgen::errors::YarpError::DuplicateIdentifier { uid }) => assert_eq!(uid, "CAMP"),
        Err(other) => panic!("expected a duplicate-identifier error: {:?}", other),
        Ok(_) => panic!("expected a duplicate-identifier error, got a rebuilt registry"),
    }
}
