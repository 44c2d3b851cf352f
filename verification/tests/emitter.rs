use yarpgen::codegen::CodeGenerator;
use yarpgen::codegen::chunk_entries;
use yarpgen::codegen::grid_positions;
use yarpgen::codegen::index_list;
use yarpgen::records::CustomUnitRecord;
use yarpgen::records::Record;
use yarpgen::records::UnitShopRecord;
use yarpgen::yarp_meta::LayoutEvent;

fn custom_unit(uid: &str) -> Record {
    Record::CustomUnit(CustomUnitRecord {
        uid: uid.to_string(),
        name: "Unit".to_string(),
        model: "u.mdl".to_string(),
    })
}

fn unit_shop(uid: &str) -> Record {
    Record::UnitShop(UnitShopRecord {
        uid: uid.to_string(),
        name: "Shop".to_string(),
        model: Some("s.mdl".to_string()),
    })
}

#[test]
fn chunks_hold_at_most_forty_entries() {
    let entries: Vec<(String, String)> =
        (0..85).map(|i| (format!("k{}", i), format!("v{}", i))).collect();
    let chunks = chunk_entries(entries);
    assert_eq!(chunks.len(), 3);
    assert_eq!(chunks[0].len(), 40);
    assert_eq!(chunks[1].len(), 40);
    assert_eq!(chunks[2].len(), 5);
    assert_eq!(chunks[0][0].0, "k0");
    assert_eq!(chunks[1][0].0, "k40");
    assert_eq!(chunks[2][4].0, "k84");
}

#[test]
fn chunk_counts_are_ceilings() {
    let empty: Vec<u64> = Vec::new();
    assert_eq!(chunk_entries(empty).len(), 0);
    assert_eq!(chunk_entries((0u64..40).collect::<Vec<u64>>()).len(), 1);
    assert_eq!(chunk_entries((0u64..41).collect::<Vec<u64>>()).len(), 2);
    assert_eq!(chunk_entries((0u64..80).collect::<Vec<u64>>()).len(), 2);
}

#[test]
fn aggregator_invokes_chunks_in_ascending_order() {
    assert_eq!(index_list(0), Vec::<usize>::new());
    assert_eq!(index_list(3), vec![0, 1, 2]);
}

#[test]
fn emitted_registry_is_chunked_with_one_aggregator() {
    let mut cg = CodeGenerator::new();
    // fifty symbolic keys: forty-five units closed into five shops of nine
    for s in 0..5 {
        for u in 0..9 {
            let uid = format!("U{}X{}", s, u);
            cg.process_record(custom_unit(&uid)).unwrap();
        }
        let shop = format!("S{}", s);
        cg.process_record(unit_shop(&shop)).unwrap();
    }
    let out = cg.emit();
    assert_eq!(out.uid_registry_chunks.len(), 2);
    assert_eq!(out.uid_registry_chunks[0].len(), 40);
    assert_eq!(out.uid_registry_chunks[1].len(), 10);
    assert_eq!(out.uid_registry_aggregate, vec![0, 1]);
    assert_eq!(out.reverse_registry_chunks.len(), 2);
    assert_eq!(out.reverse_registry_aggregate, vec![0, 1]);
    // the model table holds the same fifty entries
    assert_eq!(out.model_registry_chunks.len(), 2);
    assert_eq!(out.model_registry_aggregate, vec![0, 1]);
    assert_eq!(out.constants.len(), 50);
    assert_eq!(out.shop_registry.len(), 5);
    // every symbolic key stands in the forward table exactly once
    let mut uids: Vec<String> = Vec::new();
    for chunk in &out.uid_registry_chunks {
        for (uid, _) in chunk {
            uids.push(uid.clone());
        }
    }
    assert_eq!(uids.len(), 50);
    uids.sort();
    uids.dedup();
    assert_eq!(uids.len(), 50);
}

#[test]
fn grid_wraps_after_eight_columns() {
    let events: Vec<LayoutEvent> = (0..10).map(|_| LayoutEvent::ShopPlaced).collect();
    let coords = grid_positions(&events);
    assert_eq!(coords[0], (0, 0));
    assert_eq!(coords[1], (128, 0));
    assert_eq!(coords[7], (896, 0));
    assert_eq!(coords[8], (0, -128));
    assert_eq!(coords[9], (128, -128));
}

#[test]
fn forced_row_break_wraps_immediately() {
    let events = vec![
        LayoutEvent::ShopPlaced,
        LayoutEvent::RowBreak,
        LayoutEvent::ShopPlaced,
        LayoutEvent::ShopPlaced,
    ];
    let coords = grid_positions(&events);
    assert_eq!(coords, vec![(0, 0), (0, -128), (128, -128)]);
}

#[test]
fn shop_new_line_moves_the_next_shop_down() {
    let mut cg = CodeGenerator::new();
    cg.process_record(unit_shop("S0")).unwrap();
    cg.process_record(Record::ShopNewLine).unwrap();
    cg.process_record(unit_shop("S1")).unwrap();
    let out = cg.emit();
    assert_eq!((out.shop_placements[0].x, out.shop_placements[0].y), (0, 0));
    assert_eq!((out.shop_placements[1].x, out.shop_placements[1].y), (0, -128));
}

#[test]
fn an_empty_run_emits_empty_blocks() {
    let cg = CodeGenerator::new();
    let out = cg.emit();
    assert_eq!(out.constants.len(), 0);
    assert_eq!(out.uid_registry_chunks.len(), 0);
    assert_eq!(out.uid_registry_aggregate.len(), 0);
    assert_eq!(out.shop_placements.len(), 0);
}

#[test]
fn reference_text_is_the_raw_token() {
    let c = yarpgen::codegen::IdReference::Constant("MY_UNIT".to_string());
    let l = yarpgen::codegen::IdReference::Literal("h001".to_string());
    assert_eq!(c.to_string(), "MY_UNIT");
    assert_eq!(l.to_string(), "h001");
}
