//! Passes over the remaining document kinds, raw and interpreted.

use lcf_explorer::code_page::CodePage;
use lcf_explorer::project::ChunkList;
use lcf_explorer::project::Command;
use lcf_explorer::tree::TreeCall;
use lcf_explorer::tree::TreeEmitter;
use lcf_explorer::views::data_base;
use lcf_explorer::views::database;
use lcf_explorer::views::map_tree;
use lcf_explorer::views::map_unit;
use lcf_explorer::views::raw_map_tree;
use lcf_explorer::views::raw_save_data;

fn labels_of(calls: &[TreeCall]) -> Vec<String> {
    let mut out = Vec::new();
    for c in calls {
        match c {
            TreeCall::OpenDir { label, .. } => out.push(label.clone()),
            TreeCall::Leaf { label, .. } => out.push(label.clone()),
            TreeCall::CloseDir => {}
        }
    }
    out
}

fn assert_well_formed(calls: &[TreeCall]) {
    let mut depth: i64 = 0;
    let mut ids = Vec::new();
    for c in calls {
        match c {
            TreeCall::OpenDir { id, .. } => {
                ids.push(*id);
                depth += 1;
            }
            TreeCall::CloseDir => {
                depth -= 1;
                assert!(depth >= 0);
            }
            TreeCall::Leaf { id, .. } => ids.push(*id),
        }
    }
    assert_eq!(depth, 0);
    let n = ids.len();
    ids.sort();
    ids.dedup();
    assert_eq!(ids.len(), n, "identifier collision");
}

#[test]
fn raw_map_tree_pass() {
    let doc = raw_map_tree::RawMapTree {
        active: 3,
        order: vec![1, 2, 3],
        start: ChunkList {
            items: vec![
                raw_map_tree::StartField::PartyMapID(1),
                raw_map_tree::StartField::Unknown { id: 40, bytes: vec![5] },
            ],
            null_terminated: true,
        },
        maps: vec![(
            1,
            ChunkList {
                items: vec![
                    raw_map_tree::MapField::Name(vec![b'H', b'i']),
                    raw_map_tree::MapField::AreaRange {
                        begin_x: 1,
                        begin_y: 2,
                        end_x: 3,
                        end_y: 4,
                    },
                    raw_map_tree::MapField::BGMData(ChunkList {
                        items: vec![raw_map_tree::BgmField::Volume(80)],
                        null_terminated: true,
                    }),
                ],
                null_terminated: true,
            },
        )],
    };
    let mut emitter = TreeEmitter::new();
    raw_map_tree::update(&doc, &mut emitter, CodePage::Ascii);
    assert_well_formed(&emitter.calls);
    let labels = labels_of(&emitter.calls);
    assert_eq!(labels[0], "Active: 3");
    assert!(labels.contains(&"Order".to_string()));
    assert!(labels.contains(&"0: 1".to_string()));
    assert!(labels.contains(&"Party Map ID: 1".to_string()));
    assert!(labels.contains(&"Field 40: [[5]]".to_string()));
    assert!(labels.contains(&"Map 1".to_string()));
    assert!(labels.contains(&"Name: Hi".to_string()));
    assert!(labels.contains(&"Begin X: 1".to_string()));
    assert!(labels.contains(&"End Y: 4".to_string()));
    assert!(labels.contains(&"Volume: 80".to_string()));
}

#[test]
fn raw_map_tree_maps_only_pass() {
    let maps = vec![(
        9,
        ChunkList {
            items: vec![raw_map_tree::MapField::Parent(0)],
            null_terminated: false,
        },
    )];
    let mut emitter = TreeEmitter::new();
    raw_map_tree::update_maps(&maps, &mut emitter, CodePage::Ascii);
    assert_well_formed(&emitter.calls);
    let labels = labels_of(&emitter.calls);
    assert_eq!(labels[0], "Maps");
    assert!(labels.contains(&"Map 9".to_string()));
    assert!(labels.contains(&"Parent: 0".to_string()));
}

#[test]
fn raw_save_data_pass() {
    let doc = raw_save_data::RawSaveData(ChunkList {
        items: vec![
            raw_save_data::SaveChunk::Title(vec![1]),
            raw_save_data::SaveChunk::System(vec![
                raw_save_data::SaveSystemField::SwitchesSize(2),
                raw_save_data::SaveSystemField::Switches(vec![0, 1]),
                raw_save_data::SaveSystemField::Variables(vec![7]),
            ]),
            raw_save_data::SaveChunk::Unknown { id: 77, bytes: vec![8, 9] },
        ],
        null_terminated: true,
    });
    let mut emitter = TreeEmitter::new();
    raw_save_data::update(&doc, &mut emitter, CodePage::Ascii);
    assert_well_formed(&emitter.calls);
    let labels = labels_of(&emitter.calls);
    assert_eq!(labels[0], "Title: [1]");
    assert!(labels.contains(&"System".to_string()));
    assert!(labels.contains(&"Switches Size: 2".to_string()));
    assert!(labels.contains(&"0: false".to_string()));
    assert!(labels.contains(&"1: true".to_string()));
    assert!(labels.contains(&"0: 7".to_string()));
    assert!(labels.contains(&"Chunk 77: [8, 9]".to_string()));
}

#[test]
fn interpreted_database_pass() {
    let doc = database::LcfDataBase(ChunkList {
        items: vec![
            database::DbChunk::ChipSet(database::ChipSet {
                data: vec![database::ChipSetEntry {
                    index: 1,
                    chunks: ChunkList {
                        items: vec![
                            database::ChipSetField::Name(vec![b'A']),
                            database::ChipSetField::Unknown { id: 9, bytes: vec![1] },
                        ],
                        null_terminated: true,
                    },
                }],
            }),
            database::DbChunk::Unknown { id: 30, bytes: vec![] },
        ],
        null_terminated: true,
    });
    let mut emitter = TreeEmitter::new();
    database::update(&doc, &mut emitter, CodePage::Ascii);
    assert_well_formed(&emitter.calls);
    let labels = labels_of(&emitter.calls);
    assert!(labels.contains(&"Chipset".to_string()));
    assert!(labels.contains(&"ChipSet 1".to_string()));
    assert!(labels.contains(&"Name: A".to_string()));
    assert!(labels.contains(&"Field 9: [[1]]".to_string()));
    assert!(labels.contains(&"Chunk 30".to_string()));
}

#[test]
fn reduced_database_pass_suppresses_empty_fields() {
    let doc = data_base::DataBase {
        chipsets: vec![
            data_base::ChipSetRec {
                name: vec![b'T'],
                file: vec![],
                animation_type: 0,
                animation_speed: 2,
            },
        ],
    };
    let mut emitter = TreeEmitter::new();
    data_base::update(&doc, &mut emitter, CodePage::Ascii);
    assert_well_formed(&emitter.calls);
    let labels = labels_of(&emitter.calls);
    assert_eq!(labels[0], "ChipSets");
    assert_eq!(labels[1], "1");
    assert!(labels.contains(&"Name: T".to_string()));
    assert!(labels.contains(&"Animation Speed: 2".to_string()));
    assert!(!labels.iter().any(|l| l.starts_with("File: ")));
    assert!(!labels.iter().any(|l| l.starts_with("Animation Type: ")));
}

fn sample_interpreted_map_unit() -> map_unit::LcfMapUnit {
    map_unit::LcfMapUnit {
        chipset: Some(1),
        width: 20,
        height: 15,
        scroll_type: map_unit::ScrollType::NoLoop,
        panorama: map_unit::Panorama {
            enabled: true,
            file: None,
            horizontal_loop: false,
            horizontal_auto_scroll: false,
            horizontal_auto_scroll_speed: 0,
            vertical_loop: true,
            vertical_auto_scroll: true,
            vertical_auto_scroll_speed: 4,
        },
        events: vec![map_unit::Event {
            id: 3,
            name: vec![b'd', b'o', b'o', b'r'],
            x: 5,
            y: 6,
            pages: vec![map_unit::Page {
                condition: map_unit::Condition {
                    switch_a: (1, true),
                    switch_b: (2, false),
                    variable: (3, false),
                    value: 10,
                    item: (4, false),
                    actor: (5, false),
                    timer: (6, false),
                },
                graphic: map_unit::Graphic {
                    file: vec![b'c'],
                    index: 0,
                    direction: 2,
                    pattern: 1,
                    transparent: false,
                },
                movement: map_unit::Movement { kind: 1, frequency: 3, speed: 4 },
                trigger: map_unit::Trigger::ActionButton,
                priority: map_unit::Priority::BelowCharacters,
                forbid_event_overlap: false,
                animation_type: map_unit::AnimationType::Standing,
                commands: vec![Command { instruction: 10, indent: 0, string: vec![] }],
            }],
        }],
        lower: vec![0, 0],
        upper: vec![10000],
        save_time: 2,
    }
}

#[test]
fn interpreted_map_unit_pass() {
    let doc = sample_interpreted_map_unit();
    let mut emitter = TreeEmitter::new();
    map_unit::update(&doc, &mut emitter, CodePage::Ascii);
    assert_well_formed(&emitter.calls);
    let labels = labels_of(&emitter.calls);
    assert_eq!(labels[0], "ChipSet: 1");
    assert!(labels.contains(&"Scroll Type: No Loop".to_string()));
    assert!(labels.contains(&"Panorama".to_string()));
    assert!(labels.contains(&"E0003: door".to_string()));
    assert!(labels.contains(&"Page 1".to_string()));
    assert!(labels.contains(&"Switch A: 1 (true)".to_string()));
    assert!(labels.contains(&"Trigger: Action Button".to_string()));
    assert!(labels.contains(&"Priority: Below Characters".to_string()));
    assert!(labels.contains(&"Animation Type: Standing Animation".to_string()));
    assert!(labels.contains(&"Lower: [0, 0]".to_string()));
    assert!(labels.contains(&"Upper: [10000]".to_string()));
}

#[test]
fn interpreted_map_unit_omits_missing_chipset() {
    let mut doc = sample_interpreted_map_unit();
    doc.chipset = None;
    let mut emitter = TreeEmitter::new();
    map_unit::update(&doc, &mut emitter, CodePage::Ascii);
    assert_well_formed(&emitter.calls);
    let labels = labels_of(&emitter.calls);
    assert_eq!(labels[0], "Width: 20");
    assert!(!labels.iter().any(|l| l.starts_with("ChipSet: ")));
}

#[test]
fn interpreted_map_tree_pass() {
    let doc = map_tree::LcfMapTree {
        active: 1,
        order: vec![1],
        start: ChunkList { items: vec![], null_terminated: false },
        maps: vec![(
            1,
            ChunkList {
                items: vec![
                    map_tree::MapField::Backdrop(2),
                    map_tree::MapField::ExtractedNode(5),
                ],
                null_terminated: true,
            },
        )],
    };
    let mut emitter = TreeEmitter::new();
    map_tree::update(&doc, &mut emitter, CodePage::Ascii);
    assert_well_formed(&emitter.calls);
    let labels = labels_of(&emitter.calls);
    assert!(labels.contains(&"Backdrop: 2".to_string()));
    assert!(labels.contains(&"Extracted Node: 5".to_string()));
}
