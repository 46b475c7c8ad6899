//! Projection passes over raw documents: identifier uniqueness, balance,
//! totality, code-page isolation, determinism, and the wire-level scenarios.

use lcf_explorer::code_page::CodePage;
use lcf_explorer::project::ChunkList;
use lcf_explorer::project::Command;
use lcf_explorer::project::UnknownField;
use lcf_explorer::tree::TreeCall;
use lcf_explorer::tree::TreeEmitter;
use lcf_explorer::views::raw_database;
use lcf_explorer::views::raw_database::DbChunk;
use lcf_explorer::views::raw_database::RawDataBase;
use lcf_explorer::views::raw_map_unit;
use lcf_explorer::views::raw_map_unit::EventField;
use lcf_explorer::views::raw_map_unit::EventPageField;
use lcf_explorer::views::raw_map_unit::MapUnitChunk;
use lcf_explorer::views::raw_map_unit::RawMapUnit;

fn ids_of(calls: &[TreeCall]) -> Vec<u64> {
    let mut ids = Vec::new();
    for c in calls {
        match c {
            TreeCall::OpenDir { id, .. } => ids.push(*id),
            TreeCall::Leaf { id, .. } => ids.push(*id),
            TreeCall::CloseDir => {}
        }
    }
    ids
}

fn labels_of(calls: &[TreeCall]) -> Vec<String> {
    let mut out = Vec::new();
    for c in calls {
        match c {
            TreeCall::OpenDir { label, .. } => out.push(label.clone()),
            TreeCall::Leaf { label, .. } => out.push(label.clone()),
            TreeCall::CloseDir => {}
        }
    }
    out
}

fn shapes_of(calls: &[TreeCall]) -> Vec<(u8, u64)> {
    let mut out = Vec::new();
    for c in calls {
        match c {
            TreeCall::OpenDir { id, .. } => out.push((0, *id)),
            TreeCall::Leaf { id, .. } => out.push((1, *id)),
            TreeCall::CloseDir => out.push((2, 0)),
        }
    }
    out
}

fn assert_balanced(calls: &[TreeCall]) {
    let mut depth: i64 = 0;
    for c in calls {
        match c {
            TreeCall::OpenDir { .. } => depth += 1,
            TreeCall::CloseDir => {
                depth -= 1;
                assert!(depth >= 0, "close below depth zero");
            }
            TreeCall::Leaf { .. } => {}
        }
    }
    assert_eq!(depth, 0, "stack depth must return to zero");
}

fn assert_no_duplicate_ids(calls: &[TreeCall]) {
    let mut ids = ids_of(calls);
    let n = ids.len();
    ids.sort();
    ids.dedup();
    assert_eq!(ids.len(), n, "two emitted nodes share an identifier");
}

fn sample_database() -> RawDataBase {
    RawDataBase(ChunkList {
        items: vec![
            DbChunk::Actors(vec![1, 2]),
            DbChunk::Enemies(vec![
                (
                    1,
                    ChunkList {
                        items: vec![UnknownField { id: 3, bytes: vec![9] }],
                        null_terminated: true,
                    },
                ),
                (2, ChunkList { items: vec![], null_terminated: false }),
            ]),
            DbChunk::Switches(vec![(
                7,
                ChunkList {
                    items: vec![lcf_explorer::views::raw_database::SwitchField::Name(vec![
                        0xC9,
                    ])],
                    null_terminated: true,
                },
            )]),
            DbChunk::CommonEvents(vec![(
                1,
                ChunkList {
                    items: vec![
                        lcf_explorer::views::raw_database::CommonEventField::Trigger(3),
                        lcf_explorer::views::raw_database::CommonEventField::Commands(vec![
                            Command { instruction: 11, indent: 0, string: vec![] },
                            Command { instruction: 12, indent: 1, string: vec![] },
                        ]),
                    ],
                    null_terminated: false,
                },
            )]),
            DbChunk::Unknown { id: 99, bytes: vec![] },
        ],
        null_terminated: true,
    })
}

fn project_database(doc: &RawDataBase, page: CodePage) -> Vec<TreeCall> {
    let mut emitter = TreeEmitter::new();
    raw_database::update(doc, &mut emitter, page);
    emitter.calls
}

#[test]
fn unknown_chunk_is_kept_verbatim() {
    // A record whose tag is in no known variant set still yields a leaf with
    // its tag and its literal bytes.
    let doc = RawDataBase(ChunkList {
        items: vec![DbChunk::Unknown { id: 200, bytes: vec![1, 2, 3] }],
        null_terminated: true,
    });
    let calls = project_database(&doc, CodePage::Ascii);
    assert_eq!(calls.len(), 1);
    match &calls[0] {
        TreeCall::Leaf { id, label } => {
            assert_eq!(*id, 1);
            assert_eq!(label.as_str(), "Chunk 200: [1, 2, 3]");
        }
        other => panic!("expected a leaf, got {other:?}"),
    }
}

#[test]
fn out_of_range_trigger_keeps_its_number() {
    // An event page whose trigger holds the out-of-range value keeps the
    // literal number next to an explicit marker.
    let doc = RawMapUnit(ChunkList {
        items: vec![MapUnitChunk::Events(vec![(
            1,
            vec![EventField::Pages(vec![(
                1,
                ChunkList {
                    items: vec![EventPageField::Trigger(9)],
                    null_terminated: true,
                },
            )])],
        )])],
        null_terminated: true,
    });
    let mut emitter = TreeEmitter::new();
    raw_map_unit::update(&doc, &mut emitter, CodePage::Ascii);
    let labels = labels_of(&emitter.calls);
    assert!(
        labels.iter().any(|l| l == "Trigger: Unknown (9)"),
        "no trigger leaf with the literal value and a marker in {labels:?}"
    );
}

#[test]
fn nested_script_indentation() {
    // Three script instructions at indent levels 0, 1, 0 yield three leaves
    // with indices 0, 1, 2 and indentation prefixes of those lengths.
    let doc = RawMapUnit(ChunkList {
        items: vec![MapUnitChunk::Events(vec![(
            1,
            vec![EventField::Pages(vec![(
                1,
                ChunkList {
                    items: vec![EventPageField::Commands(vec![
                        Command { instruction: 11, indent: 0, string: vec![] },
                        Command { instruction: 12, indent: 1, string: vec![] },
                        Command { instruction: 13, indent: 0, string: vec![] },
                    ])],
                    null_terminated: true,
                },
            )])],
        )])],
        null_terminated: true,
    });
    let mut emitter = TreeEmitter::new();
    raw_map_unit::update(&doc, &mut emitter, CodePage::Ascii);
    let labels = labels_of(&emitter.calls);
    let pos = labels
        .iter()
        .position(|l| l == "Commands")
        .expect("a Commands directory");
    assert_eq!(labels[pos + 1], "0: 11 ");
    assert_eq!(labels[pos + 2], "1: \t12 ");
    assert_eq!(labels[pos + 3], "2: 13 ");
}

#[test]
fn no_identifier_collisions() {
    let calls = project_database(&sample_database(), CodePage::Ascii);
    assert_no_duplicate_ids(&calls);
}

#[test]
fn balanced_nesting() {
    let calls = project_database(&sample_database(), CodePage::Ascii);
    assert_balanced(&calls);
}

#[test]
fn every_chunk_yields_one_top_level_node() {
    let doc = sample_database();
    let calls = project_database(&doc, CodePage::Ascii);
    let mut depth: i64 = 0;
    let mut top_nodes = 0;
    for c in &calls {
        match c {
            TreeCall::OpenDir { .. } => {
                if depth == 0 {
                    top_nodes += 1;
                }
                depth += 1;
            }
            TreeCall::CloseDir => depth -= 1,
            TreeCall::Leaf { .. } => {
                if depth == 0 {
                    top_nodes += 1;
                }
            }
        }
    }
    assert_eq!(top_nodes, doc.0.items.len());
}

#[test]
fn projection_is_deterministic() {
    let doc = sample_database();
    let first = project_database(&doc, CodePage::ShiftJIS);
    let second = project_database(&doc, CodePage::ShiftJIS);
    assert_eq!(first, second);
}

#[test]
fn code_page_changes_only_text() {
    let doc = sample_database();
    let western = project_database(&doc, CodePage::Ascii);
    let cyrillic = project_database(&doc, CodePage::Cyrillic);
    assert_eq!(shapes_of(&western), shapes_of(&cyrillic));
    // and the decoded switch name really differs between the two pages
    let w_labels = labels_of(&western);
    let c_labels = labels_of(&cyrillic);
    assert!(w_labels.contains(&"\u{C9}".to_string()));
    assert!(c_labels.contains(&"\u{0419}".to_string()));
}

#[test]
fn identifiers_follow_the_shift_scheme() {
    // In the database schema the top level reserves 8 bits and the next
    // level 16: the first chunk gets identifier 1 and its first child
    // (1 << 16) + 1.
    let doc = RawDataBase(ChunkList {
        items: vec![DbChunk::Troops(ChunkList {
            items: vec![UnknownField { id: 4, bytes: vec![] }],
            null_terminated: true,
        })],
        null_terminated: true,
    });
    let calls = project_database(&doc, CodePage::Ascii);
    assert_eq!(
        calls[0],
        TreeCall::OpenDir { id: 1, label: "Troops".to_string() }
    );
    assert_eq!(
        calls[1],
        TreeCall::Leaf { id: (1 << 16) + 1, label: "Null terminated: true".to_string() }
    );
    assert_eq!(
        calls[2],
        TreeCall::Leaf { id: (1 << 16) + 2, label: "Field 4: []".to_string() }
    );
    assert_eq!(calls[3], TreeCall::CloseDir);
}

#[test]
fn switch_names_are_decoded_not_copied() {
    // The switch name bytes run through the code page; handing the bytes
    // back unchanged could not produce the decoded character.
    let calls = project_database(&sample_database(), CodePage::Ascii);
    let labels = labels_of(&calls);
    assert!(labels.contains(&"\u{C9}".to_string()));
}

#[test]
fn common_event_trigger_name() {
    let calls = project_database(&sample_database(), CodePage::Ascii);
    let labels = labels_of(&calls);
    assert!(labels.contains(&"Trigger: Autorun".to_string()));
}

#[test]
fn empty_document_emits_nothing() {
    let doc = RawDataBase(ChunkList { items: vec![], null_terminated: false });
    let calls = project_database(&doc, CodePage::Ascii);
    assert!(calls.is_empty());
}

#[test]
fn empty_collections_keep_their_termination_leaf() {
    let doc = RawDataBase(ChunkList {
        items: vec![DbChunk::System(ChunkList { items: vec![], null_terminated: false })],
        null_terminated: true,
    });
    let calls = project_database(&doc, CodePage::Ascii);
    let labels = labels_of(&calls);
    assert_eq!(labels, vec!["System", "Null terminated: false"]);
}
