//! The instance manager: opening, selecting, toggling, and the display pass.

use lcf_explorer::app::App;
use lcf_explorer::app::Instance;
use lcf_explorer::app::Lcf;
use lcf_explorer::app::RawDocument;
use lcf_explorer::code_page::CodePage;
use lcf_explorer::project::ChunkList;
use lcf_explorer::tree::TreeCall;
use lcf_explorer::tree::TreeEmitter;
use lcf_explorer::views::database;
use lcf_explorer::views::raw_database::DbChunk;
use lcf_explorer::views::raw_database::RawDataBase;

fn sample_instance() -> Instance {
    Instance {
        name: "RPG_RT.ldb".to_string(),
        raw: RawDocument::DataBase(RawDataBase(ChunkList {
            items: vec![DbChunk::Unknown { id: 42, bytes: vec![1] }],
            null_terminated: true,
        })),
        converted: Some(Lcf::DataBase(database::LcfDataBase(ChunkList {
            items: vec![database::DbChunk::Unknown { id: 42, bytes: vec![1] }],
            null_terminated: true,
        }))),
    }
}

#[test]
fn fresh_session_shows_nothing() {
    let app = App::new();
    assert!(app.selected.is_none());
    assert!(!app.using_raw);
    assert!(app.encoding == CodePage::Ascii);
    let mut emitter = TreeEmitter::new();
    assert!(!app.update_view(&mut emitter));
    assert!(emitter.calls.is_empty());
}

#[test]
fn open_selects_the_new_instance() {
    let mut app = App::new();
    app.open(sample_instance());
    assert_eq!(app.selected, Some(0));
    app.open(sample_instance());
    assert_eq!(app.selected, Some(1));
    app.select(0);
    assert_eq!(app.selected, Some(0));
}

#[test]
fn toggles_and_code_page() {
    let mut app = App::new();
    app.toggle_view_mode();
    assert!(app.using_raw);
    app.toggle_view_mode();
    assert!(!app.using_raw);
    app.set_code_page(CodePage::Big5);
    assert!(app.encoding == CodePage::Big5);
}

#[test]
fn display_pass_uses_the_view_mode() {
    let mut app = App::new();
    app.open(sample_instance());

    // interpreted mode: the interpreted projector labels the unknown chunk
    // without its bytes
    let mut emitter = TreeEmitter::new();
    assert!(app.update_view(&mut emitter));
    assert_eq!(
        emitter.calls,
        vec![TreeCall::Leaf { id: 1, label: "Chunk 42".to_string() }]
    );

    // raw mode: the raw projector keeps the bytes
    app.toggle_view_mode();
    let mut emitter = TreeEmitter::new();
    assert!(app.update_view(&mut emitter));
    assert_eq!(
        emitter.calls,
        vec![TreeCall::Leaf { id: 1, label: "Chunk 42: [1]".to_string() }]
    );
}

#[test]
fn uninterpretable_document_still_has_a_raw_view() {
    let mut app = App::new();
    let mut inst = sample_instance();
    inst.converted = None;
    app.open(inst);

    // interpreted mode cannot show it
    let mut emitter = TreeEmitter::new();
    assert!(!app.update_view(&mut emitter));
    assert!(emitter.calls.is_empty());

    // the raw view stays available
    app.toggle_view_mode();
    let mut emitter = TreeEmitter::new();
    assert!(app.update_view(&mut emitter));
    assert!(!emitter.calls.is_empty());
}
