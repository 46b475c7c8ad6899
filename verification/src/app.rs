//! The instance manager: the opened documents, the active selection, and the
//! code-page and view-mode toggles. One projection pass runs over the
//! selected instance on every display refresh; nothing is cached.

use vstd::prelude::*;

use crate::code_page::CodePage;
use crate::tree::CallV;
use crate::tree::TreeEmitter;
use crate::tree::calls_view;
use crate::views::database;
use crate::views::map_tree;
use crate::views::map_unit;
use crate::views::raw_database;
use crate::views::raw_map_tree;
use crate::views::raw_map_unit;
use crate::views::raw_save_data;

verus! {

/// A wire-level document of any of the four kinds.
pub enum RawDocument {
    DataBase(raw_database::RawDataBase),
    MapTree(raw_map_tree::RawMapTree),
    MapUnit(raw_map_unit::RawMapUnit),
    SaveData(raw_save_data::RawSaveData),
}

/// An interpreted document of any kind with an interpreted view.
pub enum Lcf {
    DataBase(database::LcfDataBase),
    MapTree(map_tree::LcfMapTree),
    MapUnit(map_unit::LcfMapUnit),
}

/// One opened document: its display name, its raw form, and its interpreted
/// form where interpretation succeeded. The raw view stays available either
/// way.
pub struct Instance {
    pub name: String,
    pub raw: RawDocument,
    pub converted: Option<Lcf>,
}

/// A raw document fits its schema's bit budgets.
pub open spec fn wf_raw(doc: RawDocument) -> bool {
    match doc {
        RawDocument::DataBase(d) => raw_database::wf(d),
        RawDocument::MapTree(d) => raw_map_tree::wf(d),
        RawDocument::MapUnit(d) => raw_map_unit::wf(d),
        RawDocument::SaveData(d) => raw_save_data::wf(d),
    }
}

/// An interpreted document fits its schema's bit budgets.
pub open spec fn wf_converted(doc: Lcf) -> bool {
    match doc {
        Lcf::DataBase(d) => database::wf(d),
        Lcf::MapTree(d) => map_tree::wf(d),
        Lcf::MapUnit(d) => map_unit::wf(d),
    }
}

/// Both forms of an instance fit their budgets.
pub open spec fn wf_instance(inst: Instance) -> bool {
    &&& wf_raw(inst.raw)
    &&& match inst.converted {
        Option::Some(doc) => wf_converted(doc),
        Option::None => true,
    }
}

/// The calls of one raw projection pass over a document.
pub open spec fn raw_calls(doc: RawDocument, page: CodePage) -> Seq<CallV> {
    match doc {
        RawDocument::DataBase(d) => raw_database::update_calls(d, page),
        RawDocument::MapTree(d) => raw_map_tree::update_calls(d, page),
        RawDocument::MapUnit(d) => raw_map_unit::update_calls(d, page),
        RawDocument::SaveData(d) => raw_save_data::update_calls(d),
    }
}

/// The calls of one interpreted projection pass over a document.
pub open spec fn converted_calls(doc: Lcf, page: CodePage) -> Seq<CallV> {
    match doc {
        Lcf::DataBase(d) => database::update_calls(d, page),
        Lcf::MapTree(d) => map_tree::update_calls(d, page),
        Lcf::MapUnit(d) => map_unit::update_calls(d, page),
    }
}

/// The whole session state: the opened instances, the selection, and the
/// global code page and view mode.
pub struct App {
    pub instances: Vec<Instance>,
    pub selected: Option<usize>,
    pub encoding: CodePage,
    pub using_raw: bool,
}

/// Every opened instance fits its budgets.
pub open spec fn wf_app(app: App) -> bool {
    forall|i: int| 0 <= i < app.instances@.len() ==> wf_instance(#[trigger] app.instances@[i])
}

/// Whether a display pass over the selected instance can run: something is
/// selected, and in interpreted mode its interpretation succeeded.
pub open spec fn can_show(app: App) -> bool {
    match app.selected {
        Option::Some(sel) => sel < app.instances@.len() && (app.using_raw
            || app.instances@[sel as int].converted is Some),
        Option::None => false,
    }
}

/// The calls of one display pass over the selected instance.
pub open spec fn selected_calls(app: App) -> Seq<CallV>
    recommends
        can_show(app),
{
    let inst = app.instances@[app.selected->0 as int];
    if app.using_raw {
        raw_calls(inst.raw, app.encoding)
    } else {
        converted_calls(inst.converted->0, app.encoding)
    }
}

impl App {
    /// A fresh session: no documents, nothing selected, the default code
    /// page, the interpreted view.
    pub fn new() -> (r: App)
        ensures
            r.instances@.len() == 0,
            r.selected is None,
            r.encoding == CodePage::Ascii,
            !r.using_raw,
    {
        App { instances: Vec::new(), selected: None, encoding: CodePage::Ascii, using_raw: false }
    }

    /// Opens a document: appends the instance and selects it. The rest of
    /// the session state is untouched.
    pub fn open(&mut self, instance: Instance)
        requires
            old(self).instances@.len() < usize::MAX,
        ensures
            final(self).instances@ == old(self).instances@.push(instance),
            final(self).selected == Some((old(self).instances@.len()) as usize),
            final(self).encoding == old(self).encoding,
            final(self).using_raw == old(self).using_raw,
    {
        self.instances.push(instance);
        self.selected = Some(self.instances.len() - 1);
    }

    /// Selects an opened instance.
    pub fn select(&mut self, index: usize)
        requires
            index < old(self).instances@.len(),
        ensures
            final(self).selected == Some(index),
            final(self).instances@ == old(self).instances@,
            final(self).encoding == old(self).encoding,
            final(self).using_raw == old(self).using_raw,
    {
        self.selected = Some(index);
    }

    /// Selects the code page used by every later projection pass.
    pub fn set_code_page(&mut self, page: CodePage)
        ensures
            final(self).encoding == page,
            final(self).instances@ == old(self).instances@,
            final(self).selected == old(self).selected,
            final(self).using_raw == old(self).using_raw,
    {
        self.encoding = page;
    }

    /// Switches between the raw and the interpreted view.
    pub fn toggle_view_mode(&mut self)
        ensures
            final(self).using_raw == !old(self).using_raw,
            final(self).instances@ == old(self).instances@,
            final(self).selected == old(self).selected,
            final(self).encoding == old(self).encoding,
    {
        self.using_raw = !self.using_raw;
    }

    /// Runs one display pass: projects the selected instance in the active
    /// view mode into the emitter. Returns whether anything could be shown;
    /// with nothing selected, or an uninterpretable document in interpreted
    /// mode, the emitter is left untouched.
    pub fn update_view(&self, builder: &mut TreeEmitter) -> (shown: bool)
        requires
            wf_app(*self),
        ensures
            shown == can_show(*self),
            shown ==> calls_view(final(builder).calls@) == calls_view(old(builder).calls@)
                + selected_calls(*self),
            !shown ==> final(builder).calls@ == old(builder).calls@,
    {
        match &self.selected {
            Option::Some(sel) => {
                if *sel >= self.instances.len() {
                    return false;
                }
                let inst = &self.instances[*sel];
                proof {
                    assert(wf_instance(self.instances@[*sel as int]));
                }
                if self.using_raw {
                    match &inst.raw {
                        RawDocument::DataBase(d) => raw_database::update(
                            d,
                            builder,
                            self.encoding,
                        ),
                        RawDocument::MapTree(d) => raw_map_tree::update(d, builder, self.encoding),
                        RawDocument::MapUnit(d) => raw_map_unit::update(d, builder, self.encoding),
                        RawDocument::SaveData(d) => raw_save_data::update(
                            d,
                            builder,
                            self.encoding,
                        ),
                    }
                    true
                } else {
                    match &inst.converted {
                        Option::Some(doc) => {
                            match doc {
                                Lcf::DataBase(d) => database::update(d, builder, self.encoding),
                                Lcf::MapTree(d) => map_tree::update(d, builder, self.encoding),
                                Lcf::MapUnit(d) => map_unit::update(d, builder, self.encoding),
                            }
                            true
                        },
                        Option::None => false,
                    }
                }
            },
            Option::None => false,
        }
    }
}


/// Determinism: a display pass is a pure function of the document, the code
/// page and the view mode, so re-running it yields the identical call
/// sequence.
pub proof fn lemma_display_deterministic(app: App, c1: Seq<CallV>, c2: Seq<CallV>)
    requires
        c1 == selected_calls(app),
        c2 == selected_calls(app),
    ensures
        c1 == c2,
{
}

/// Code page isolation: two sessions that differ only in their code page
/// emit calls of the same shape — the same kinds with the same identifiers;
/// only label text may change.
pub proof fn lemma_display_page_isolation(a: App, b: App)
    requires
        a.instances@ == b.instances@,
        a.selected == b.selected,
        a.using_raw == b.using_raw,
        can_show(a),
    ensures
        crate::tree_props::shape_calls(selected_calls(a)) == crate::tree_props::shape_calls(
            selected_calls(b),
        ),
{
    let inst = a.instances@[a.selected->0 as int];
    if a.using_raw {
        match inst.raw {
            RawDocument::DataBase(d) => raw_database::lemma_update_page_isolation(
                d,
                a.encoding,
                b.encoding,
            ),
            RawDocument::MapTree(d) => raw_map_tree::lemma_update_page_isolation(
                d,
                a.encoding,
                b.encoding,
            ),
            RawDocument::MapUnit(d) => raw_map_unit::lemma_update_page_isolation(
                d,
                a.encoding,
                b.encoding,
            ),
            RawDocument::SaveData(d) => {},
        }
    } else {
        match inst.converted->0 {
            Lcf::DataBase(d) => database::lemma_update_page_isolation(d, a.encoding, b.encoding),
            Lcf::MapTree(d) => map_tree::lemma_update_page_isolation(d, a.encoding, b.encoding),
            Lcf::MapUnit(d) => map_unit::lemma_update_page_isolation(d, a.encoding, b.encoding),
        }
    }
}


/// No collision: whatever the document kind and the view mode, one display
/// pass never emits two nodes with one identifier.
pub proof fn lemma_display_no_collision(app: App)
    requires
        wf_app(app),
        can_show(app),
    ensures
        ({
            let es = crate::tree::emitted(selected_calls(app), 0);
            forall|t1: int, t2: int|
                0 <= t1 < t2 < es.len() ==> (#[trigger] es[t1]).1 != (#[trigger] es[t2]).1
        }),
{
    let inst = app.instances@[app.selected->0 as int];
    assert(wf_instance(inst));
    if app.using_raw {
        match inst.raw {
            RawDocument::DataBase(d) => raw_database::lemma_update_no_collision(d, app.encoding),
            RawDocument::MapTree(d) => raw_map_tree::lemma_update_no_collision(d, app.encoding),
            RawDocument::MapUnit(d) => raw_map_unit::lemma_update_no_collision(d, app.encoding),
            RawDocument::SaveData(d) => raw_save_data::lemma_update_no_collision(d),
        }
    } else {
        match inst.converted->0 {
            Lcf::DataBase(d) => database::lemma_update_no_collision(d, app.encoding),
            Lcf::MapTree(d) => map_tree::lemma_update_no_collision(d, app.encoding),
            Lcf::MapUnit(d) => map_unit::lemma_update_no_collision(d, app.encoding),
        }
    }
}

/// Balanced structure: whatever the document kind and the view mode, the
/// open and close calls of one display pass nest correctly and return to
/// depth zero.
pub proof fn lemma_display_balanced(app: App)
    requires
        wf_app(app),
        can_show(app),
    ensures
        crate::tree::balanced(selected_calls(app)),
{
    let inst = app.instances@[app.selected->0 as int];
    assert(wf_instance(inst));
    if app.using_raw {
        match inst.raw {
            RawDocument::DataBase(d) => raw_database::lemma_update_balanced(d, app.encoding),
            RawDocument::MapTree(d) => raw_map_tree::lemma_update_balanced(d, app.encoding),
            RawDocument::MapUnit(d) => raw_map_unit::lemma_update_balanced(d, app.encoding),
            RawDocument::SaveData(d) => raw_save_data::lemma_update_balanced(d),
        }
    } else {
        match inst.converted->0 {
            Lcf::DataBase(d) => database::lemma_update_balanced(d, app.encoding),
            Lcf::MapTree(d) => map_tree::lemma_update_balanced(d, app.encoding),
            Lcf::MapUnit(d) => map_unit::lemma_update_balanced(d, app.encoding),
        }
    }
}

} // verus!
