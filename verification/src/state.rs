//! The application's aggregate state: the presets keyed by id, the
//! registered game directories, and the emulator's executable path,
//! together with the dirty flag that batches persistence.
use vstd::prelude::*;

use crate::gamedirs::{dirs_unique, dirs_view, DirModel, GameDir};
use crate::presets::{
    clone_strings, preset_ids_unique, presets_view, str_eq, strings_view, OptModel, Preset,
    PresetModel, PresetOpt,
};

verus! {

/// The flattened form of one option: name, selection, choices.
pub type OptRecord = (String, String, Vec<String>);

/// The flattened form of one preset: id, name, creation time, game
/// path, schema path, section name, options.
pub type PresetRecord = (String, String, i64, String, String, String, Vec<OptRecord>);

/// The flattened form of one game directory: name, path.
pub type DirRecord = (String, String);

/// The flattened form of the whole aggregate: emulator path, game
/// directories, presets.  Every field is a plain standard value, so any
/// persistence collaborator can carry it.
pub type DataRecords = (String, Vec<DirRecord>, Vec<PresetRecord>);

/// Mathematical model of an [`AppData`].
pub ghost struct DataModel {
    pub presets: Seq<PresetModel>,
    pub game_dirs: Seq<DirModel>,
    pub dolphin_path: Seq<char>,
}

/// The aggregate root: every preset, every game directory, and the
/// emulator path.  Presets are keyed by their id; insertion replaces a
/// preset already carrying the same id.
pub struct AppData {
    pub presets: Vec<Preset>,
    pub game_dirs: Vec<GameDir>,
    pub dolphin_path: String,
}

impl View for AppData {
    type V = DataModel;

    open spec fn view(&self) -> DataModel {
        DataModel {
            presets: presets_view(self.presets@),
            game_dirs: dirs_view(self.game_dirs@),
            dolphin_path: self.dolphin_path@,
        }
    }
}

impl AppData {
    /// Well-formed: preset ids are pairwise distinct, and so are the
    /// game directories' names and paths.
    pub open spec fn wf(&self) -> bool {
        preset_ids_unique(self@.presets) && dirs_unique(self@.game_dirs)
    }

    /// The empty aggregate: no presets, no game directories, no
    /// emulator path.
    pub fn new() -> (r: Self)
        ensures
            r@.presets == Seq::<PresetModel>::empty(),
            r@.game_dirs == Seq::<DirModel>::empty(),
            r@.dolphin_path == Seq::<char>::empty(),
            r.wf(),
    {
        let r = AppData { presets: Vec::new(), game_dirs: Vec::new(), dolphin_path: String::new() };
        proof {
            assert(r@.presets =~= Seq::<PresetModel>::empty());
            assert(r@.game_dirs =~= Seq::<DirModel>::empty());
        }
        r
    }
}

impl Default for AppData {
    fn default() -> (r: Self)
        ensures
            r@.presets == Seq::<PresetModel>::empty(),
            r@.game_dirs == Seq::<DirModel>::empty(),
            r@.dolphin_path == Seq::<char>::empty(),
            r.wf(),
    {
        AppData::new()
    }
}

/// Set the emulator's executable path.
pub fn set_dolph_path(data: &mut AppData, path: &str)
    ensures
        final(data)@ == (DataModel { dolphin_path: path@, ..old(data)@ }),
        old(data).wf() ==> final(data).wf(),
{
    data.dolphin_path = path.to_owned();
}

/// The emulator's executable path.
pub fn get_dolph_path(data: &AppData) -> (r: String)
    ensures
        r@ == data@.dolphin_path,
{
    data.dolphin_path.clone()
}

/// The aggregate together with the flag that marks it as needing a
/// flush to the persistence collaborator.
pub struct AppState {
    pub data: AppData,
    pub dirty: bool,
}

impl AppState {
    /// Wrap freshly loaded data; nothing is pending a flush.
    pub fn new(data: AppData) -> (r: Self)
        ensures
            r.data == data,
            r.dirty == false,
    {
        AppState { data, dirty: false }
    }

    /// Mark the aggregate as needing a flush.
    pub fn mark_dirty(&mut self)
        ensures
            final(self).data == old(self).data,
            final(self).dirty == true,
    {
        self.dirty = true;
    }

    /// Whether a flush is owed.  The caller that performs the flush
    /// clears the flag with [`AppState::clear_dirty`].
    pub fn needs_save(&self) -> (r: bool)
        ensures
            r == self.dirty,
    {
        self.dirty
    }

    /// Record that the pending flush was performed.
    pub fn clear_dirty(&mut self)
        ensures
            final(self).data == old(self).data,
            final(self).dirty == false,
    {
        self.dirty = false;
    }
}

/// Mathematical model of a [`PresetRecord`].
pub ghost struct PresetRecModel {
    pub id: Seq<char>,
    pub name: Seq<char>,
    pub created_at: int,
    pub game_path: Seq<char>,
    pub xml_path: Seq<char>,
    pub section_name: Seq<char>,
    pub options: Seq<(Seq<char>, Seq<char>, Seq<Seq<char>>)>,
}

/// Mathematical model of a [`DataRecords`].
pub ghost struct RecordsModel {
    pub dolphin_path: Seq<char>,
    pub game_dirs: Seq<(Seq<char>, Seq<char>)>,
    pub presets: Seq<PresetRecModel>,
}

/// The flattened form of an option.
pub open spec fn opt_rec_of(o: OptModel) -> (Seq<char>, Seq<char>, Seq<Seq<char>>) {
    (o.name, o.selected, o.choices)
}

/// The option an option record describes.
pub open spec fn opt_of_rec(r: (Seq<char>, Seq<char>, Seq<Seq<char>>)) -> OptModel {
    OptModel { name: r.0, selected: r.1, choices: r.2 }
}

/// The flattened form of a preset.
pub open spec fn preset_rec_of(p: PresetModel) -> PresetRecModel {
    PresetRecModel {
        id: p.id,
        name: p.name,
        created_at: p.created_at,
        game_path: p.game_path,
        xml_path: p.xml_path,
        section_name: p.section_name,
        options: p.options.map_values(|o: OptModel| opt_rec_of(o)),
    }
}

/// The preset a preset record describes.
pub open spec fn preset_of_rec(r: PresetRecModel) -> PresetModel {
    PresetModel {
        id: r.id,
        name: r.name,
        created_at: r.created_at,
        game_path: r.game_path,
        xml_path: r.xml_path,
        section_name: r.section_name,
        options: r.options.map_values(
            |o: (Seq<char>, Seq<char>, Seq<Seq<char>>)| opt_of_rec(o),
        ),
    }
}

/// The flattened form of the whole aggregate.
pub open spec fn records_of(m: DataModel) -> RecordsModel {
    RecordsModel {
        dolphin_path: m.dolphin_path,
        game_dirs: m.game_dirs.map_values(|d: DirModel| (d.name, d.path)),
        presets: m.presets.map_values(|p: PresetModel| preset_rec_of(p)),
    }
}

/// The aggregate a set of records describes, before validation.
pub open spec fn data_of_records(r: RecordsModel) -> DataModel {
    DataModel {
        dolphin_path: r.dolphin_path,
        game_dirs: r.game_dirs.map_values(
            |d: (Seq<char>, Seq<char>)| DirModel { name: d.0, path: d.1 },
        ),
        presets: r.presets.map_values(|p: PresetRecModel| preset_of_rec(p)),
    }
}

/// Reading records back: the aggregate they describe, provided it is
/// well-formed (unique preset ids, unique directory names and paths);
/// records that break the invariants are rejected.
pub open spec fn parse_records(r: RecordsModel) -> Option<DataModel> {
    let m = data_of_records(r);
    if preset_ids_unique(m.presets) && dirs_unique(m.game_dirs) {
        Some(m)
    } else {
        None
    }
}

/// Flattening a well-formed aggregate into its records and reading them
/// back yields the aggregate again, field for field.
pub proof fn lemma_records_round_trip(m: DataModel)
    requires
        preset_ids_unique(m.presets),
        dirs_unique(m.game_dirs),
    ensures
        parse_records(records_of(m)) == Some(m),
{
    let back = data_of_records(records_of(m));
    assert forall|i: int| 0 <= i < m.presets.len() implies back.presets[i] == (#[trigger] m
        .presets[i]) by {
        let p = m.presets[i];
        assert(preset_rec_of(p).options.map_values(
            |o: (Seq<char>, Seq<char>, Seq<Seq<char>>)| opt_of_rec(o),
        ) =~= p.options);
        assert(preset_of_rec(preset_rec_of(p)) == p);
    }
    assert(back.presets =~= m.presets);
    assert(back.game_dirs =~= m.game_dirs);
    assert(back == m);
}

/// The view of an option record.
pub open spec fn opt_rec_view(r: OptRecord) -> (Seq<char>, Seq<char>, Seq<Seq<char>>) {
    (r.0@, r.1@, strings_view(r.2@))
}

/// The views of a vector of option records.
pub open spec fn opt_recs_view(s: Seq<OptRecord>) -> Seq<(Seq<char>, Seq<char>, Seq<Seq<char>>)> {
    s.map_values(|o: OptRecord| opt_rec_view(o))
}

/// The view of a preset record.
pub open spec fn preset_rec_view(r: PresetRecord) -> PresetRecModel {
    PresetRecModel {
        id: r.0@,
        name: r.1@,
        created_at: r.2 as int,
        game_path: r.3@,
        xml_path: r.4@,
        section_name: r.5@,
        options: opt_recs_view(r.6@),
    }
}

/// The view of a set of data records.
pub open spec fn records_view(r: DataRecords) -> RecordsModel {
    RecordsModel {
        dolphin_path: r.0@,
        game_dirs: r.1@.map_values(|d: DirRecord| (d.0@, d.1@)),
        presets: r.2@.map_values(|p: PresetRecord| preset_rec_view(p)),
    }
}

/// Flatten one option into its record.
fn opt_to_record(o: &PresetOpt) -> (r: OptRecord)
    ensures
        opt_rec_view(r) == opt_rec_of(o@),
{
    (o.name.clone(), o.selected.clone(), clone_strings(&o.choices))
}

/// Flatten one preset into its record.
fn preset_to_record(p: &Preset) -> (r: PresetRecord)
    ensures
        preset_rec_view(r) == preset_rec_of(p@),
{
    let mut orecs: Vec<OptRecord> = Vec::new();
    let mut i: usize = 0;
    while i < p.options.len()
        invariant
            i <= p.options.len(),
            orecs@.len() == i,
            forall|k: int| 0 <= k < i ==> opt_rec_view(#[trigger] orecs@[k]) == opt_rec_of(
                p.options@[k]@,
            ),
        decreases p.options.len() - i,
    {
        orecs.push(opt_to_record(&p.options[i]));
        i = i + 1;
    }
    let r = (
        p.id.clone(),
        p.name.clone(),
        p.created_at,
        p.game_path.clone(),
        p.xml_path.clone(),
        p.section_name.clone(),
        orecs,
    );
    proof {
        assert(opt_recs_view(r.6@) =~= preset_rec_of(p@).options);
    }
    r
}

/// Flatten the aggregate into its records, ready for any persistence
/// collaborator to carry.
pub fn to_records(data: &AppData) -> (r: DataRecords)
    ensures
        records_view(r) == records_of(data@),
{
    let mut drecs: Vec<DirRecord> = Vec::new();
    let mut i: usize = 0;
    while i < data.game_dirs.len()
        invariant
            i <= data.game_dirs.len(),
            drecs@.len() == i,
            forall|k: int| 0 <= k < i ==> ((#[trigger] drecs@[k]).0@, drecs@[k].1@) == (
                data.game_dirs@[k]@.name,
                data.game_dirs@[k]@.path,
            ),
        decreases data.game_dirs.len() - i,
    {
        let d = &data.game_dirs[i];
        drecs.push((d.name.clone(), d.path.clone()));
        i = i + 1;
    }
    let mut precs: Vec<PresetRecord> = Vec::new();
    let mut j: usize = 0;
    while j < data.presets.len()
        invariant
            j <= data.presets.len(),
            precs@.len() == j,
            forall|k: int| 0 <= k < j ==> preset_rec_view(#[trigger] precs@[k])
                == preset_rec_of(data.presets@[k]@),
        decreases data.presets.len() - j,
    {
        precs.push(preset_to_record(&data.presets[j]));
        j = j + 1;
    }
    let r = (data.dolphin_path.clone(), drecs, precs);
    proof {
        assert(records_view(r).game_dirs =~= records_of(data@).game_dirs);
        assert(records_view(r).presets =~= records_of(data@).presets);
    }
    r
}

/// Whether the presets' ids are pairwise distinct.
pub fn check_ids_unique(presets: &Vec<Preset>) -> (r: bool)
    ensures
        r == preset_ids_unique(presets_view(presets@)),
{
    let ghost pv = presets_view(presets@);
    let mut i: usize = 1;
    while i < presets.len()
        invariant
            1 <= i,
            i <= presets.len() || presets.len() < 1,
            pv == presets_view(presets@),
            forall|a: int, b: int| 0 <= a < b < i && b < pv.len() ==> (#[trigger] pv[a]).id
                != (#[trigger] pv[b]).id,
        decreases presets.len() - i,
    {
        let mut j: usize = 0;
        while j < i
            invariant
                j <= i,
                i < presets.len(),
                pv == presets_view(presets@),
                forall|b: int| 0 <= b < j ==> (#[trigger] pv[b]).id != pv[i as int].id,
            decreases i - j,
        {
            proof {
                assert(pv[j as int] == presets@[j as int]@);
                assert(pv[i as int] == presets@[i as int]@);
            }
            if str_eq(presets[j].id.as_str(), presets[i].id.as_str()) {
                return false;
            }
            j = j + 1;
        }
        i = i + 1;
    }
    true
}

/// Whether the game directories' names and paths are pairwise distinct.
pub fn check_dirs_unique(dirs: &Vec<GameDir>) -> (r: bool)
    ensures
        r == dirs_unique(dirs_view(dirs@)),
{
    let ghost dv = dirs_view(dirs@);
    let mut i: usize = 1;
    while i < dirs.len()
        invariant
            1 <= i,
            i <= dirs.len() || dirs.len() < 1,
            dv == dirs_view(dirs@),
            forall|a: int, b: int| 0 <= a < b < i && b < dv.len() ==> (#[trigger] dv[a]).name
                != (#[trigger] dv[b]).name && dv[a].path != dv[b].path,
        decreases dirs.len() - i,
    {
        let mut j: usize = 0;
        while j < i
            invariant
                j <= i,
                i < dirs.len(),
                dv == dirs_view(dirs@),
                forall|b: int| 0 <= b < j ==> (#[trigger] dv[b]).name != dv[i as int].name
                    && dv[b].path != dv[i as int].path,
            decreases i - j,
        {
            proof {
                assert(dv[j as int] == dirs@[j as int]@);
                assert(dv[i as int] == dirs@[i as int]@);
            }
            if str_eq(dirs[j].name.as_str(), dirs[i].name.as_str()) {
                return false;
            }
            if str_eq(dirs[j].path.as_str(), dirs[i].path.as_str()) {
                return false;
            }
            j = j + 1;
        }
        i = i + 1;
    }
    true
}

/// Read an aggregate back from its records, rejecting records that
/// break the aggregate's invariants.
pub fn from_records(records: &DataRecords) -> (r: Option<AppData>)
    ensures
        ({
            match parse_records(records_view(*records)) {
                Some(m) => r matches Some(d) && d@ == m && d.wf(),
                None => r is None,
            }
        }),
{
    let mut game_dirs: Vec<GameDir> = Vec::new();
    let mut i: usize = 0;
    while i < records.1.len()
        invariant
            i <= records.1.len(),
            game_dirs@.len() == i,
            forall|k: int| 0 <= k < i ==> (#[trigger] game_dirs@[k])@ == (DirModel {
                name: records.1@[k].0@,
                path: records.1@[k].1@,
            }),
        decreases records.1.len() - i,
    {
        let d = &records.1[i];
        game_dirs.push(GameDir { name: d.0.clone(), path: d.1.clone() });
        i = i + 1;
    }
    let mut presets: Vec<Preset> = Vec::new();
    let mut j: usize = 0;
    while j < records.2.len()
        invariant
            j <= records.2.len(),
            presets@.len() == j,
            forall|k: int| 0 <= k < j ==> (#[trigger] presets@[k])@ == preset_of_rec(
                preset_rec_view(records.2@[k]),
            ),
        decreases records.2.len() - j,
    {
        presets.push(preset_from_record(&records.2[j]));
        j = j + 1;
    }
    let data = AppData { presets, game_dirs, dolphin_path: records.0.clone() };
    proof {
        assert(data@.game_dirs =~= data_of_records(records_view(*records)).game_dirs);
        assert(data@.presets =~= data_of_records(records_view(*records)).presets);
        assert(data@ == data_of_records(records_view(*records)));
    }
    if !check_ids_unique(&data.presets) {
        return None;
    }
    if !check_dirs_unique(&data.game_dirs) {
        return None;
    }
    Some(data)
}

/// Rebuild one preset from its record.
fn preset_from_record(r: &PresetRecord) -> (p: Preset)
    ensures
        p@ == preset_of_rec(preset_rec_view(*r)),
{
    let mut options: Vec<PresetOpt> = Vec::new();
    let mut i: usize = 0;
    while i < r.6.len()
        invariant
            i <= r.6.len(),
            options@.len() == i,
            forall|k: int| 0 <= k < i ==> (#[trigger] options@[k])@ == opt_of_rec(
                opt_rec_view(r.6@[k]),
            ),
        decreases r.6.len() - i,
    {
        let o = &r.6[i];
        options.push(
            PresetOpt {
                name: o.0.clone(),
                selected: o.1.clone(),
                choices: clone_strings(&o.2),
            },
        );
        i = i + 1;
    }
    let p = Preset {
        id: r.0.clone(),
        name: r.1.clone(),
        options,
        created_at: r.2,
        game_path: r.3.clone(),
        xml_path: r.4.clone(),
        section_name: r.5.clone(),
    };
    proof {
        assert(p@.options =~= preset_of_rec(preset_rec_view(*r)).options);
    }
    p
}

} // verus!
