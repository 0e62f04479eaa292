//! The selection validator and descriptor builder: translate a validated
//! preset into the descriptor consumed by the emulator.
//!
//! The descriptor names the base game file, the display name, and one
//! entry per option giving the zero-based position of its selected
//! choice; the schema file must live in a folder literally named
//! "riivolution", whose own parent becomes the patch root.
use vstd::prelude::*;

use std::path::Path;

use crate::presets::{
    find_preset_idx, lemma_find_preset_idx, opts_view, preset_index, str_eq, strings_view,
    OptModel, PresetOpt,
};
use crate::state::AppData;

verus! {

/// Mathematical model of a [`DescriptorOpt`].
pub ghost struct DescOptModel {
    pub choice: int,
    pub option_name: Seq<char>,
    pub section_name: Seq<char>,
}

/// One option entry of the descriptor: the zero-based position of the
/// selected choice, the option's name, and the schema's section name.
#[derive(Debug)]
pub struct DescriptorOpt {
    pub choice: usize,
    pub option_name: String,
    pub section_name: String,
}

impl View for DescriptorOpt {
    type V = DescOptModel;

    open spec fn view(&self) -> DescOptModel {
        DescOptModel {
            choice: self.choice as int,
            option_name: self.option_name@,
            section_name: self.section_name@,
        }
    }
}

/// Mathematical model of a [`Descriptor`].
pub ghost struct DescriptorModel {
    pub base_file: Seq<char>,
    pub display_name: Seq<char>,
    pub options: Seq<DescOptModel>,
    pub root: Seq<char>,
    pub xml: Seq<char>,
}

/// The descriptor handed to the emulator, before its rendering as JSON:
/// the base game file, the display name, the option entries, the patch
/// root folder, and the schema file path.
#[derive(Debug)]
pub struct Descriptor {
    pub base_file: String,
    pub display_name: String,
    pub options: Vec<DescriptorOpt>,
    pub root: String,
    pub xml: String,
}

impl View for Descriptor {
    type V = DescriptorModel;

    open spec fn view(&self) -> DescriptorModel {
        DescriptorModel {
            base_file: self.base_file@,
            display_name: self.display_name@,
            options: self.options@.map_values(|o: DescriptorOpt| o@),
            root: self.root@,
            xml: self.xml@,
        }
    }
}

/// The views of a sequence of descriptor options.
pub open spec fn desc_opts_view(s: Seq<DescriptorOpt>) -> Seq<DescOptModel> {
    s.map_values(|o: DescriptorOpt| o@)
}

/// Failure of descriptor building.
#[derive(Clone, Debug)]
pub enum BuildError {
    /// No preset carries the requested id.
    NotFound,
    /// The preset's game path is unset.
    MissingGamePath,
    /// The named option has no selection.
    MissingSelection { option_name: String },
    /// The named option's selection is none of its choices.
    InvalidChoice { option_name: String },
    /// The schema path has no parent directory.
    NoParentDirectory,
    /// The schema file's folder is not named "riivolution".
    InvalidSchemaLocation,
    /// The "riivolution" folder has no parent.
    NoRootDirectory,
}

/// The zero-based position of the first choice equal to `sel`, if any.
pub open spec fn choice_index(choices: Seq<Seq<char>>, sel: Seq<char>) -> Option<int>
    decreases choices.len(),
{
    if choices.len() == 0 {
        None
    } else if choices[0] == sel {
        Some(0)
    } else {
        match choice_index(choices.drop_first(), sel) {
            Some(i) => Some(i + 1),
            None => None,
        }
    }
}

/// An option is resolved: its selection is non-empty and names one of
/// its choices.
pub open spec fn opt_valid(o: OptModel) -> bool {
    o.selected.len() > 0 && choice_index(o.choices, o.selected) is Some
}

/// The position of the first unresolved option, if any.
pub open spec fn first_bad_opt(opts: Seq<OptModel>) -> Option<int>
    decreases opts.len(),
{
    if opts.len() == 0 {
        None
    } else if !opt_valid(opts[0]) {
        Some(0)
    } else {
        match first_bad_opt(opts.drop_first()) {
            Some(i) => Some(i + 1),
            None => None,
        }
    }
}

/// The first unresolved option is at `i` exactly when it is unresolved
/// and every earlier option is resolved.
pub proof fn lemma_first_bad_opt_at(opts: Seq<OptModel>, i: int)
    requires
        0 <= i < opts.len(),
        !opt_valid(opts[i]),
        forall|k: int| 0 <= k < i ==> opt_valid(#[trigger] opts[k]),
    ensures
        first_bad_opt(opts) == Some(i),
    decreases opts.len(),
{
    if i > 0 {
        lemma_first_bad_opt_at(opts.drop_first(), i - 1);
        assert forall|k: int| 0 <= k < opts.drop_first().len() implies opts.drop_first()[k]
            == opts[k + 1] by {}
    }
}

/// When every option is resolved, there is no first unresolved one.
pub proof fn lemma_first_bad_opt_none(opts: Seq<OptModel>)
    requires
        forall|k: int| 0 <= k < opts.len() ==> opt_valid(#[trigger] opts[k]),
    ensures
        first_bad_opt(opts) is None,
    decreases opts.len(),
{
    if opts.len() > 0 {
        lemma_first_bad_opt_none(opts.drop_first());
        assert forall|k: int| 0 <= k < opts.drop_first().len() implies opts.drop_first()[k]
            == opts[k + 1] by {}
    }
}

/// The error owed for an unresolved option: a missing selection is
/// reported before an invalid one, and either carries the option's name.
pub open spec fn opt_error_for(e: BuildError, o: OptModel) -> bool {
    if o.selected.len() == 0 {
        e matches BuildError::MissingSelection { option_name } && option_name@ == o.name
    } else {
        e matches BuildError::InvalidChoice { option_name } && option_name@ == o.name
    }
}

/// The descriptor entry that a resolved option translates to.
pub open spec fn desc_opt_of(o: OptModel, section: Seq<char>) -> DescOptModel {
    DescOptModel {
        choice: choice_index(o.choices, o.selected).unwrap(),
        option_name: o.name,
        section_name: section,
    }
}

/// The descriptor entries of a sequence of resolved options.
pub open spec fn desc_opts_of(opts: Seq<OptModel>, section: Seq<char>) -> Seq<DescOptModel> {
    opts.map_values(|o: OptModel| desc_opt_of(o, section))
}

/// The position of the first string in `v` equal to `key`.
pub fn string_index(v: &Vec<String>, key: &str) -> (r: Option<usize>)
    ensures
        match r {
            Some(i) => choice_index(strings_view(v@), key@) == Some(i as int),
            None => choice_index(strings_view(v@), key@) is None,
        },
{
    let ghost sv = strings_view(v@);
    proof {
        assert(sv.skip(0) =~= sv);
    }
    let mut i: usize = 0;
    while i < v.len()
        invariant
            i <= v.len(),
            sv == strings_view(v@),
            choice_index(sv, key@) == (match choice_index(sv.skip(i as int), key@) {
                Some(j) => Some(j + i as int),
                None => None::<int>,
            }),
        decreases v.len() - i,
    {
        proof {
            assert(sv.skip(i as int)[0] == sv[i as int]);
            assert(sv[i as int] == v@[i as int]@);
            assert(sv.skip(i as int).drop_first() =~= sv.skip(i as int + 1));
        }
        if str_eq(v[i].as_str(), key) {
            return Some(i);
        }
        i = i + 1;
    }
    proof {
        assert(sv.skip(v@.len() as int) =~= Seq::<Seq<char>>::empty());
    }
    None
}

/// Validate the options in order and translate each into its descriptor
/// entry.  The first unresolved option aborts the whole translation with
/// its error; no partial result is handed out.
pub fn build_options(options: &Vec<PresetOpt>, section_name: &str) -> (r: Result<
    Vec<DescriptorOpt>,
    BuildError,
>)
    ensures
        ({
            let ov = opts_view(options@);
            match first_bad_opt(ov) {
                Some(i) => r matches Err(e) && opt_error_for(e, ov[i]),
                None => r matches Ok(v) && desc_opts_view(v@) == desc_opts_of(
                    ov,
                    section_name@,
                ),
            }
        }),
{
    let ghost ov = opts_view(options@);
    let mut out: Vec<DescriptorOpt> = Vec::new();
    let mut i: usize = 0;
    while i < options.len()
        invariant
            i <= options.len(),
            ov == opts_view(options@),
            out@.len() == i,
            forall|k: int| 0 <= k < i ==> opt_valid(#[trigger] ov[k]),
            forall|k: int| 0 <= k < i ==> (#[trigger] out@[k])@ == desc_opt_of(
                ov[k],
                section_name@,
            ),
        decreases options.len() - i,
    {
        proof {
            assert(ov[i as int] == options@[i as int]@);
        }
        let o = &options[i];
        if o.selected.as_str().is_empty() {
            proof {
                lemma_first_bad_opt_at(ov, i as int);
            }
            return Err(BuildError::MissingSelection { option_name: o.name.clone() });
        }
        let idx = match string_index(&o.choices, o.selected.as_str()) {
            Some(idx) => idx,
            None => {
                proof {
                    lemma_first_bad_opt_at(ov, i as int);
                }
                return Err(BuildError::InvalidChoice { option_name: o.name.clone() });
            },
        };
        out.push(
            DescriptorOpt {
                choice: idx,
                option_name: o.name.clone(),
                section_name: section_name.to_owned(),
            },
        );
        i = i + 1;
    }
    proof {
        lemma_first_bad_opt_none(ov);
        assert(desc_opts_view(out@) =~= desc_opts_of(ov, section_name@));
    }
    Ok(out)
}

/// The path without its final component, if it has one.  The result is
/// a function of the path alone.
pub uninterp spec fn parent_of(p: Seq<char>) -> Option<Seq<char>>;

/// The final component of the path, if it has one.  The result is a
/// function of the path alone.
pub uninterp spec fn file_name_of(p: Seq<char>) -> Option<Seq<char>>;

/// Relies on std::path::Path::parent: the path without its final
/// component; `None` for a root or empty path.
#[verifier::external_body]
fn path_parent(p: &str) -> (r: Option<String>)
    ensures
        (match r {
            Some(q) => parent_of(p@) == Some(q@),
            None => parent_of(p@) is None,
        }),
{
    Path::new(p).parent().map(|q| q.to_string_lossy().into_owned())
}

/// Relies on std::path::Path::file_name: the final component of the
/// path, or `None` when it ends in a root, a prefix, or `..`.
#[verifier::external_body]
fn path_file_name(p: &str) -> (r: Option<String>)
    ensures
        (match r {
            Some(q) => file_name_of(p@) == Some(q@),
            None => file_name_of(p@) is None,
        }),
{
    Path::new(p).file_name().map(|q| q.to_string_lossy().into_owned())
}

/// Decide where the patch root lies, from the schema path's parent
/// folder, that folder's own name, and that folder's parent: the schema
/// must have a parent folder, named exactly "riivolution", and that
/// folder's parent becomes the root.
pub fn locate_root(
    parent: Option<String>,
    parent_name: Option<String>,
    grandparent: Option<String>,
) -> (r: Result<String, BuildError>)
    ensures
        ({
            match parent {
                None => r matches Err(e) && e is NoParentDirectory,
                Some(_) => {
                    if !(parent_name matches Some(n) && n@ == "riivolution"@) {
                        r matches Err(e) && e is InvalidSchemaLocation
                    } else {
                        match grandparent {
                            None => r matches Err(e) && e is NoRootDirectory,
                            Some(g) => r matches Ok(root) && root@ == g@,
                        }
                    }
                },
            }
        }),
{
    if parent.is_none() {
        return Err(BuildError::NoParentDirectory);
    }
    let named_right = match &parent_name {
        Some(n) => str_eq(n.as_str(), "riivolution"),
        None => false,
    };
    if !named_right {
        return Err(BuildError::InvalidSchemaLocation);
    }
    match grandparent {
        Some(g) => Ok(g),
        None => Err(BuildError::NoRootDirectory),
    }
}

/// Derive the patch root folder from the schema file's path: the folder
/// holding the schema must be named exactly "riivolution", and its own
/// parent is the root.
pub fn xml_location(xml_path: &str) -> (r: Result<String, BuildError>)
    ensures
        ({
            match parent_of(xml_path@) {
                None => r matches Err(e) && e is NoParentDirectory,
                Some(par) => {
                    if file_name_of(par) != Some("riivolution"@) {
                        r matches Err(e) && e is InvalidSchemaLocation
                    } else {
                        match parent_of(par) {
                            None => r matches Err(e) && e is NoRootDirectory,
                            Some(root) => r matches Ok(s) && s@ == root,
                        }
                    }
                },
            }
        }),
{
    let parent = path_parent(xml_path);
    let (parent_name, grandparent) = match &parent {
        Some(p) => (path_file_name(p.as_str()), path_parent(p.as_str())),
        None => (None, None),
    };
    locate_root(parent, parent_name, grandparent)
}

/// What descriptor building owes for this aggregate and id: the result
/// is `Ok` exactly when the preset exists, its game path is bound, every
/// option is resolved, and the schema lies in a "riivolution" folder
/// with a parent; each failure is reported by its first cause, and a
/// success carries exactly the translated descriptor.
pub open spec fn create_json_post(
    m: crate::state::DataModel,
    id: Seq<char>,
    r: Result<Descriptor, BuildError>,
) -> bool {
    let pv = m.presets;
    match find_preset_idx(pv, id) {
        None => r matches Err(e) && e is NotFound,
        Some(i) => {
            let p = pv[i];
            if p.game_path.len() == 0 {
                r matches Err(e) && e is MissingGamePath
            } else {
                match first_bad_opt(p.options) {
                    Some(b) => r matches Err(e) && opt_error_for(e, p.options[b]),
                    None => match parent_of(p.xml_path) {
                        None => r matches Err(e) && e is NoParentDirectory,
                        Some(par) => {
                            if file_name_of(par) != Some("riivolution"@) {
                                r matches Err(e) && e is InvalidSchemaLocation
                            } else {
                                match parent_of(par) {
                                    None => r matches Err(e) && e is NoRootDirectory,
                                    Some(root) => r matches Ok(d) && d@ == (DescriptorModel {
                                        base_file: p.game_path,
                                        display_name: p.name,
                                        options: desc_opts_of(p.options, p.section_name),
                                        root: root,
                                        xml: p.xml_path,
                                    }),
                                }
                            }
                        },
                    },
                }
            }
        },
    }
}

/// Build the descriptor for the preset carrying `id`: look the preset
/// up, demand a bound game path, validate and translate every option in
/// order (first failure wins), and derive the patch root from the
/// schema's location.  This is the whole translation but for the JSON
/// rendering and the write.
pub fn create_json(data: &AppData, id: &str) -> (r: Result<Descriptor, BuildError>)
    ensures
        create_json_post(data@, id@, r),
{
    let ghost pv = data@.presets;
    proof {
        lemma_find_preset_idx(pv, id@);
    }
    let i = match preset_index(&data.presets, id) {
        Some(i) => i,
        None => {
            return Err(BuildError::NotFound);
        },
    };
    let preset = &data.presets[i];
    proof {
        assert(preset@ == pv[i as int]);
    }
    if preset.game_path.as_str().is_empty() {
        return Err(BuildError::MissingGamePath);
    }
    let options = match build_options(&preset.options, preset.section_name.as_str()) {
        Ok(v) => v,
        Err(e) => {
            return Err(e);
        },
    };
    let root = match xml_location(preset.xml_path.as_str()) {
        Ok(root) => root,
        Err(e) => {
            return Err(e);
        },
    };
    let d = Descriptor {
        base_file: preset.game_path.clone(),
        display_name: preset.name.clone(),
        options,
        root,
        xml: preset.xml_path.clone(),
    };
    proof {
        assert(d@.options =~= desc_opts_of(pv[i as int].options, pv[i as int].section_name));
    }
    Ok(d)
}

} // verus!
