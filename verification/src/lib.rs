//! Backend library for a launcher that manages Riivolution mod presets:
//! it parses a mod-definition XML schema into selectable option sets,
//! tracks named game directories, layers user selections onto presets,
//! and builds the JSON descriptor consumed by the Dolphin emulator.
use vstd::prelude::*;

pub mod gamedirs;
pub mod jsonbuilder;
pub mod presets;
pub mod state;

use crate::jsonbuilder::{create_json, create_json_post, BuildError, Descriptor};
use crate::presets::{
    find_preset_idx, lemma_find_preset_idx, preset_ids_unique, preset_index, presets_view,
    NotFoundError, Preset,
};
use crate::state::AppData;
use vstd::string::StringExecFns;

verus! {

/// Remove the preset carrying `id`; a preset that is already gone is an
/// error.
pub fn remove_preset(presets: &mut Vec<Preset>, id: &str) -> (r: Result<(), NotFoundError>)
    ensures
        ({
            let pv = presets_view(old(presets)@);
            match find_preset_idx(pv, id@) {
                None => r == Err::<(), NotFoundError>(NotFoundError::PresetMissing)
                    && final(presets)@ == old(presets)@,
                Some(i) => r == Ok::<(), NotFoundError>(()) && presets_view(final(presets)@)
                    == pv.remove(i),
            }
        }),
        preset_ids_unique(presets_view(old(presets)@)) ==> preset_ids_unique(
            presets_view(final(presets)@),
        ),
{
    let ghost pv = presets_view(presets@);
    proof {
        lemma_find_preset_idx(pv, id@);
    }
    match preset_index(presets, id) {
        Some(i) => {
            let _ = presets.remove(i);
            proof {
                assert(presets_view(presets@) =~= pv.remove(
                    find_preset_idx(pv, id@).unwrap(),
                ));
            }
            Ok(())
        },
        None => Err(NotFoundError::PresetMissing),
    }
}

/// Decide what running a preset means: build its descriptor and name the
/// file it is written to, `<preset name>.json`.  The caller writes the
/// descriptor there and spawns the emulator on that file.
pub fn run_game(data: &AppData, id: &str) -> (r: Result<(Descriptor, String), BuildError>)
    ensures
        ({
            let pv = data@.presets;
            match r {
                Ok(pair) => create_json_post(data@, id@, Ok(pair.0))
                    && (find_preset_idx(pv, id@) matches Some(i) && pair.1@ == pv[i].name
                    + ".json"@),
                Err(e) => create_json_post(data@, id@, Err(e)),
            }
        }),
{
    let d = match create_json(data, id) {
        Ok(d) => d,
        Err(e) => {
            return Err(e);
        },
    };
    let ghost pv = data@.presets;
    proof {
        lemma_find_preset_idx(pv, id@);
    }
    let i = match preset_index(&data.presets, id) {
        Some(i) => i,
        None => {
            proof {
                assert(false);
            }
            return Err(BuildError::NotFound);
        },
    };
    let file_name = data.presets[i].name.clone().concat(".json");
    Ok((d, file_name))
}

} // verus!
