//! Named base-game registrations: a name and a path, both unique within
//! the collection.
use vstd::prelude::*;

use crate::presets::str_eq;

verus! {

/// Mathematical model of a [`GameDir`].
pub ghost struct DirModel {
    pub name: Seq<char>,
    pub path: Seq<char>,
}

/// A named shortcut to a base game's file location.
#[derive(Debug)]
pub struct GameDir {
    pub name: String,
    pub path: String,
}

impl View for GameDir {
    type V = DirModel;

    open spec fn view(&self) -> DirModel {
        DirModel { name: self.name@, path: self.path@ }
    }
}

impl Clone for GameDir {
    fn clone(&self) -> (r: Self)
        ensures
            r@ == self@,
    {
        GameDir { name: self.name.clone(), path: self.path.clone() }
    }
}

/// The views of a sequence of game directories.
pub open spec fn dirs_view(s: Seq<GameDir>) -> Seq<DirModel> {
    s.map_values(|d: GameDir| d@)
}

/// Whether some entry already carries this path.
pub open spec fn dirs_have_path(dirs: Seq<DirModel>, path: Seq<char>) -> bool {
    exists|i: int| 0 <= i < dirs.len() && (#[trigger] dirs[i]).path == path
}

/// Whether some entry already carries this name.
pub open spec fn dirs_have_name(dirs: Seq<DirModel>, name: Seq<char>) -> bool {
    exists|i: int| 0 <= i < dirs.len() && (#[trigger] dirs[i]).name == name
}

/// Both the names and the paths of the entries are pairwise distinct.
pub open spec fn dirs_unique(dirs: Seq<DirModel>) -> bool {
    forall|i: int, j: int|
        0 <= i < j < dirs.len() ==> (#[trigger] dirs[i]).name != (#[trigger] dirs[j]).name
            && dirs[i].path != dirs[j].path
}

/// The position of the first entry with this path, if any.
pub open spec fn find_dir_by_path(dirs: Seq<DirModel>, path: Seq<char>) -> Option<int>
    decreases dirs.len(),
{
    if dirs.len() == 0 {
        None
    } else if dirs[0].path == path {
        Some(0)
    } else {
        match find_dir_by_path(dirs.drop_first(), path) {
            Some(i) => Some(i + 1),
            None => None,
        }
    }
}

/// What a found index says of the collection: the entry at it carries
/// the path; a miss says no entry carries it.
pub proof fn lemma_find_dir_by_path(dirs: Seq<DirModel>, path: Seq<char>)
    ensures
        match find_dir_by_path(dirs, path) {
            Some(i) => 0 <= i < dirs.len() && dirs[i].path == path,
            None => forall|k: int| 0 <= k < dirs.len() ==> (#[trigger] dirs[k]).path != path,
        },
    decreases dirs.len(),
{
    if dirs.len() > 0 && dirs[0].path != path {
        lemma_find_dir_by_path(dirs.drop_first(), path);
        assert forall|k: int| 0 <= k < dirs.len() implies dirs.drop_first().len() == dirs.len()
            - 1 && (0 < k < dirs.len() ==> (#[trigger] dirs[k]) == dirs.drop_first()[k
            - 1]) by {}
    }
}

/// The position of the first entry in `dirs` carrying `path`.
pub fn dir_index_by_path(dirs: &Vec<GameDir>, path: &str) -> (r: Option<usize>)
    ensures
        match r {
            Some(i) => find_dir_by_path(dirs_view(dirs@), path@) == Some(i as int),
            None => find_dir_by_path(dirs_view(dirs@), path@) is None,
        },
{
    let ghost dv = dirs_view(dirs@);
    proof {
        assert(dv.skip(0) =~= dv);
    }
    let mut i: usize = 0;
    while i < dirs.len()
        invariant
            i <= dirs.len(),
            dv == dirs_view(dirs@),
            find_dir_by_path(dv, path@) == (match find_dir_by_path(dv.skip(i as int), path@) {
                Some(j) => Some(j + i as int),
                None => None::<int>,
            }),
        decreases dirs.len() - i,
    {
        proof {
            assert(dv.skip(i as int)[0] == dv[i as int]);
            assert(dv[i as int] == dirs@[i as int]@);
            assert(dv.skip(i as int).drop_first() =~= dv.skip(i as int + 1));
        }
        if str_eq(dirs[i].path.as_str(), path) {
            return Some(i);
        }
        i = i + 1;
    }
    proof {
        assert(dv.skip(dirs@.len() as int) =~= Seq::<DirModel>::empty());
    }
    None
}

/// Rejection of a new game directory entry.
#[derive(Clone, Copy, Debug, PartialEq, Eq, Structural)]
pub enum GameDirError {
    /// Some entry already carries this path.
    DuplicatePath,
    /// Some entry already carries this name.
    DuplicateName,
}

/// Whether some entry of `dirs` carries the path `path`.
pub fn any_path_matches(dirs: &Vec<GameDir>, path: &str) -> (r: bool)
    ensures
        r == dirs_have_path(dirs_view(dirs@), path@),
{
    let ghost dv = dirs_view(dirs@);
    let mut i: usize = 0;
    while i < dirs.len()
        invariant
            i <= dirs.len(),
            dv == dirs_view(dirs@),
            forall|k: int| 0 <= k < i ==> (#[trigger] dv[k]).path != path@,
        decreases dirs.len() - i,
    {
        proof {
            assert(dv[i as int] == dirs@[i as int]@);
        }
        if str_eq(dirs[i].path.as_str(), path) {
            return true;
        }
        i = i + 1;
    }
    false
}

/// Whether some entry of `dirs` carries the name `name`.
pub fn any_name_matches(dirs: &Vec<GameDir>, name: &str) -> (r: bool)
    ensures
        r == dirs_have_name(dirs_view(dirs@), name@),
{
    let ghost dv = dirs_view(dirs@);
    let mut i: usize = 0;
    while i < dirs.len()
        invariant
            i <= dirs.len(),
            dv == dirs_view(dirs@),
            forall|k: int| 0 <= k < i ==> (#[trigger] dv[k]).name != name@,
        decreases dirs.len() - i,
    {
        proof {
            assert(dv[i as int] == dirs@[i as int]@);
        }
        if str_eq(dirs[i].name.as_str(), name) {
            return true;
        }
        i = i + 1;
    }
    false
}

/// Register a new game directory.  An entry sharing an existing path is
/// rejected first, then one sharing an existing name; otherwise the new
/// entry is appended.
pub fn create_gamedir(dirs: &mut Vec<GameDir>, name: &str, path: &str) -> (r: Result<
    (),
    GameDirError,
>)
    ensures
        dirs_have_path(dirs_view(old(dirs)@), path@) ==> r == Err::<(), GameDirError>(
            GameDirError::DuplicatePath,
        ) && final(dirs)@ == old(dirs)@,
        (!dirs_have_path(dirs_view(old(dirs)@), path@) && dirs_have_name(
            dirs_view(old(dirs)@),
            name@,
        )) ==> r == Err::<(), GameDirError>(GameDirError::DuplicateName) && final(dirs)@ == old(
            dirs,
        )@,
        (!dirs_have_path(dirs_view(old(dirs)@), path@) && !dirs_have_name(
            dirs_view(old(dirs)@),
            name@,
        )) ==> r == Ok::<(), GameDirError>(()) && dirs_view(final(dirs)@) == dirs_view(
            old(dirs)@,
        ).push(DirModel { name: name@, path: path@ }),
        dirs_unique(dirs_view(old(dirs)@)) ==> dirs_unique(dirs_view(final(dirs)@)),
{
    if any_path_matches(dirs, path) {
        return Err(GameDirError::DuplicatePath);
    }
    if any_name_matches(dirs, name) {
        return Err(GameDirError::DuplicateName);
    }
    let entry = GameDir { name: name.to_owned(), path: path.to_owned() };
    dirs.push(entry);
    proof {
        assert(dirs_view(dirs@) =~= dirs_view(old(dirs)@).push(
            DirModel { name: name@, path: path@ },
        ));
        assert forall|i: int, j: int|
            0 <= i < j < dirs_view(dirs@).len() && dirs_unique(dirs_view(old(dirs)@)) implies (
        #[trigger] dirs_view(dirs@)[i]).name != (#[trigger] dirs_view(dirs@)[j]).name
            && dirs_view(dirs@)[i].path != dirs_view(dirs@)[j].path by {
            if j == dirs_view(dirs@).len() - 1 {
                assert(!dirs_have_name(dirs_view(old(dirs)@), name@));
                assert(dirs_view(old(dirs)@)[i].name != name@);
                assert(dirs_view(old(dirs)@)[i].path != path@);
            }
        }
    }
    Ok(())
}

/// Remove the entry at `index`; an out-of-range index leaves the
/// collection alone.
pub fn remove_gamedir(dirs: &mut Vec<GameDir>, index: usize)
    ensures
        index < old(dirs)@.len() ==> final(dirs)@ == old(dirs)@.remove(index as int),
        index >= old(dirs)@.len() ==> final(dirs)@ == old(dirs)@,
{
    if index < dirs.len() {
        dirs.remove(index);
    }
}

/// All entries, in insertion order.
pub fn get_gamedirs(dirs: &Vec<GameDir>) -> (r: Vec<GameDir>)
    ensures
        dirs_view(r@) == dirs_view(dirs@),
{
    let mut out: Vec<GameDir> = Vec::new();
    let mut i: usize = 0;
    while i < dirs.len()
        invariant
            i <= dirs.len(),
            out@.len() == i,
            forall|k: int| 0 <= k < i ==> (#[trigger] out@[k])@ == dirs@[k]@,
        decreases dirs.len() - i,
    {
        out.push(dirs[i].clone());
        i = i + 1;
    }
    proof {
        assert(dirs_view(out@) =~= dirs_view(dirs@));
    }
    out
}

} // verus!
