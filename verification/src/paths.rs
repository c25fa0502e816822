//! Which files are game backups, and the paths found under what the user picked.

use vstd::prelude::*;
use vstd::utf8::encode_utf8;

use crate::codec::bytes_equal;

verus! {

/// File name extensions of Nintendo Switch game backups.
pub const GAME_BACKUP_EXTENSIONS: [&'static str; 3] = ["nsp", "xci", "nsz"];

/// The extension of a path, as `std::path::Path::extension` gives it.
pub uninterp spec fn path_extension_of(path: Seq<char>) -> Option<Seq<char>>;

/// Whether two paths are equal as `std::path::Path` compares them (component by component).
pub uninterp spec fn same_path(a: Seq<char>, b: Seq<char>) -> bool;

/// The last component of a path, as `std::path::Path::file_name` gives it.
pub uninterp spec fn file_name_of(path: Seq<char>) -> Option<Seq<char>>;

/// Calls `std::path::Path::file_name` on `path`: the last component, unless the
/// path ends in `..` or has none. The name of a path that is a string is a
/// string too, so nothing is lost in the conversion. The claim is only that the
/// result is a function of the path.
#[verifier::external_body]
pub(crate) fn path_file_name(path: &str) -> (name: Option<String>)
    ensures
        name is Some == file_name_of(path@) is Some,
        name matches Some(n) ==> n@ == file_name_of(path@)->0,
{
    std::path::Path::new(path).file_name().and_then(|n| n.to_str()).map(|n| n.to_string())
}

/// Whether `a` stands for the path `b`: the same string, or an equal path as
/// `std::path::Path` compares them.
pub open spec fn path_matches(a: Seq<char>, b: Seq<char>) -> bool {
    a == b || same_path(a, b)
}

/// Calls `std::path::Path::extension` on `path`. The extension of a path that
/// is a string is a string too, so nothing is lost in the conversion. Claimed:
/// the result is a function of the path, and there is an extension only where
/// there is a file name (`Path::extension` is taken from `Path::file_name`).
#[verifier::external_body]
pub(crate) fn path_extension(path: &str) -> (ext: Option<String>)
    ensures
        ext is Some == path_extension_of(path@) is Some,
        ext matches Some(e) ==> e@ == path_extension_of(path@)->0,
        ext is Some ==> file_name_of(path@) is Some,
{
    std::path::Path::new(path).extension().and_then(|e| e.to_str()).map(|e| e.to_string())
}

/// Compares two paths with `PartialEq for std::path::Path`, which compares them
/// component by component. Claimed: the result is a function of the two paths,
/// and two equal strings are equal paths.
#[verifier::external_body]
pub(crate) fn paths_equal(a: &str, b: &str) -> (eq: bool)
    ensures
        eq == same_path(a@, b@),
        a@ == b@ ==> eq,
{
    std::path::Path::new(a) == std::path::Path::new(b)
}

/// Whether `ext` is one of `GAME_BACKUP_EXTENSIONS` (`nsp`, `xci`, `nsz`), compared as UTF-8 bytes.
pub open spec fn is_game_backup_extension(ext: Seq<char>) -> bool {
    let b = encode_utf8(ext);
    b == seq![110u8, 115u8, 112u8] || b == seq![120u8, 99u8, 105u8] || b == seq![110u8, 115u8, 122u8]
}

/// Whether a path names a game backup: its extension is one of `GAME_BACKUP_EXTENSIONS`.
pub open spec fn is_game_backup_spec(path: Seq<char>) -> bool {
    path_extension_of(path) matches Some(e) && is_game_backup_extension(e)
}

/// Whether an extension, as `Path::extension` gives it, is one of `GAME_BACKUP_EXTENSIONS`.
pub fn extension_is_game_backup(ext: &Option<String>) -> (res: bool)
    ensures
        res == (ext matches Some(e) && is_game_backup_extension(e@)),
{
    match ext {
        None => false,
        Some(ext) => {
            let b = ext.as_str().as_bytes();
            let nsp: [u8; 3] = [110u8, 115u8, 112u8];
            let xci: [u8; 3] = [120u8, 99u8, 105u8];
            let nsz: [u8; 3] = [110u8, 115u8, 122u8];
            assert(nsp@ =~= seq![110u8, 115u8, 112u8]);
            assert(xci@ =~= seq![120u8, 99u8, 105u8]);
            assert(nsz@ =~= seq![110u8, 115u8, 122u8]);
            bytes_equal(b, nsp.as_slice()) || bytes_equal(b, xci.as_slice()) || bytes_equal(
                b,
                nsz.as_slice(),
            )
        },
    }
}

/// Whether `path` names a game backup, judged by its extension.
pub fn is_game_backup(path: &str) -> (res: bool)
    ensures
        res == is_game_backup_spec(path@),
{
    extension_is_game_backup(&path_extension(path))
}

/// How deep to look under a picked directory: everywhere when recursing, only
/// its direct entries otherwise.
pub fn max_walk_depth(recurse: bool) -> (depth: usize)
    ensures
        depth == (if recurse { usize::MAX } else { 1 }),
{
    if recurse {
        usize::MAX
    } else {
        1
    }
}

/// One entry met while walking a directory.
pub struct WalkedEntry {
    /// Its path; `None` where the entry could not be read or its path is not UTF-8.
    pub path: Option<String>,
    /// How far below the walked directory it lies: 0 for the directory itself,
    /// 1 for its direct entries, and so on.
    pub depth: usize,
}

/// What was found at the path that the user picked.
pub enum PickedPath {
    /// Nothing exists there.
    Missing,
    /// A directory. `entries` holds, in walking order, each entry met (the
    /// directory itself first). `cancelled` is set when the walk was stopped early.
    Directory { entries: Vec<WalkedEntry>, cancelled: bool },
    /// Something other than a directory; `None` where its path is not UTF-8.
    NotDirectory(Option<String>),
}

/// Why no game paths came out of a pick.
#[derive(Clone, Copy, Debug, PartialEq, Eq, Structural)]
pub enum GamePathsError {
    DoesNotExist,
    NeitherDirectoryNorGameBackup,
    NoGameBackupsFound,
}

/// The game backups among walked entries at most `max_depth` deep, in walking order.
pub open spec fn game_backups_among(entries: Seq<WalkedEntry>, max_depth: usize) -> Seq<Seq<char>>
    decreases entries.len(),
{
    if entries.len() == 0 {
        Seq::empty()
    } else {
        let rest = game_backups_among(entries.drop_last(), max_depth);
        let e = entries.last();
        match e.path {
            Some(p) => if e.depth <= max_depth && is_game_backup_spec(p@) {
                rest.push(p@)
            } else {
                rest
            },
            None => rest,
        }
    }
}

/// The game paths that a pick yields, looking under a directory through every
/// depth when `recurse` is set and only at its direct entries otherwise.
pub open spec fn select_game_paths_spec(picked: PickedPath, recurse: bool) -> Result<
    Seq<Seq<char>>,
    GamePathsError,
> {
    match picked {
        PickedPath::Missing => Err(GamePathsError::DoesNotExist),
        PickedPath::Directory { entries, cancelled } => {
            let found = game_backups_among(
                entries@,
                if recurse {
                    usize::MAX
                } else {
                    1
                },
            );
            if cancelled || found.len() > 0 {
                Ok(found)
            } else {
                Err(GamePathsError::NoGameBackupsFound)
            }
        },
        PickedPath::NotDirectory(path) => match path {
            Some(p) => if is_game_backup_spec(p@) {
                Ok(seq![p@])
            } else {
                Err(GamePathsError::NeitherDirectoryNorGameBackup)
            },
            None => Err(GamePathsError::NeitherDirectoryNorGameBackup),
        },
    }
}

/// The game paths that a pick yields: every game backup met in a directory,
/// through every depth when `recurse` is set and one level down otherwise (an
/// error if there is none, unless the walk was cancelled), or the picked file
/// itself if it is a game backup.
pub fn select_game_paths(picked: PickedPath, recurse: bool) -> (res: Result<
    Vec<String>,
    GamePathsError,
>)
    ensures
        match select_game_paths_spec(picked, recurse) {
            Ok(paths) => res matches Ok(v) && v.deep_view() == paths,
            Err(e) => res == Err::<Vec<String>, GamePathsError>(e),
        },
{
    match picked {
        PickedPath::Missing => Err(GamePathsError::DoesNotExist),
        PickedPath::Directory { entries, cancelled } => {
            let max_depth = max_walk_depth(recurse);
            let mut found: Vec<String> = Vec::new();
            let mut i: usize = 0;
            while i < entries.len()
                invariant
                    i <= entries@.len(),
                    max_depth == (if recurse {
                        usize::MAX
                    } else {
                        1
                    }),
                    found.deep_view() == game_backups_among(entries@.take(i as int), max_depth),
                decreases entries@.len() - i,
            {
                proof {
                    assert(entries@.take(i + 1).drop_last() =~= entries@.take(i as int));
                }
                let entry = &entries[i];
                match &entry.path {
                    Some(p) => {
                        if entry.depth <= max_depth && is_game_backup(p.as_str()) {
                            found.push(p.clone());
                            assert(found.deep_view() =~= game_backups_among(
                                entries@.take(i + 1),
                                max_depth,
                            ));
                        }
                    },
                    None => {},
                }
                i = i + 1;
            }
            assert(entries@.take(entries@.len() as int) =~= entries@);
            if cancelled || found.len() > 0 {
                Ok(found)
            } else {
                Err(GamePathsError::NoGameBackupsFound)
            }
        },
        PickedPath::NotDirectory(path) => match path {
            Some(p) => {
                if is_game_backup(p.as_str()) {
                    let mut v: Vec<String> = Vec::new();
                    v.push(p);
                    assert(v.deep_view() =~= seq![p@]);
                    Ok(v)
                } else {
                    Err(GamePathsError::NeitherDirectoryNorGameBackup)
                }
            },
            None => Err(GamePathsError::NeitherDirectoryNorGameBackup),
        },
    }
}

/// A game path found among walked entries comes from an entry that deep or
/// less and names a game backup; and every such entry is found.
proof fn lemma_game_backups_among(entries: Seq<WalkedEntry>, max_depth: usize)
    ensures
        forall|k: int|
            #![trigger game_backups_among(entries, max_depth)[k]]
            0 <= k < game_backups_among(entries, max_depth).len() ==> exists|i: int|
                0 <= i < entries.len() && #[trigger] entries[i].path is Some && entries[i].path->0@
                    == game_backups_among(entries, max_depth)[k] && entries[i].depth <= max_depth,
        forall|i: int|
            0 <= i < entries.len() && #[trigger] entries[i].path is Some && entries[i].depth
                <= max_depth && is_game_backup_spec(entries[i].path->0@) ==> game_backups_among(
                entries,
                max_depth,
            ).contains(entries[i].path->0@),
    decreases entries.len(),
{
    if entries.len() > 0 {
        let init = entries.drop_last();
        lemma_game_backups_among(init, max_depth);
        let rest = game_backups_among(init, max_depth);
        let found = game_backups_among(entries, max_depth);
        assert forall|k: int| #![trigger found[k]] 0 <= k < found.len() implies exists|i: int|
            0 <= i < entries.len() && #[trigger] entries[i].path is Some && entries[i].path->0@
                == found[k] && entries[i].depth <= max_depth by {
            if k < rest.len() {
                assert(found[k] == rest[k]);
                let i = choose|i: int|
                    0 <= i < init.len() && #[trigger] init[i].path is Some && init[i].path->0@
                        == rest[k] && init[i].depth <= max_depth;
                assert(entries[i] == init[i]);
            } else {
                assert(entries[entries.len() - 1].path is Some);
            }
        }
        assert forall|i: int|
            0 <= i < entries.len() && #[trigger] entries[i].path is Some && entries[i].depth
                <= max_depth && is_game_backup_spec(entries[i].path->0@) implies found.contains(
            entries[i].path->0@,
        ) by {
            if i < init.len() {
                assert(entries[i] == init[i]);
                let k = choose|k: int| 0 <= k < rest.len() && rest[k] == init[i].path->0@;
                assert(found[k] == rest[k]);
            } else {
                assert(found[found.len() - 1] == entries[i].path->0@);
            }
        }
    }
}

/// Every path found among walked entries names a game backup.
proof fn lemma_game_backup_found(entries: Seq<WalkedEntry>, max_depth: usize, k: int)
    requires
        0 <= k < game_backups_among(entries, max_depth).len(),
    ensures
        is_game_backup_spec(game_backups_among(entries, max_depth)[k]),
    decreases entries.len(),
{
    let init = entries.drop_last();
    let rest = game_backups_among(init, max_depth);
    if k < rest.len() {
        lemma_game_backup_found(init, max_depth, k);
    }
}

/// Looking through every depth of a directory finds every game backup that
/// looking one level down finds: for the same walk of the same directory,
/// where the walk one level down yields game paths, the walk through every
/// depth does too, and its paths include them.
pub proof fn lemma_recursive_walk_finds_more(entries: Vec<WalkedEntry>)
    ensures
        select_game_paths_spec(PickedPath::Directory { entries, cancelled: false }, false) matches Ok(
            found,
        ) ==> select_game_paths_spec(PickedPath::Directory { entries, cancelled: false }, true)
            matches Ok(more) && forall|k: int| 0 <= k < found.len() ==> more.contains(
            #[trigger] found[k],
        ),
{
    let a = game_backups_among(entries@, 1);
    let b = game_backups_among(entries@, usize::MAX);
    lemma_game_backups_among(entries@, 1);
    lemma_game_backups_among(entries@, usize::MAX);
    assert forall|k: int| 0 <= k < a.len() implies b.contains(#[trigger] a[k]) by {
        let i = choose|i: int|
            0 <= i < entries@.len() && #[trigger] entries@[i].path is Some && entries@[i].path->0@
                == a[k] && entries@[i].depth <= 1;
        lemma_game_backup_found(entries@, 1, k);
    }
    if a.len() > 0 {
        assert(b.contains(a[0]));
    }
}


/// What a pick yields, case by case: nothing there is an error; a file (with
/// or without `recurse`, which only matters for directories) yields itself
/// when it is a game backup and is refused otherwise; a directory yields the
/// game backups met deep enough (one level down, or every level when
/// `recurse` is set), and an error when there is none and the walk was not
/// cancelled.
pub proof fn lemma_select_game_paths_cases(picked: PickedPath, recurse: bool)
    ensures
        picked is Missing ==> select_game_paths_spec(picked, recurse) == Err::<
            Seq<Seq<char>>,
            GamePathsError,
        >(GamePathsError::DoesNotExist),
        picked matches PickedPath::NotDirectory(Some(p)) ==> select_game_paths_spec(picked, recurse)
            == (if is_game_backup_spec(p@) {
            Ok::<Seq<Seq<char>>, GamePathsError>(seq![p@])
        } else {
            Err::<Seq<Seq<char>>, GamePathsError>(GamePathsError::NeitherDirectoryNorGameBackup)
        }),
        picked matches PickedPath::NotDirectory(None) ==> select_game_paths_spec(picked, recurse)
            == Err::<Seq<Seq<char>>, GamePathsError>(GamePathsError::NeitherDirectoryNorGameBackup),
        picked is NotDirectory ==> select_game_paths_spec(picked, recurse) == select_game_paths_spec(
            picked,
            !recurse,
        ),
        picked matches PickedPath::Directory { entries, cancelled } ==> {
            let found = game_backups_among(entries@, if recurse { usize::MAX } else { 1 });
            select_game_paths_spec(picked, recurse) == if cancelled || found.len() > 0 {
                Ok::<Seq<Seq<char>>, GamePathsError>(found)
            } else {
                Err::<Seq<Seq<char>>, GamePathsError>(GamePathsError::NoGameBackupsFound)
            }
        },
{
}

/// The game backups among walked entries, entry by entry: none among no
/// entries, and one more entry adds its path at the end exactly when it has a
/// path, lies at most `max_depth` deep, and names a game backup.
pub proof fn lemma_game_backups_among_steps(
    entries: Seq<WalkedEntry>,
    e: WalkedEntry,
    max_depth: usize,
)
    ensures
        game_backups_among(Seq::<WalkedEntry>::empty(), max_depth) == Seq::<Seq<char>>::empty(),
        game_backups_among(entries.push(e), max_depth) == game_backups_among(entries, max_depth) + (
        if e.path is Some && e.depth <= max_depth && is_game_backup_spec(e.path->0@) {
            seq![e.path->0@]
        } else {
            Seq::<Seq<char>>::empty()
        }),
{
    let rest = game_backups_among(entries, max_depth);
    assert(entries.push(e).drop_last() =~= entries);
    assert(rest + Seq::<Seq<char>>::empty() =~= rest);
    if e.path is Some {
        assert(rest.push(e.path->0@) =~= rest + seq![e.path->0@]);
    }
}

} // verus!
