//! The rules that an asset record from the item database must meet before
//! the thumbnail server renders it, and where its files live.
use vstd::prelude::*;
use crate::text::{
    lemma_split_state_concat, lemma_split_state_no_sep, lemma_split_state_push, push_str,
    split_pieces, split_state,
};

verus! {

broadcast use vstd::string::axiom_spec_iter;

/// The item type of a mesh accessory, the only kind that is rendered.
pub const MESH_ITEM_TYPE: i8 = 9;

/// A row of the item table: its type, the location of its asset file, and
/// the item id of its texture.
pub struct AssetRow {
    pub item_type: i8,
    pub location: Option<String>,
    pub texture: Option<i32>,
}

/// Why an asset record cannot be rendered.
#[derive(Debug, Clone, Copy, PartialEq, Eq)]
pub enum AssetError {
    /// The item row has no asset location.
    MeshLocationMissing,
    /// The item is not a mesh accessory.
    UnsupportedItemType,
    /// The asset location does not name an `.obj` file.
    NotObjFile,
    /// The texture row has no asset location.
    TextureLocationMissing,
}

impl AssetError {
    /// The text that the server logs for this error.
    pub fn message(&self) -> (res: &'static str)
        ensures
            *self == AssetError::MeshLocationMissing ==> res@
                == "Mesh location field is NULL in the database. THIS SHOULD NEVER HAPPEN."@,
            *self == AssetError::UnsupportedItemType ==> res@ == "Item type is not implemented."@,
            *self == AssetError::NotObjFile ==> res@
                == "Obj file not valid. May be in the old format?"@,
            *self == AssetError::TextureLocationMissing ==> res@
                == "Mesh location field is NULL in the database."@,
    {
        match self {
            AssetError::MeshLocationMissing =>
                "Mesh location field is NULL in the database. THIS SHOULD NEVER HAPPEN.",
            AssetError::UnsupportedItemType => "Item type is not implemented.",
            AssetError::NotObjFile => "Obj file not valid. May be in the old format?",
            AssetError::TextureLocationMissing => "Mesh location field is NULL in the database.",
        }
    }
}

/// A renderable mesh item: where its mesh lives and which item holds its
/// texture.
pub struct MeshAsset {
    pub mesh_location: String,
    pub texture_id: Option<i32>,
}

/// A path component that names something: neither empty (from a doubled or
/// trailing `/`) nor `.`.
pub open spec fn named_component(p: Seq<char>) -> bool {
    p.len() > 0 && p != seq!['.']
}

/// The components of a `/`-separated path that name something, in order.
pub open spec fn path_components(path: Seq<char>) -> Seq<Seq<char>> {
    split_pieces(path, '/').filter(|p: Seq<char>| named_component(p))
}

/// The file name of a path (as `Path::file_name`): its last named component,
/// unless there is none or it is `..`.
pub open spec fn file_name(path: Seq<char>) -> Option<Seq<char>> {
    let cs = path_components(path);
    if cs.len() == 0 || cs.last() == seq!['.', '.'] {
        None
    } else {
        Some(cs.last())
    }
}

/// The position of the last `c` in `s`.
pub open spec fn last_index_of(s: Seq<char>, c: char) -> Option<int>
    decreases s.len(),
{
    if s.len() == 0 {
        None
    } else if s.last() == c {
        Some(s.len() - 1)
    } else {
        last_index_of(s.drop_last(), c)
    }
}

/// The extension of a file name (as `Path::extension`): what follows its
/// last `.`, unless there is no `.`, the only `.` starts the name, or the
/// name is `..`.
pub open spec fn extension(name: Seq<char>) -> Option<Seq<char>> {
    if name == seq!['.', '.'] {
        None
    } else {
        match last_index_of(name, '.') {
            None => None,
            Some(i) => if i == 0 {
                None
            } else {
                Some(name.subrange(i + 1, name.len() as int))
            },
        }
    }
}

/// Whether a path names a file with the extension `obj`.
pub open spec fn is_obj_path(path: Seq<char>) -> bool {
    file_name(path) matches Some(name) && extension(name) == Some(seq!['o', 'b', 'j'])
}

proof fn lemma_last_index_of(s: Seq<char>, c: char)
    ensures
        last_index_of(s, c) matches Some(i) ==> 0 <= i < s.len() && s[i] == c && forall|j: int|
            i < j < s.len() ==> s[j] != c,
        last_index_of(s, c) is None ==> forall|j: int| 0 <= j < s.len() ==> s[j] != c,
    decreases s.len(),
{
    if s.len() > 0 && s.last() != c {
        lemma_last_index_of(s.drop_last(), c);
        assert forall|j: int| 0 <= j < s.len() - 1 implies s[j] == s.drop_last()[j] by {}
    }
}

proof fn lemma_obj_extension(name: Seq<char>)
    ensures
        extension(name) == Some(seq!['o', 'b', 'j']) <==> (name.len() > 4 && name[name.len() - 4]
            == '.' && name[name.len() - 3] == 'o' && name[name.len() - 2] == 'b' && name[name.len()
            - 1] == 'j'),
{
    lemma_last_index_of(name, '.');
    let n = name.len() as int;
    if extension(name) == Some(seq!['o', 'b', 'j']) {
        let i = last_index_of(name, '.')->0;
        let tail = name.subrange(i + 1, n);
        assert(tail.len() == 3);
        assert(tail[0] == 'o' && tail[1] == 'b' && tail[2] == 'j');
    }
    if n > 4 && name[n - 4] == '.' && name[n - 3] == 'o' && name[n - 2] == 'b' && name[n - 1]
        == 'j' {
        if name == seq!['.', '.'] {
            assert(name.len() == 2);
        }
        let d = last_index_of(name, '.');
        assert(d == Some(n - 4)) by {
            if d is None {
                assert(name[n - 4] != '.');
            } else {
                let i = d->0;
                assert(i >= n - 4);
                assert(i != n - 3 && i != n - 2 && i != n - 1);
            }
        }
        assert(name.subrange(n - 3, n) =~= seq!['o', 'b', 'j']);
    }
}

proof fn lemma_components_single(name: Seq<char>)
    requires
        forall|i: int| 0 <= i < name.len() ==> name[i] != '/',
    ensures
        named_component(name) ==> path_components(name) == seq![name],
        !named_component(name) ==> path_components(name).len() == 0,
{
    lemma_split_state_no_sep(name, '/');
    let e = Seq::<Seq<char>>::empty();
    e.lemma_filter_push(name, |p: Seq<char>| named_component(p));
    reveal(Seq::filter);
    assert(e.filter(|p: Seq<char>| named_component(p)) =~= e);
    assert(e.push(name) =~= seq![name]);
}

proof fn lemma_components_join(dir: Seq<char>, name: Seq<char>)
    requires
        forall|i: int| 0 <= i < name.len() ==> name[i] != '/',
    ensures
        path_components(dir + seq!['/'] + name) == path_components(dir) + path_components(name),
{
    lemma_split_state_concat(dir, name, '/');
    lemma_split_state_no_sep(name, '/');
    let (d, c) = split_state(dir, '/');
    let e = Seq::<Seq<char>>::empty();
    assert((d.push(c) + e).push(name) =~= d.push(c) + e.push(name));
    Seq::filter_distributes_over_add(d.push(c), e.push(name), |p: Seq<char>| named_component(p));
}

/// A file name (no `/` in it, neither empty nor `.`) is an `.obj` file name
/// exactly when it is longer than `.obj` and ends with `.obj`.
pub proof fn lemma_obj_file_name(name: Seq<char>)
    requires
        forall|i: int| 0 <= i < name.len() ==> name[i] != '/',
        named_component(name),
    ensures
        is_obj_path(name) <==> (name.len() > 4 && name[name.len() - 4] == '.' && name[name.len()
            - 3] == 'o' && name[name.len() - 2] == 'b' && name[name.len() - 1] == 'j'),
{
    lemma_components_single(name);
    lemma_obj_extension(name);
    assert(seq![name].last() == name);
    if name == seq!['.', '.'] {
        assert(name.len() == 2);
    }
}

/// Only the last component decides: a file name below any directory is an
/// `.obj` path exactly when the file name alone is.
pub proof fn lemma_obj_path_in_directory(dir: Seq<char>, name: Seq<char>)
    requires
        forall|i: int| 0 <= i < name.len() ==> name[i] != '/',
        named_component(name),
    ensures
        is_obj_path(dir + seq!['/'] + name) == is_obj_path(name),
{
    lemma_components_join(dir, name);
    lemma_components_single(name);
    assert((path_components(dir) + seq![name]).last() == name);
    assert(seq![name].last() == name);
}

/// A trailing `/`, or a trailing `/.`, does not change what a path names.
pub proof fn lemma_obj_path_trailing(path: Seq<char>)
    ensures
        is_obj_path(path + seq!['/']) == is_obj_path(path),
        is_obj_path(path + seq!['/'] + seq!['.']) == is_obj_path(path),
{
    let e = Seq::<char>::empty();
    lemma_components_join(path, e);
    lemma_components_single(e);
    assert(path + seq!['/'] + e =~= path + seq!['/']);
    assert(path_components(path) + path_components(e) =~= path_components(path));
    let dot = seq!['.'];
    lemma_components_join(path, dot);
    lemma_components_single(dot);
    assert(path_components(path) + path_components(dot) =~= path_components(path));
}

/// A path that ends in `..` names no file, so it is never an `.obj` path.
pub proof fn lemma_obj_path_parent(path: Seq<char>)
    ensures
        !is_obj_path(path + seq!['/'] + seq!['.', '.']),
        !is_obj_path(seq!['.', '.']),
{
    let dd = seq!['.', '.'];
    lemma_components_join(path, dd);
    lemma_components_single(dd);
    assert((path_components(path) + seq![dd]).last() == dd);
    assert(seq![dd].last() == dd);
}

/// Whether `path` names an `.obj` file, judged by its extension as the
/// standard library's `Path` reads it.
pub fn has_obj_extension(path: &str) -> (res: bool)
    ensures
        res == is_obj_path(path@),
{
    let mut last: Vec<char> = Vec::new();
    let mut has_last = false;
    let mut cur: Vec<char> = Vec::new();
    assert(path@.take(0) =~= Seq::<char>::empty());
    for c in it: path.chars()
        invariant
            it.seq() == path@,
            cur@ == split_state(path@.take(it.index() as int), '/').1,
            has_last == (split_state(path@.take(it.index() as int), '/').0.filter(
                |p: Seq<char>| named_component(p),
            ).len() > 0),
            has_last ==> last@ == split_state(path@.take(it.index() as int), '/').0.filter(
                |p: Seq<char>| named_component(p),
            ).last(),
    {
        let ghost prefix = path@.take(it.index() as int);
        proof {
            assert(path@.take(it.index() + 1) =~= prefix.push(c));
            lemma_split_state_push(prefix, '/', c);
            split_state(prefix, '/').0.lemma_filter_push(
                split_state(prefix, '/').1,
                |p: Seq<char>| named_component(p),
            );
        }
        if c == '/' {
            if cur.len() > 0 && !(cur.len() == 1 && cur[0] == '.') {
                assert(named_component(cur@));
                last = cur;
                has_last = true;
            } else {
                assert(cur@.len() == 1 ==> cur@ =~= seq!['.']);
            }
            cur = Vec::new();
        } else {
            cur.push(c);
        }
    }
    assert(path@.take(path@.len() as int) =~= path@);
    proof {
        split_state(path@, '/').0.lemma_filter_push(
            split_state(path@, '/').1,
            |p: Seq<char>| named_component(p),
        );
    }
    if cur.len() > 0 && !(cur.len() == 1 && cur[0] == '.') {
        assert(named_component(cur@));
        last = cur;
        has_last = true;
    } else {
        assert(cur@.len() == 1 ==> cur@ =~= seq!['.']);
    }
    if !has_last {
        return false;
    }
    proof {
        lemma_obj_extension(last@);
    }
    let n = last.len();
    let res = n > 4 && last[n - 4] == '.' && last[n - 3] == 'o' && last[n - 2] == 'b' && last[n
        - 1] == 'j';
    if n == 2 && last[0] == '.' && last[1] == '.' {
        assert(last@ =~= seq!['.', '.']);
        assert(!res);
        return false;
    }
    proof {
        if last@ == seq!['.', '.'] {
            assert(last@.len() == 2);
        }
    }
    res
}

/// Checks an item row: it must have an asset location, be a mesh accessory,
/// and name an `.obj` file, in that order of checking.
pub fn check_item_row(row: AssetRow) -> (res: Result<MeshAsset, AssetError>)
    ensures
        row.location is None ==> res == Err::<MeshAsset, AssetError>(
            AssetError::MeshLocationMissing,
        ),
        row.location matches Some(l) ==> {
            &&& row.item_type != MESH_ITEM_TYPE ==> res == Err::<MeshAsset, AssetError>(
                AssetError::UnsupportedItemType,
            )
            &&& row.item_type == MESH_ITEM_TYPE && !is_obj_path(l@) ==> res == Err::<
                MeshAsset,
                AssetError,
            >(AssetError::NotObjFile)
            &&& row.item_type == MESH_ITEM_TYPE && is_obj_path(l@) ==> (res matches Ok(m)
                && m.mesh_location@ == l@ && m.texture_id == row.texture)
        },
{
    let location = match row.location {
        Some(l) => l,
        None => return Err(AssetError::MeshLocationMissing),
    };
    if row.item_type != MESH_ITEM_TYPE {
        return Err(AssetError::UnsupportedItemType);
    }
    if !has_obj_extension(location.as_str()) {
        return Err(AssetError::NotObjFile);
    }
    Ok(MeshAsset { mesh_location: location, texture_id: row.texture })
}

/// Checks the texture's row: it must have an asset location, which is
/// returned.
pub fn check_texture_row(row: AssetRow) -> (res: Result<String, AssetError>)
    ensures
        row.location is None ==> res == Err::<String, AssetError>(
            AssetError::TextureLocationMissing,
        ),
        row.location matches Some(l) ==> (res matches Ok(t) && t@ == l@),
{
    match row.location {
        Some(l) => Ok(l),
        None => Err(AssetError::TextureLocationMissing),
    }
}

/// Where the server keeps the file of an asset location.
pub fn asset_file_path(location: &str) -> (res: String)
    ensures
        res@ == "/srv/http/"@ + location@,
{
    let mut s = String::new();
    push_str(&mut s, "/srv/http/");
    push_str(&mut s, location);
    assert(s@ =~= "/srv/http/"@ + location@);
    s
}

} // verus!
